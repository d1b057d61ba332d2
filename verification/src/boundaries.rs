//! The boundary analyzer: per section, the sorted, deduplicated set of
//! addresses at which a new block must start.
//!
//! Each section's boundaries depend only on that section and on shared
//! read-only state (the decode tables and the symbol index), so sections
//! are independent units of work; their results are merged, sorted and
//! deduplicated at the end regardless of the order they were computed in.

use vstd::prelude::*;

verus! {

use crate::processor::{
    lemma_assoc_member,
    lemma_raw_run_le,
    lemma_raw_run_past,
    spec_assoc,
    spec_raw_run_end,
    Processor,
};
use crate::sections::{Section, SectionKind, SectionView};
use crate::symbols::has_key;

/// Whether a new C string starts at `off` in `bytes`: a non-NUL byte at
/// the start of the buffer or right after a NUL, with a terminating NUL
/// somewhere after it. Runs of two or more NULs start no string.
pub open spec fn is_cstr_start(bytes: Seq<u8>, off: nat) -> bool {
    &&& off < bytes.len()
    &&& bytes[off as int] != 0
    &&& (off == 0 || bytes[off as int - 1] == 0)
    &&& exists|j: int| #![trigger bytes[j]] off < j < bytes.len() && bytes[j] == 0
}

/// Whether a section is split at fixed strides rather than scanned.
pub open spec fn stride_kind(kind: SectionKind) -> bool {
    kind != SectionKind::Code && kind != SectionKind::CString
}

/// The exact boundary addresses the code scan emits from `addr` on: at
/// every visited address, the address once more if the index names it,
/// advancing by the decoded width or to the end of the raw-byte run.
/// (The advance is clamped into the section so the scan is total even on
/// tables a well-formed state would rule out.)
pub open spec fn spec_code_scan(p: &Processor, sec: SectionView, addr: nat) -> Seq<usize>
    decreases sec.end - addr,
{
    if addr >= sec.end {
        Seq::empty()
    } else {
        let sym: Seq<usize> = if has_key(p.index@, addr as usize) {
            seq![addr as usize]
        } else {
            Seq::empty()
        };
        let next: nat = if spec_assoc(p.inst_view(), addr as usize) is Some {
            (addr + spec_assoc(p.inst_view(), addr as usize)->0.width) as nat
        } else if spec_assoc(p.err_view(), addr as usize) is Some {
            (addr + spec_assoc(p.err_view(), addr as usize)->0.size) as nat
        } else {
            spec_raw_run_end(p, sec, addr, addr)
        };
        let capped: nat = if next > sec.end {
            sec.end
        } else if next <= addr {
            addr + 1
        } else {
            next
        };
        sym.push(addr as usize) + spec_code_scan(p, sec, capped)
    }
}

/// Whether `a` is a boundary of this section: its start or end, an
/// address the code scan emits, a string start, or a stride multiple.
pub open spec fn spec_is_boundary(p: &Processor, sec: SectionView, a: usize) -> bool {
    if sec.bytes.len() == 0 {
        a == sec.start || a == sec.end
    } else if sec.kind == SectionKind::Code {
        a == sec.start || a == sec.end || spec_code_scan(p, sec, sec.start).contains(a)
    } else if sec.kind == SectionKind::CString {
        a == sec.start || a == sec.end || (exists|off: nat|
            #![trigger is_cstr_start(sec.bytes, off)]
            is_cstr_start(sec.bytes, off) && a == (sec.start + off) as usize)
    } else {
        a == sec.end || (sec.start <= a < sec.end && (a - sec.start) % (
        sec.kind.spec_stride() as int) == 0)
    }
}

/// Two stride-aligned addresses less than one stride apart coincide.
proof fn lemma_stride_unique(start: int, a: int, b: int, stride: int)
    requires
        stride >= 1,
        start <= b,
        start <= a,
        b <= a < b + stride,
        (a - start) % stride == 0,
        (b - start) % stride == 0,
    ensures
        a == b,
{
    let x = a - start;
    let y = b - start;
    assert(x == y) by (nonlinear_arith)
        requires
            x % stride == 0,
            y % stride == 0,
            0 <= y <= x < y + stride,
            stride >= 1,
    {
        assert(x == stride * (x / stride) + x % stride);
        assert(y == stride * (y / stride) + y % stride);
        assert(x / stride >= y / stride);
        assert(x / stride < y / stride + 1);
    }
}

/// Pushing keeps every element and adds the new one.
pub proof fn lemma_push_contains<T>(s: Seq<T>, x: T)
    ensures
        forall|y: T| #[trigger] s.push(x).contains(y) <==> (s.contains(y) || y == x),
{
    assert forall|y: T| #[trigger] s.push(x).contains(y) implies (s.contains(y) || y == x) by {
        let w = choose|w: int| 0 <= w < s.push(x).len() && s.push(x)[w] == y;
        if w < s.len() {
            assert(s[w] == y);
        }
    }
    assert forall|y: T| s.contains(y) || y == x implies #[trigger] s.push(x).contains(y) by {
        if s.contains(y) {
            let w = choose|w: int| 0 <= w < s.len() && s[w] == y;
            assert(s.push(x)[w] == y);
        } else {
            assert(s.push(x)[s.len() as int] == y);
        }
    }
}

impl Processor {
    /// The boundary addresses of one section, before the global sort:
    /// exactly `start` and `end` for a section without file-backed bytes;
    /// otherwise `start` and `end` around the per-kind boundaries, with
    /// every address kept inside the section's closed range. A code
    /// section's boundaries cover every symbol address in it (symbols
    /// never sit inside a decoded span, per `no_interior_symbols`); a C
    /// string section's cover every string start; a fixed-stride section
    /// is split exactly at its stride. The addresses emitted are exactly
    /// the boundaries of `spec_is_boundary`, nothing more, listed in
    /// non-decreasing order.
    pub fn compute_section_boundaries(&self, section: &Section) -> (r: Vec<usize>)
        requires
            self.wf(),
            self.no_interior_symbols(),
            section@.wf(),
        ensures
            forall|a: usize|
                #![trigger r@.contains(a)]
                #![trigger spec_is_boundary(self, section@, a)]
                r@.contains(a) <==> spec_is_boundary(self, section@, a),
            section@.bytes.len() == 0 ==> r@ == seq![section.start, section.end],
            forall|x: int, y: int| 0 <= x < y < r@.len() ==> r@[x] <= r@[y],
            forall|k: int|
                0 <= k < r@.len() ==> section@.start <= #[trigger] r@[k] <= section@.end,
            r@.contains(section.start) && r@.contains(section.end),
            section@.kind == SectionKind::Code && section@.bytes.len() > 0 ==> (forall|b: usize|
                section@.start <= b < section@.end && has_key(self.index@, b) ==> r@.contains(b)),
            section@.kind == SectionKind::CString && section@.bytes.len() > 0 ==> (forall|
                off: nat,
            |
                is_cstr_start(section@.bytes, off) ==> r@.contains((section@.start + off) as usize)),
            stride_kind(section@.kind) && section@.bytes.len() > 0 ==> (forall|a: usize|
                section@.start <= a < section@.end && (a - section@.start) % (
                section@.kind.spec_stride() as int) == 0 ==> r@.contains(a)),
    {
        let mut boundaries: Vec<usize> = Vec::new();
        if section.bytes.is_empty() {
            boundaries.push(section.start);
            boundaries.push(section.end);
            proof {
                assert(boundaries@ =~= seq![section.start, section.end]);
                assert(boundaries@[0] == section.start);
                assert(boundaries@[1] == section.end);
                assert(boundaries@.contains(section.start));
                assert(boundaries@.contains(section.end));
                assert forall|a: usize| #[trigger] boundaries@.contains(a) implies (a
                    == section.start || a == section.end) by {
                    let w = choose|w: int| 0 <= w < boundaries@.len() && boundaries@[w] == a;
                }
            }
            return boundaries;
        }
        boundaries.push(section.start);
        proof {
            assert(boundaries@[0] == section.start);
            assert(boundaries@.contains(section.start));
        }
        let ghost head = boundaries@;
        match section.kind {
            SectionKind::Code => {
                self.code_boundaries(section, &mut boundaries);
            },
            SectionKind::CString => {
                self.cstring_boundaries(section, &mut boundaries);
            },
            _ => {
                self.stride_boundaries(section, &mut boundaries);
            },
        }
        let ghost mid = boundaries@;
        boundaries.push(section.end);
        proof {
            lemma_push_contains(mid, section.end);
            assert(boundaries@.contains(section.end));
            assert(boundaries@.contains(mid[0]));
            assert forall|x: int, y: int|
                0 <= x < y < boundaries@.len() implies boundaries@[x] <= boundaries@[y] by {
                if y == boundaries@.len() - 1 {
                    assert(boundaries@[y] == section.end);
                    if x > 0 {
                        assert(boundaries@[x] == mid[x]);
                        assert(head.len() <= x < mid.len());
                        assert(mid[x] < section@.end);
                    }
                } else {
                    assert(boundaries@[x] == mid[x] && boundaries@[y] == mid[y]);
                    if x == 0 {
                        assert(mid[x] == section.start);
                        assert(section@.start <= mid[y]);
                    } else {
                        assert(head.len() <= x < y < mid.len());
                    }
                }
            }
            // membership in the emitted run is exactly the boundary rule
            assert forall|a: usize| #[trigger] boundaries@.contains(a) implies spec_is_boundary(
                self,
                section@,
                a,
            ) by {
                if a != section.end {
                    assert(mid.contains(a));
                    let w = choose|w: int| 0 <= w < mid.len() && mid[w] == a;
                    if w == 0 {
                        assert(a == section.start);
                    } else {
                        assert(mid.subrange(0, head.len() as int) == head);
                        assert(mid[w] == mid.skip(1)[w - 1]);
                        if section.kind == SectionKind::Code {
                            assert(mid =~= head + spec_code_scan(self, section@, section@.start));
                            assert(spec_code_scan(self, section@, section@.start)[w - 1] == a);
                            assert(spec_code_scan(self, section@, section@.start).contains(a));
                        }
                    }
                }
            }
            assert forall|a: usize| spec_is_boundary(self, section@, a) implies #[trigger] boundaries@.contains(a) by {
                if a == section.start {
                    assert(boundaries@.contains(mid[0]));
                } else if a == section.end {
                } else if section.kind == SectionKind::Code {
                    assert(mid =~= head + spec_code_scan(self, section@, section@.start));
                    let scan = spec_code_scan(self, section@, section@.start);
                    let w = choose|w: int| 0 <= w < scan.len() && scan[w] == a;
                    assert(mid[head.len() + w] == a);
                    assert(mid.contains(a));
                } else if section.kind == SectionKind::CString {
                    let off = choose|off: nat|
                        #![trigger is_cstr_start(section@.bytes, off)]
                        is_cstr_start(section@.bytes, off) && a == (section@.start + off) as usize;
                    assert(mid.contains(a));
                } else {
                    assert(mid.contains(a));
                }
            }
        }
        boundaries
    }

    /// Splits a fixed-stride section at every stride from its start.
    #[verifier::rlimit(60)]
    fn stride_boundaries(&self, section: &Section, boundaries: &mut Vec<usize>)
        requires
            section@.wf(),
            stride_kind(section@.kind),
        ensures
            old(boundaries)@.len() <= final(boundaries)@.len(),
            final(boundaries)@.subrange(0, old(boundaries)@.len() as int) == old(boundaries)@,
            forall|k: int|
                old(boundaries)@.len() <= k < final(boundaries)@.len() ==> section@.start <= (
                #[trigger] final(boundaries)@[k]) < section@.end && ((#[trigger] final(boundaries)@[k]) - section@.start) % (section@.kind.spec_stride() as int) == 0,
            forall|x: int, y: int|
                old(boundaries)@.len() <= x < y < final(boundaries)@.len() ==> final(boundaries)@[x]
                    <= final(boundaries)@[y],
            forall|a: usize|
                section@.start <= a < section@.end && (a - section@.start) % (
                section@.kind.spec_stride() as int) == 0 ==> final(boundaries)@.contains(a),
    {
        let stride = section.kind.stride();
        let mut addr = section.start;
        let ghost orig = boundaries@;
        while addr < section.end
            invariant
                section@.wf(),
                1 <= stride <= 256,
                stride == section@.kind.spec_stride(),
                section@.start <= addr,
                addr <= section@.end + 256,
                (addr - section@.start) % (stride as int) == 0,
                orig.len() <= boundaries@.len(),
                boundaries@.subrange(0, orig.len() as int) == orig,
                forall|k: int|
                    orig.len() <= k < boundaries@.len() ==> section@.start <= (
                    #[trigger] boundaries@[k]) < section@.end && ((#[trigger] boundaries@[k])
                        - section@.start) % (stride as int) == 0,
                forall|k: int| orig.len() <= k < boundaries@.len() ==> boundaries@[k] < addr,
                forall|x: int, y: int|
                    orig.len() <= x < y < boundaries@.len() ==> boundaries@[x] <= boundaries@[y],
                forall|a: usize|
                    section@.start <= a < addr && (a - section@.start) % (stride as int) == 0
                        ==> boundaries@.contains(a),
            decreases section@.end + 256 - addr,
        {
            let ghost pre = boundaries@;
            boundaries.push(addr);
            addr = addr + stride;
            proof {
                assert forall|x: int, y: int|
                    orig.len() <= x < y < boundaries@.len() implies boundaries@[x]
                    <= boundaries@[y] by {
                    if y == pre.len() {
                        assert(boundaries@[x] == pre[x] && pre[x] < addr - stride);
                    }
                }
                lemma_push_contains(pre, (addr - stride) as usize);
                assert(boundaries@ =~= pre.push((addr - stride) as usize));
                assert(boundaries@.subrange(0, orig.len() as int) =~= pre.subrange(
                    0,
                    orig.len() as int,
                ));
                assert(boundaries@.contains((addr - stride) as usize));
                assert forall|a: usize|
                    section@.start <= a < addr && (a - section@.start) % (stride as int)
                        == 0 implies boundaries@.contains(a) by {
                    if a < addr - stride {
                        assert(pre.contains(a));
                    } else {
                        // between the last boundary and the new cursor only
                        // the last boundary itself is aligned
                        lemma_stride_unique(
                            section@.start as int,
                            a as int,
                            addr - stride,
                            stride as int,
                        );
                    }
                }
            }
        }
    }

    /// Splits a C string section at the start of every NUL-terminated,
    /// non-empty string.
    #[verifier::rlimit(100)]
    #[verifier::spinoff_prover]
    fn cstring_boundaries(&self, section: &Section, boundaries: &mut Vec<usize>)
        requires
            section@.wf(),
        ensures
            old(boundaries)@.len() <= final(boundaries)@.len(),
            final(boundaries)@.subrange(0, old(boundaries)@.len() as int) == old(boundaries)@,
            forall|k: int|
                old(boundaries)@.len() <= k < final(boundaries)@.len() ==> section@.start <= (
                #[trigger] final(boundaries)@[k]) < section@.end && (exists|off: nat|
                    #![trigger is_cstr_start(section@.bytes, off)]
                    is_cstr_start(section@.bytes, off) && (#[trigger] final(boundaries)@[k]) == (
                    section@.start + off) as usize),
            forall|x: int, y: int|
                old(boundaries)@.len() <= x < y < final(boundaries)@.len() ==> final(boundaries)@[x]
                    <= final(boundaries)@[y],
            forall|off: nat|
                is_cstr_start(section@.bytes, off) ==> final(boundaries)@.contains(
                    (section@.start + off) as usize,
                ),
    {
        let ghost orig = boundaries@;
        let mut start_off: usize = 0;
        let mut idx: usize = 0;
        let len = section.bytes.len();
        while idx < len
            invariant
                section@.wf(),
                len == section@.bytes.len(),
                start_off <= idx <= len,
                start_off == 0 || section@.bytes[start_off as int - 1] == 0,
                forall|k: int| start_off <= k < idx ==> section@.bytes[k] != 0,
                orig.len() <= boundaries@.len(),
                boundaries@.subrange(0, orig.len() as int) == orig,
                forall|k: int|
                    orig.len() <= k < boundaries@.len() ==> section@.start <= (
                    #[trigger] boundaries@[k]) < section@.end && (exists|off: nat|
                        #![trigger is_cstr_start(section@.bytes, off)]
                        is_cstr_start(section@.bytes, off) && (#[trigger] boundaries@[k]) == (
                        section@.start + off) as usize),
                forall|k: int|
                    orig.len() <= k < boundaries@.len() ==> boundaries@[k] < section@.start
                        + start_off,
                forall|x: int, y: int|
                    orig.len() <= x < y < boundaries@.len() ==> boundaries@[x] <= boundaries@[y],
                forall|off: nat|
                    #![trigger section@.bytes[off as int]]
                    off < idx && section@.bytes[off as int] != 0 && (off == 0
                        || section@.bytes[off as int - 1] == 0) && (exists|j: int|
                        #![trigger section@.bytes[j]]
                        off < j < idx && section@.bytes[j] == 0) ==> boundaries@.contains(
                        (section@.start + off) as usize,
                    ),
            decreases len - idx,
        {
            let ghost prev_idx = idx as int;
            let ghost prev_start = start_off as int;
            let ghost pre_bounds = boundaries@;
            let byte = section.bytes[idx];
            if byte == 0 {
                if idx != start_off {
                    let ghost pre = boundaries@;
                    boundaries.push(section.start + start_off);
                    proof {
                        lemma_push_contains(pre, (section.start + start_off) as usize);
                        assert(boundaries@.subrange(0, orig.len() as int) =~= pre.subrange(
                            0,
                            orig.len() as int,
                        ));
                        assert(boundaries@.contains((section.start + start_off) as usize));
                        assert(start_off < len);
                        assert(len == section@.end - section@.start);
                        assert(section@.bytes[start_off as int] != 0);
                        assert(is_cstr_start(section@.bytes, start_off as nat)) by {
                            assert(section@.bytes[idx as int] == 0);
                        }
                        assert forall|x: int, y: int|
                            orig.len() <= x < y < boundaries@.len() implies boundaries@[x]
                            <= boundaries@[y] by {
                            if y == pre.len() {
                                assert(boundaries@[x] == pre[x]);
                                assert(pre[x] < section@.start + start_off);
                            }
                        }
                        assert forall|k: int|
                            orig.len() <= k < boundaries@.len() implies section@.start <= (
                        #[trigger] boundaries@[k]) < section@.end && (exists|off: nat|
                            #![trigger is_cstr_start(section@.bytes, off)]
                            is_cstr_start(section@.bytes, off) && (#[trigger] boundaries@[k]) == (
                            section@.start + off) as usize) by {
                            if k < pre.len() {
                                assert(boundaries@[k] == pre[k]);
                            } else {
                                assert(boundaries@[k] == (section.start + start_off) as usize);
                                assert(is_cstr_start(section@.bytes, start_off as nat) && boundaries@[k] == (
                                section@.start + start_off as nat) as usize);
                            }
                        }
                    }
                }
                start_off = idx + 1;
            }
            idx = idx + 1;
            proof {
                assert forall|y: usize| pre_bounds.contains(y) implies boundaries@.contains(
                    y,
                ) by {
                    let w = choose|w: int| 0 <= w < pre_bounds.len() && pre_bounds[w] == y;
                    assert(boundaries@[w] == y);
                }
                assert forall|off: nat|
                    #![trigger section@.bytes[off as int]]
                    off < idx && section@.bytes[off as int] != 0 && (off == 0
                        || section@.bytes[off as int - 1] == 0) && (exists|j: int|
                        #![trigger section@.bytes[j]]
                        off < j < idx && section@.bytes[j] == 0) implies boundaries@.contains(
                    (section@.start + off) as usize,
                ) by {
                    let j = choose|j: int|
                        #![trigger section@.bytes[j]]
                        off < j < idx && section@.bytes[j] == 0;
                    if j < prev_idx {
                        assert(off < prev_idx);
                        assert(pre_bounds.contains((section@.start + off) as usize));
                    } else {
                        // the byte just scanned is the terminating NUL
                        assert(j == prev_idx);
                        assert(section@.bytes[prev_idx] == 0);
                        if off == prev_start {
                            assert(boundaries@.contains((section@.start + off) as usize));
                        } else if off < prev_start {
                            // the previous run's terminator lies between
                            assert(prev_start > 0);
                            assert(section@.bytes[prev_start - 1] == 0);
                            assert(off != prev_start - 1);
                            assert(pre_bounds.contains((section@.start + off) as usize));
                        } else {
                            // strictly inside a NUL-free run: no string starts here
                            assert(section@.bytes[off as int - 1] != 0);
                            assert(false);
                        }
                    }
                }
            }
        }
        proof {
            assert forall|off: nat|
                is_cstr_start(section@.bytes, off) implies boundaries@.contains(
                (section@.start + off) as usize,
            ) by {
                let j = choose|j: int|
                    #![trigger section@.bytes[j]]
                    off < j < section@.bytes.len() && section@.bytes[j] == 0;
            }
        }
    }

    /// Scans a code section: a boundary at every address the symbol index
    /// names, at every decoded instruction or decode error the scan
    /// reaches, and at the start of every raw-byte run between them —
    /// exactly the addresses of `spec_code_scan`.
    fn code_boundaries(&self, section: &Section, boundaries: &mut Vec<usize>)
        requires
            self.wf(),
            self.no_interior_symbols(),
            section@.wf(),
        ensures
            final(boundaries)@ == old(boundaries)@ + spec_code_scan(
                self,
                section@,
                section@.start,
            ),
            old(boundaries)@.len() <= final(boundaries)@.len(),
            final(boundaries)@.subrange(0, old(boundaries)@.len() as int) == old(boundaries)@,
            forall|k: int|
                old(boundaries)@.len() <= k < final(boundaries)@.len() ==> section@.start <= (
                #[trigger] final(boundaries)@[k]) < section@.end,
            forall|x: int, y: int|
                old(boundaries)@.len() <= x < y < final(boundaries)@.len() ==> final(boundaries)@[x]
                    <= final(boundaries)@[y],
            forall|b: usize|
                section@.start <= b < section@.end && has_key(self.index@, b) ==> final(boundaries)@.contains(b),
    {
        let ghost orig = boundaries@;
        let mut addr = section.start;
        proof {
            assert(boundaries@.skip(orig.len() as int) =~= Seq::<usize>::empty());
        }
        while addr < section.end
            invariant
                self.wf(),
                self.no_interior_symbols(),
                section@.wf(),
                section@.start <= addr,
                addr <= section@.end + 256,
                orig.len() <= boundaries@.len(),
                boundaries@.subrange(0, orig.len() as int) == orig,
                boundaries@.skip(orig.len() as int) + spec_code_scan(
                    self,
                    section@,
                    if addr >= section@.end {
                        section@.end
                    } else {
                        addr as nat
                    },
                ) == spec_code_scan(self, section@, section@.start),
                forall|k: int|
                    orig.len() <= k < boundaries@.len() ==> section@.start <= (
                    #[trigger] boundaries@[k]) < section@.end,
                forall|k: int| orig.len() <= k < boundaries@.len() ==> boundaries@[k] < addr,
                forall|x: int, y: int|
                    orig.len() <= x < y < boundaries@.len() ==> boundaries@[x] <= boundaries@[y],
                forall|b: usize|
                    section@.start <= b < addr && b < section@.end && has_key(self.index@, b)
                        ==> boundaries@.contains(b),
            decreases section@.end + 256 - addr,
        {
            let ghost pre = boundaries@;
            let ghost cursor = addr as nat;
            let has_sym = match self.index.get_by_addr(addr) {
                Some(_) => true,
                None => false,
            };
            if has_sym {
                boundaries.push(addr);
            }
            let ghost with_sym = boundaries@;
            proof {
                if has_sym {
                    assert(with_sym =~= pre.push(addr));
                    lemma_push_contains(pre, addr);
                }
                assert(with_sym.subrange(0, orig.len() as int) =~= orig);
            }
            let inst_width: Option<usize> = match self.instruction_by_addr(addr) {
                Some(inst) => Some(inst.width),
                None => None,
            };
            if let Some(width) = inst_width {
                proof {
                    lemma_assoc_member(self.inst_view(), addr);
                }
                boundaries.push(addr);
                proof {
                    lemma_push_contains(with_sym, addr);
                    assert(boundaries@ =~= with_sym.push(addr));
                    assert(boundaries@.subrange(0, orig.len() as int) =~= orig);
                    assert(boundaries@.contains(addr));
                    assert forall|x: int, y: int|
                        orig.len() <= x < y < boundaries@.len() implies boundaries@[x]
                        <= boundaries@[y] by {
                        if y >= pre.len() {
                            assert(boundaries@[y] == cursor as usize);
                            if x < pre.len() {
                                assert(boundaries@[x] == pre[x] && pre[x] < cursor as usize);
                            } else {
                                assert(boundaries@[x] == cursor as usize);
                            }
                        }
                    }
                }
                addr = addr + width;
                proof {
                    lemma_no_interior_helper_inst(self, (addr - width) as usize, width);
                    let full = spec_code_scan(self, section@, section@.start);
                    let sym_part: Seq<usize> = if has_sym {
                        seq![cursor as usize]
                    } else {
                        Seq::<usize>::empty()
                    };
                    let cap: nat = if addr >= section@.end {
                        section@.end
                    } else {
                        addr as nat
                    };
                    assert(spec_code_scan(self, section@, cursor) =~= sym_part.push(
                        cursor as usize,
                    ) + spec_code_scan(self, section@, cap));
                    assert(boundaries@.skip(orig.len() as int) =~= pre.skip(orig.len() as int)
                        + sym_part.push(cursor as usize));
                    assert(boundaries@.skip(orig.len() as int) + spec_code_scan(
                        self,
                        section@,
                        cap,
                    ) =~= full);
                    assert forall|b: usize|
                        section@.start <= b < addr && b < section@.end && has_key(
                            self.index@,
                            b,
                        ) implies boundaries@.contains(b) by {
                        if b < addr - width {
                            assert(pre.contains(b));
                        } else if b == addr - width {
                            assert(boundaries@.contains((addr - width) as usize));
                        }
                    }
                }
            } else {
                let err_size: Option<usize> = match self.error_by_addr(addr) {
                    Some(err) => Some(err.size),
                    None => None,
                };
                if let Some(size) = err_size {
                    proof {
                        lemma_assoc_member(self.err_view(), addr);
                    }
                    boundaries.push(addr);
                    proof {
                        lemma_push_contains(with_sym, addr);
                        assert(boundaries@ =~= with_sym.push(addr));
                        assert(boundaries@.subrange(0, orig.len() as int) =~= orig);
                        assert(boundaries@.contains(addr));
                        assert forall|x: int, y: int|
                        orig.len() <= x < y < boundaries@.len() implies boundaries@[x]
                        <= boundaries@[y] by {
                        if y >= pre.len() {
                            assert(boundaries@[y] == cursor as usize);
                            if x < pre.len() {
                                assert(boundaries@[x] == pre[x] && pre[x] < cursor as usize);
                            } else {
                                assert(boundaries@[x] == cursor as usize);
                            }
                        }
                    }
                    }
                    addr = addr + size;
                    proof {
                        lemma_no_interior_helper_err(self, (addr - size) as usize, size);
                        let full = spec_code_scan(self, section@, section@.start);
                    let sym_part: Seq<usize> = if has_sym {
                        seq![cursor as usize]
                    } else {
                        Seq::<usize>::empty()
                    };
                    let cap: nat = if addr >= section@.end {
                        section@.end
                    } else {
                        addr as nat
                    };
                    assert(spec_code_scan(self, section@, cursor) =~= sym_part.push(
                        cursor as usize,
                    ) + spec_code_scan(self, section@, cap));
                    assert(boundaries@.skip(orig.len() as int) =~= pre.skip(orig.len() as int)
                        + sym_part.push(cursor as usize));
                    assert(boundaries@.skip(orig.len() as int) + spec_code_scan(
                        self,
                        section@,
                        cap,
                    ) =~= full);
                        assert forall|b: usize|
                            section@.start <= b < addr && b < section@.end && has_key(
                                self.index@,
                                b,
                            ) implies boundaries@.contains(b) by {
                            if b < addr - size {
                                assert(pre.contains(b));
                            } else if b == addr - size {
                                assert(boundaries@.contains((addr - size) as usize));
                            }
                        }
                    }
                } else {
                    // a raw-byte run: scan forward to the next decodable
                    // address or labeled byte
                    proof {
                        assert(spec_raw_run_end(self, section@, cursor, cursor)
                            == spec_raw_run_end(self, section@, cursor, cursor + 1));
                    }
                    let mut baddr = addr + 1;
                    loop
                        invariant_except_break
                            self.wf(),
                            addr < baddr <= section@.end,
                            addr < section@.end,
                            spec_raw_run_end(self, section@, addr as nat, addr as nat)
                                == spec_raw_run_end(self, section@, addr as nat, baddr as nat),
                            forall|b: usize|
                                addr < b < baddr ==> !has_key(self.index@, b),
                        ensures
                            addr < baddr <= section@.end,
                            baddr == spec_raw_run_end(self, section@, addr as nat, addr as nat),
                            forall|b: usize| addr < b < baddr ==> !has_key(self.index@, b),
                        decreases section@.end - baddr,
                    {
                        if baddr >= section.end {
                            break ;
                        }
                        let stop = match self.instruction_by_addr(baddr) {
                            Some(_) => true,
                            None => match self.error_by_addr(baddr) {
                                Some(_) => true,
                                None => match self.index.get_by_addr(baddr) {
                                    Some(_) => true,
                                    None => false,
                                },
                            },
                        };
                        if stop {
                            break ;
                        }
                        proof {
                            assert(!has_key(self.index@, baddr));
                        }
                        baddr = baddr + 1;
                    }
                    boundaries.push(addr);
                    proof {
                        lemma_push_contains(with_sym, addr);
                        assert(boundaries@ =~= with_sym.push(addr));
                        assert(boundaries@.subrange(0, orig.len() as int) =~= orig);
                        assert(boundaries@.contains(addr));
                        assert forall|x: int, y: int|
                        orig.len() <= x < y < boundaries@.len() implies boundaries@[x]
                        <= boundaries@[y] by {
                        if y >= pre.len() {
                            assert(boundaries@[y] == cursor as usize);
                            if x < pre.len() {
                                assert(boundaries@[x] == pre[x] && pre[x] < cursor as usize);
                            } else {
                                assert(boundaries@[x] == cursor as usize);
                            }
                        }
                    }
                    }
                    let ghost old_addr = addr;
                    addr = baddr;
                    proof {
                        lemma_raw_run_le(self, section@, cursor, cursor);
                        let full = spec_code_scan(self, section@, section@.start);
                    let sym_part: Seq<usize> = if has_sym {
                        seq![cursor as usize]
                    } else {
                        Seq::<usize>::empty()
                    };
                    let cap: nat = if addr >= section@.end {
                        section@.end
                    } else {
                        addr as nat
                    };
                    assert(spec_code_scan(self, section@, cursor) =~= sym_part.push(
                        cursor as usize,
                    ) + spec_code_scan(self, section@, cap));
                    assert(boundaries@.skip(orig.len() as int) =~= pre.skip(orig.len() as int)
                        + sym_part.push(cursor as usize));
                    assert(boundaries@.skip(orig.len() as int) + spec_code_scan(
                        self,
                        section@,
                        cap,
                    ) =~= full);
                        assert forall|b: usize|
                            section@.start <= b < addr && b < section@.end && has_key(
                                self.index@,
                                b,
                            ) implies boundaries@.contains(b) by {
                            if b < old_addr {
                                assert(pre.contains(b));
                            } else if b == old_addr {
                                assert(boundaries@.contains(old_addr));
                            }
                        }
                    }
                }
            }
        }
        proof {
            assert(spec_code_scan(self, section@, section@.end) =~= Seq::<usize>::empty());
            assert(boundaries@.skip(orig.len() as int) + Seq::<usize>::empty()
                =~= boundaries@.skip(orig.len() as int));
            assert(final(boundaries)@ =~= old(boundaries)@ + spec_code_scan(
                self,
                section@,
                section@.start,
            ));
        }
    }
}

/// Inside a decoded instruction's span there are no symbols.
proof fn lemma_no_interior_helper_inst(p: &Processor, start: usize, width: usize)
    requires
        p.no_interior_symbols(),
        spec_assoc(p.inst_view(), start) is Some,
        spec_assoc(p.inst_view(), start)->0.width == width,
    ensures
        forall|b: usize| start < b < start + width ==> !has_key(p.index@, b),
{
    lemma_assoc_member(p.inst_view(), start);
    let i = choose|i: int|
        #![trigger p.inst_view()[i]]
        0 <= i < p.inst_view().len() && p.inst_view()[i].0 == start && p.inst_view()[i].1
            == spec_assoc(p.inst_view(), start)->0;
    assert forall|b: usize| start < b < start + width implies !has_key(p.index@, b) by {
        assert(p.inst_view()[i].0 < b < p.inst_view()[i].0 + p.inst_view()[i].1.width);
    }
}

/// Inside a decode error's span there are no symbols.
proof fn lemma_no_interior_helper_err(p: &Processor, start: usize, size: usize)
    requires
        p.no_interior_symbols(),
        spec_assoc(p.err_view(), start) is Some,
        spec_assoc(p.err_view(), start)->0.size == size,
    ensures
        forall|b: usize| start < b < start + size ==> !has_key(p.index@, b),
{
    lemma_assoc_member(p.err_view(), start);
    let i = choose|i: int|
        #![trigger p.err_view()[i]]
        0 <= i < p.err_view().len() && p.err_view()[i].0 == start && p.err_view()[i].1
            == spec_assoc(p.err_view(), start)->0;
    assert forall|b: usize| start < b < start + size implies !has_key(p.index@, b) by {
        assert(p.err_view()[i].0 < b < p.err_view()[i].0 + p.err_view()[i].1.size);
    }
}

/// Appending one section's exact boundaries to an exact prefix keeps the
/// membership exact over one more section.
proof fn lemma_merge_membership(p: &Processor, all_pre: Seq<usize>, chunk: Seq<usize>, i: int)
    requires
        0 < i <= p.sections_view().len(),
        forall|a: usize|
            #![trigger all_pre.contains(a)]
            all_pre.contains(a) <==> (exists|j: int|
                #![trigger p.sections_view()[j]]
                0 <= j < i - 1 && spec_is_boundary(p, p.sections_view()[j], a)),
        forall|a: usize|
            #![trigger chunk.contains(a)]
            chunk.contains(a) <==> spec_is_boundary(p, p.sections_view()[i - 1], a),
    ensures
        forall|a: usize|
            #![trigger (all_pre + chunk).contains(a)]
            (all_pre + chunk).contains(a) <==> (exists|j: int|
                #![trigger p.sections_view()[j]]
                0 <= j < i && spec_is_boundary(p, p.sections_view()[j], a)),
{
    lemma_append_contains(all_pre, chunk);
    assert forall|a: usize| #[trigger] (all_pre + chunk).contains(a) implies (exists|j: int|
        #![trigger p.sections_view()[j]]
        0 <= j < i && spec_is_boundary(p, p.sections_view()[j], a)) by {
        if all_pre.contains(a) {
            let j = choose|j: int|
                #![trigger p.sections_view()[j]]
                0 <= j < i - 1 && spec_is_boundary(p, p.sections_view()[j], a);
            assert(0 <= j < i && spec_is_boundary(p, p.sections_view()[j], a));
        } else {
            assert(chunk.contains(a));
            assert(spec_is_boundary(p, p.sections_view()[i - 1], a));
        }
    }
    assert forall|a: usize|
        (exists|j: int|
            #![trigger p.sections_view()[j]]
            0 <= j < i && spec_is_boundary(p, p.sections_view()[j], a)) implies #[trigger] (all_pre
        + chunk).contains(a) by {
        let j = choose|j: int|
            #![trigger p.sections_view()[j]]
            0 <= j < i && spec_is_boundary(p, p.sections_view()[j], a);
        if j < i - 1 {
            assert(all_pre.contains(a));
        } else {
            assert(chunk.contains(a));
        }
    }
}

/// Concatenation holds exactly the elements of both parts.
proof fn lemma_append_contains<T>(a: Seq<T>, b: Seq<T>)
    ensures
        forall|y: T| #[trigger] (a + b).contains(y) <==> (a.contains(y) || b.contains(y)),
{
    assert forall|y: T| #[trigger] (a + b).contains(y) implies (a.contains(y) || b.contains(
        y,
    )) by {
        let w = choose|w: int| 0 <= w < (a + b).len() && (a + b)[w] == y;
        if w < a.len() {
            assert(a[w] == y);
        } else {
            assert(b[w - a.len()] == y);
        }
    }
    assert forall|y: T| a.contains(y) || b.contains(y) implies #[trigger] (a + b).contains(y) by {
        if a.contains(y) {
            let w = choose|w: int| 0 <= w < a.len() && a[w] == y;
            assert((a + b)[w] == y);
        } else {
            let w = choose|w: int| 0 <= w < b.len() && b[w] == y;
            assert((a + b)[w + a.len()] == y);
        }
    }
}

proof fn lemma_take_contains_step<T>(s: Seq<T>, i: int)
    requires
        0 <= i < s.len(),
    ensures
        forall|y: T|
            #[trigger] s.take(i + 1).contains(y) <==> (s.take(i).contains(y) || s[i] == y),
{
    assert forall|y: T| #[trigger] s.take(i + 1).contains(y) implies (s.take(i).contains(y) || s[i]
        == y) by {
        let w = choose|w: int| #![trigger s.take(i + 1)[w]] 0 <= w < i + 1 && s.take(i + 1)[w] == y;
        if w < i {
            assert(s.take(i)[w] == y);
        }
    }
    assert forall|y: T| s.take(i).contains(y) || s[i] == y implies #[trigger] s.take(
        i + 1,
    ).contains(y) by {
        if s.take(i).contains(y) {
            let w = choose|w: int| #![trigger s.take(i)[w]] 0 <= w < i && s.take(i)[w] == y;
            assert(s.take(i + 1)[w] == y);
        } else {
            assert(s.take(i + 1)[i] == y);
        }
    }
}

/// Sorts the addresses and drops duplicates: the result strictly
/// increases and holds exactly the input's elements.
fn sort_dedup(input: &Vec<usize>) -> (r: Vec<usize>)
    ensures
        forall|i: int, j: int| 0 <= i < j < r@.len() ==> r@[i] < r@[j],
        forall|a: usize| r@.contains(a) <==> input@.contains(a),
{
    let n = input.len();
    let mut out: Vec<usize> = Vec::new();
    let mut i: usize = 0;
    proof {
        assert(input@.take(0) =~= Seq::<usize>::empty());
    }
    while i < n
        invariant
            i <= n,
            n == input@.len(),
            forall|x: int, y: int| 0 <= x < y < out@.len() ==> out@[x] < out@[y],
            forall|a: usize| out@.contains(a) <==> input@.take(i as int).contains(a),
        decreases n - i,
    {
        let ghost out_pre = out@;
        let addr = input[i];
        let mut found = false;
        let mut j: usize = 0;
        while j < out.len()
            invariant
                j <= out@.len(),
                out@ == out_pre,
                found <==> exists|k: int| 0 <= k < j && out@[k] == addr,
            decreases out@.len() - j,
        {
            if out[j] == addr {
                found = true;
                proof {
                    assert(out@[j as int] == addr);
                }
            }
            j = j + 1;
        }
        if !found {
            proof {
                assert(!out_pre.contains(addr));
            }
            let mut pos: usize = 0;
            while pos < out.len() && out[pos] < addr
                invariant
                    pos <= out@.len(),
                    out@ == out_pre,
                    forall|k: int| 0 <= k < pos ==> out@[k] < addr,
                decreases out@.len() - pos,
            {
                pos = pos + 1;
            }
            proof {
                assert forall|k: int| pos <= k < out_pre.len() implies out_pre[k] > addr by {
                    if out_pre[k] == addr {
                        assert(out_pre.contains(addr));
                    }
                    if k > pos {
                        assert(out_pre[pos as int] <= out_pre[k]);
                    }
                }
            }
            out.insert(pos, addr);
            proof {
                out_pre.insert_ensures(pos as int, addr);
                assert(out@ =~= out_pre.insert(pos as int, addr));
                let out_now = out@;
                assert forall|a: usize| #[trigger] out_now.contains(a) implies (out_pre.contains(a)
                    || a == addr) by {
                    let k = choose|k: int| 0 <= k < out_now.len() && out_now[k] == a;
                    if k < pos {
                        assert(out_pre[k] == a);
                    } else if k > pos {
                        assert(out_pre[k - 1] == a);
                    }
                }
                assert forall|a: usize| out_pre.contains(a) implies #[trigger] out_now.contains(
                    a,
                ) by {
                    let k = choose|k: int| 0 <= k < out_pre.len() && out_pre[k] == a;
                    if k < pos {
                        assert(out_now[k] == a);
                    } else {
                        assert(out_now[k + 1] == a);
                    }
                }
                assert(out_now[pos as int] == addr);
                assert(out_now.contains(addr));
                assert forall|x: int, y: int| 0 <= x < y < out_now.len() implies out_now[x]
                    < out_now[y] by {
                    if x < pos {
                        assert(out_now[x] == out_pre[x]);
                    }
                    if y < pos {
                        assert(out_now[y] == out_pre[y]);
                    }
                    if x > pos {
                        assert(out_now[x] == out_pre[x - 1]);
                    }
                    if y > pos {
                        assert(out_now[y] == out_pre[y - 1]);
                    }
                }
            }
        }
        i = i + 1;
        proof {
            lemma_take_contains_step(input@, i as int - 1);
            if found {
                assert(out_pre.contains(addr));
            }
        }
    }
    proof {
        assert(input@.take(n as int) =~= input@);
    }
    out
}

/// Whether `a` is a boundary of some cataloged section.
pub open spec fn spec_boundary_somewhere(p: &Processor, a: usize) -> bool {
    exists|j: int|
        #![trigger p.sections_view()[j]]
        0 <= j < p.sections_view().len() && spec_is_boundary(p, p.sections_view()[j], a)
}

/// Whether some cataloged section's closed range holds `a`.
pub open spec fn covered_boundary(p: &Processor, a: usize) -> bool {
    exists|j: int|
        #![trigger p.sections_view()[j]]
        0 <= j < p.sections_view().len() && p.sections_view()[j].start <= a
            <= p.sections_view()[j].end
}

impl Processor {
    /// The block boundaries of the whole image: every section's
    /// boundaries, concatenated, sorted and deduplicated. The result
    /// strictly increases; it holds the start and the end of every
    /// cataloged section and nothing outside their ranges; every symbol
    /// address inside a code section, every string start of a C string
    /// section, and every stride multiple of a fixed-stride section
    /// appears in it.
    #[verifier::rlimit(100)]
    #[verifier::spinoff_prover]
    pub fn compute_block_boundaries(&self) -> (r: Vec<usize>)
        requires
            self.wf(),
            self.no_interior_symbols(),
        ensures
            forall|i: int, j: int| 0 <= i < j < r@.len() ==> r@[i] < r@[j],
            forall|a: usize|
                #![trigger r@.contains(a)]
                #![trigger spec_boundary_somewhere(self, a)]
                r@.contains(a) <==> spec_boundary_somewhere(self, a),
            forall|k: int| 0 <= k < r@.len() ==> covered_boundary(self, #[trigger] r@[k]),
            forall|j: int|
                0 <= j < self.sections_view().len() ==> r@.contains(
                    (#[trigger] self.sections_view()[j]).start as usize,
                ) && r@.contains(self.sections_view()[j].end as usize),
            forall|j: int, b: usize|
                #![trigger self.sections_view()[j], has_key(self.index@, b)]
                0 <= j < self.sections_view().len() && self.sections_view()[j].kind
                    == SectionKind::Code && self.sections_view()[j].bytes.len() > 0
                    && self.sections_view()[j].start <= b < self.sections_view()[j].end && has_key(
                    self.index@,
                    b,
                ) ==> r@.contains(b),
            forall|j: int, off: nat|
                #![trigger is_cstr_start(self.sections_view()[j].bytes, off)]
                0 <= j < self.sections_view().len() && self.sections_view()[j].kind
                    == SectionKind::CString && is_cstr_start(self.sections_view()[j].bytes, off)
                    ==> r@.contains((self.sections_view()[j].start + off) as usize),
            forall|j: int, a: usize|
                #![trigger (a - self.sections_view()[j].start) % (self.sections_view()[j].kind.spec_stride() as int)]
                0 <= j < self.sections_view().len() && stride_kind(self.sections_view()[j].kind)
                    && self.sections_view()[j].bytes.len() > 0 && self.sections_view()[j].start <= a
                    < self.sections_view()[j].end && (a - self.sections_view()[j].start) % (
                self.sections_view()[j].kind.spec_stride() as int) == 0 ==> r@.contains(a),
    {
        let mut all: Vec<usize> = Vec::new();
        let mut i: usize = 0;
        while i < self.sections.len()
            invariant
                self.wf(),
                self.no_interior_symbols(),
                i <= self.sections@.len(),
                forall|a: usize|
                    #![trigger all@.contains(a)]
                    all@.contains(a) <==> (exists|j: int|
                        #![trigger self.sections_view()[j]]
                        0 <= j < i && spec_is_boundary(self, self.sections_view()[j], a)),
                forall|k: int| 0 <= k < all@.len() ==> covered_boundary(self, #[trigger] all@[k]),
                forall|j: int|
                    0 <= j < i ==> all@.contains(
                        (#[trigger] self.sections_view()[j]).start as usize,
                    ) && all@.contains(self.sections_view()[j].end as usize),
                forall|j: int, b: usize|
                    #![trigger self.sections_view()[j], has_key(self.index@, b)]
                    0 <= j < i && self.sections_view()[j].kind == SectionKind::Code
                        && self.sections_view()[j].bytes.len() > 0 && self.sections_view()[j].start
                        <= b < self.sections_view()[j].end && has_key(self.index@, b)
                        ==> all@.contains(b),
                forall|j: int, off: nat|
                    #![trigger is_cstr_start(self.sections_view()[j].bytes, off)]
                    0 <= j < i && self.sections_view()[j].kind == SectionKind::CString
                        && is_cstr_start(self.sections_view()[j].bytes, off) ==> all@.contains(
                        (self.sections_view()[j].start + off) as usize,
                    ),
                forall|j: int, a: usize|
                    #![trigger (a - self.sections_view()[j].start) % (self.sections_view()[j].kind.spec_stride() as int)]
                    0 <= j < i && stride_kind(self.sections_view()[j].kind)
                        && self.sections_view()[j].bytes.len() > 0 && self.sections_view()[j].start
                        <= a < self.sections_view()[j].end && (a - self.sections_view()[j].start)
                        % (self.sections_view()[j].kind.spec_stride() as int) == 0
                        ==> all@.contains(a),
            decreases self.sections@.len() - i,
        {
            let section = &self.sections[i];
            proof {
                assert(section@ == self.sections_view()[i as int]);
                assert(section@.wf());
            }
            let mut chunk = self.compute_section_boundaries(section);
            let ghost chunk_view = chunk@;
            let ghost all_pre = all@;
            all.append(&mut chunk);
            i = i + 1;
            proof {
                lemma_append_contains(all_pre, chunk_view);
                assert(all@ == all_pre + chunk_view);
                let sv = self.sections_view()[i as int - 1];
                assert(chunk_view.contains(sv.start as usize));
                assert(chunk_view.contains(sv.end as usize));
                // nonempty cstring sections give string starts; an empty
                // one has no string starts at all
                if sv.kind == SectionKind::CString && sv.bytes.len() == 0 {
                    assert forall|off: nat| !is_cstr_start(sv.bytes, off) by {}
                }
                lemma_merge_membership(self, all_pre, chunk_view, i as int);
                assert forall|k: int| 0 <= k < all@.len() implies covered_boundary(
                    self,
                    #[trigger] all@[k],
                ) by {
                    if k >= all_pre.len() {
                        assert(all@[k] == chunk_view[k - all_pre.len()]);
                        assert(sv.start <= all@[k] <= sv.end);
                    }
                }
            }
        }
        let r = sort_dedup(&all);
        proof {
            assert forall|k: int| 0 <= k < r@.len() implies covered_boundary(
                self,
                #[trigger] r@[k],
            ) by {
                assert(r@.contains(r@[k]));
                assert(all@.contains(r@[k]));
                let w = choose|w: int| 0 <= w < all@.len() && all@[w] == r@[k];
            }
            assert forall|a: usize| #[trigger] r@.contains(a) <==> spec_boundary_somewhere(
                self,
                a,
            ) by {
                assert(r@.contains(a) <==> all@.contains(a));
            }
        }
        r
    }
}


/// The boundary set determines the boundary sequence: two strictly
/// increasing sequences with the same members are the same sequence. So
/// `compute_block_boundaries` is deterministic — its result depends only
/// on the per-section boundary sets, not on the order the sections'
/// independent computations were merged in.
pub proof fn lemma_sorted_members_unique(a: Seq<usize>, b: Seq<usize>)
    requires
        forall|i: int, j: int| 0 <= i < j < a.len() ==> a[i] < a[j],
        forall|i: int, j: int| 0 <= i < j < b.len() ==> b[i] < b[j],
        forall|x: usize| #[trigger] a.contains(x) <==> #[trigger] b.contains(x),
    ensures
        a == b,
    decreases a.len(),
{
    if a.len() == 0 {
        if b.len() > 0 {
            assert(b.contains(b[0]));
            assert(a.contains(b[0]));
        }
        assert(a =~= b);
    } else {
        assert(a.contains(a[0]));
        assert(b.contains(a[0]));
        let k = choose|k: int| 0 <= k < b.len() && b[k] == a[0];
        assert(b.contains(b[0]));
        assert(a.contains(b[0]));
        let m = choose|m: int| 0 <= m < a.len() && a[m] == b[0];
        assert(b[0] <= b[k]) by {
            if k > 0 {
                assert(b[0] < b[k]);
            }
        }
        assert(a[0] <= a[m]) by {
            if m > 0 {
                assert(a[0] < a[m]);
            }
        }
        assert(a[0] == b[0]);
        let at = a.drop_first();
        let bt = b.drop_first();
        assert forall|i: int, j: int| 0 <= i < j < at.len() implies at[i] < at[j] by {
            assert(at[i] == a[i + 1] && at[j] == a[j + 1]);
        }
        assert forall|i: int, j: int| 0 <= i < j < bt.len() implies bt[i] < bt[j] by {
            assert(bt[i] == b[i + 1] && bt[j] == b[j + 1]);
        }
        assert forall|x: usize| #[trigger] at.contains(x) implies #[trigger] bt.contains(x) by {
            let w = choose|w: int| 0 <= w < at.len() && at[w] == x;
            assert(a[w + 1] == x);
            assert(a.contains(x));
            assert(b.contains(x));
            let v = choose|v: int| 0 <= v < b.len() && b[v] == x;
            assert(a[0] < a[w + 1]);
            assert(v != 0);
            assert(bt[v - 1] == x);
        }
        assert forall|x: usize| #[trigger] bt.contains(x) implies #[trigger] at.contains(x) by {
            let w = choose|w: int| 0 <= w < bt.len() && bt[w] == x;
            assert(b[w + 1] == x);
            assert(b.contains(x));
            assert(a.contains(x));
            let v = choose|v: int| 0 <= v < a.len() && a[v] == x;
            assert(b[0] < b[w + 1]);
            assert(v != 0);
            assert(at[v - 1] == x);
        }
        lemma_sorted_members_unique(at, bt);
        assert(a.len() == at.len() + 1 && b.len() == bt.len() + 1);
        assert forall|i: int| 0 <= i < a.len() implies a[i] == b[i] by {
            if i > 0 {
                assert(at[i - 1] == a[i] && bt[i - 1] == b[i]);
                assert(at[i - 1] == bt[i - 1]);
            }
        }
        assert(a =~= b);
    }
}
} // verus!
