//! The analysis state: the section catalog, the symbol index, and the
//! external instruction decoder's answers, held as data.
//!
//! The decoder itself is an external collaborator: it is queried, never
//! re-implemented. Its answers — a decoded instruction or a decode error,
//! each with a byte width — are handed in as sorted tables, and the
//! boundary analyzer and block classifier are verified over every table
//! that satisfies the invariant below.

use vstd::prelude::*;

verus! {

use crate::endian::Endianness;
use crate::sections::Section;
use crate::symbols::{has_key, sorted_strict, Index};
use crate::tokens::{Token, TokenView};

/// Decoded widths and scan strides stay below this, so a scan can step
/// past a section end without overflowing an address.
pub const MAX_DECODE_WIDTH: usize = 256;

/// One decoded instruction: its byte width and its rendered tokens.
#[derive(Debug)]
pub struct DecodedInstruction {
    pub width: usize,
    pub tokens: Vec<Token>,
}

pub struct DecodedInstructionView {
    pub width: usize,
    pub tokens: Seq<TokenView>,
}

impl View for DecodedInstruction {
    type V = DecodedInstructionView;

    open spec fn view(&self) -> DecodedInstructionView {
        DecodedInstructionView {
            width: self.width,
            tokens: Seq::new(self.tokens@.len(), |i: int| self.tokens@[i]@),
        }
    }
}

/// One decode failure: the decoder's error tag and the width it declares
/// for the undecodable run.
#[derive(Debug)]
pub struct DecodeError {
    pub kind: String,
    pub size: usize,
}

pub struct DecodeErrorView {
    pub kind: Seq<char>,
    pub size: usize,
}

impl View for DecodeError {
    type V = DecodeErrorView;

    open spec fn view(&self) -> DecodeErrorView {
        DecodeErrorView { kind: self.kind@, size: self.size }
    }
}

/// The first value associated with `addr` in an address-keyed table.
pub open spec fn spec_assoc<T>(s: Seq<(usize, T)>, addr: usize) -> Option<T>
    decreases s.len(),
{
    if s.len() == 0 {
        None
    } else if s[0].0 == addr {
        Some(s[0].1)
    } else {
        spec_assoc(s.drop_first(), addr)
    }
}

/// Keys strictly increase.
pub open spec fn keys_sorted<T>(s: Seq<(usize, T)>) -> bool {
    forall|i: int, j: int| 0 <= i < j < s.len() ==> s[i].0 < s[j].0
}

/// The analysis core's state over one image.
pub struct Processor {
    /// The section catalog: ordered, non-overlapping.
    pub sections: Vec<Section>,
    /// The symbol index, already built and sorted.
    pub index: Index,
    /// The decoder's successful answers, keyed by address.
    pub instructions: Vec<(usize, DecodedInstruction)>,
    /// The decoder's failures, keyed by address.
    pub errors: Vec<(usize, DecodeError)>,
    /// The image's declared byte order.
    pub endianness: Endianness,
    /// The widest instruction the decoder reported, in bytes.
    pub max_instruction_width: usize,
}

impl Processor {
    pub open spec fn inst_view(&self) -> Seq<(usize, DecodedInstructionView)> {
        Seq::new(self.instructions@.len(), |i: int| (self.instructions@[i].0, self.instructions@[i].1@))
    }

    pub open spec fn err_view(&self) -> Seq<(usize, DecodeErrorView)> {
        Seq::new(self.errors@.len(), |i: int| (self.errors@[i].0, self.errors@[i].1@))
    }

    pub open spec fn sections_view(&self) -> Seq<crate::sections::SectionView> {
        Seq::new(self.sections@.len(), |i: int| self.sections@[i]@)
    }

    /// The state invariant: well-formed, ordered, non-overlapping
    /// sections; strictly sorted decode tables whose widths are small and
    /// positive; a sorted index; a positive, small widest-instruction
    /// width.
    pub open spec fn wf(&self) -> bool {
        &&& (forall|i: int| 0 <= i < self.sections@.len() ==> (#[trigger] self.sections@[i]@).wf())
        &&& (forall|i: int, j: int|
            0 <= i < j < self.sections@.len() ==> (#[trigger] self.sections@[i]@).end <= (
            #[trigger] self.sections@[j]@).start)
        &&& keys_sorted(self.inst_view())
        &&& (forall|i: int|
            0 <= i < self.inst_view().len() ==> 1 <= (#[trigger] self.inst_view()[i].1).width
                <= MAX_DECODE_WIDTH)
        &&& keys_sorted(self.err_view())
        &&& (forall|i: int|
            0 <= i < self.err_view().len() ==> 1 <= (#[trigger] self.err_view()[i].1).size
                <= MAX_DECODE_WIDTH)
        &&& sorted_strict(self.index@)
        &&& 1 <= self.max_instruction_width <= MAX_DECODE_WIDTH
    }

    /// No symbol lies strictly inside a decoded instruction's or decode
    /// error's byte span: the decoder and the symbol table agree on where
    /// things start.
    pub open spec fn no_interior_symbols(&self) -> bool {
        &&& (forall|i: int, b: usize|
            #![trigger self.inst_view()[i], has_key(self.index@, b)]
            0 <= i < self.inst_view().len() && self.inst_view()[i].0 < b < self.inst_view()[i].0
                + self.inst_view()[i].1.width ==> !has_key(self.index@, b))
        &&& (forall|i: int, b: usize|
            #![trigger self.err_view()[i], has_key(self.index@, b)]
            0 <= i < self.err_view().len() && self.err_view()[i].0 < b < self.err_view()[i].0
                + self.err_view()[i].1.size ==> !has_key(self.index@, b))
    }

    /// The decoder's successful answer at `addr`, if any.
    pub fn instruction_by_addr(&self, addr: usize) -> (r: Option<&DecodedInstruction>)
        requires
            keys_sorted(self.inst_view()),
        ensures
            match r {
                Some(inst) => spec_assoc(self.inst_view(), addr) == Some(inst@),
                None => spec_assoc(self.inst_view(), addr) is None,
            },
    {
        let mut lo: usize = 0;
        let mut hi: usize = self.instructions.len();
        while lo < hi
            invariant
                lo <= hi <= self.instructions@.len(),
                keys_sorted(self.inst_view()),
                forall|i: int| 0 <= i < lo ==> self.inst_view()[i].0 < addr,
                forall|i: int| hi <= i < self.inst_view().len() ==> self.inst_view()[i].0 > addr,
            decreases hi - lo,
        {
            let mid = lo + (hi - lo) / 2;
            let key = self.instructions[mid].0;
            if key == addr {
                proof {
                    lemma_assoc_at(self.inst_view(), mid as int);
                }
                return Some(&self.instructions[mid].1);
            } else if key < addr {
                proof {
                    assert forall|i: int| 0 <= i < mid + 1 implies self.inst_view()[i].0 < addr by {
                        if i < mid {
                            assert(self.inst_view()[i].0 < self.inst_view()[mid as int].0);
                        }
                    }
                }
                lo = mid + 1;
            } else {
                proof {
                    assert forall|i: int|
                        mid <= i < self.inst_view().len() implies self.inst_view()[i].0 > addr by {
                        if i > mid {
                            assert(self.inst_view()[mid as int].0 < self.inst_view()[i].0);
                        }
                    }
                }
                hi = mid;
            }
        }
        proof {
            lemma_assoc_absent(self.inst_view(), addr);
        }
        None
    }

    /// The decoder's failure at `addr`, if any.
    pub fn error_by_addr(&self, addr: usize) -> (r: Option<&DecodeError>)
        requires
            keys_sorted(self.err_view()),
        ensures
            match r {
                Some(err) => spec_assoc(self.err_view(), addr) == Some(err@),
                None => spec_assoc(self.err_view(), addr) is None,
            },
    {
        let mut lo: usize = 0;
        let mut hi: usize = self.errors.len();
        while lo < hi
            invariant
                lo <= hi <= self.errors@.len(),
                keys_sorted(self.err_view()),
                forall|i: int| 0 <= i < lo ==> self.err_view()[i].0 < addr,
                forall|i: int| hi <= i < self.err_view().len() ==> self.err_view()[i].0 > addr,
            decreases hi - lo,
        {
            let mid = lo + (hi - lo) / 2;
            let key = self.errors[mid].0;
            if key == addr {
                proof {
                    lemma_assoc_at(self.err_view(), mid as int);
                }
                return Some(&self.errors[mid].1);
            } else if key < addr {
                proof {
                    assert forall|i: int| 0 <= i < mid + 1 implies self.err_view()[i].0 < addr by {
                        if i < mid {
                            assert(self.err_view()[i].0 < self.err_view()[mid as int].0);
                        }
                    }
                }
                lo = mid + 1;
            } else {
                proof {
                    assert forall|i: int|
                        mid <= i < self.err_view().len() implies self.err_view()[i].0 > addr by {
                        if i > mid {
                            assert(self.err_view()[mid as int].0 < self.err_view()[i].0);
                        }
                    }
                }
                hi = mid;
            }
        }
        proof {
            lemma_assoc_absent(self.err_view(), addr);
        }
        None
    }

    /// The first section properly containing `addr`.
    pub open spec fn spec_containing(s: Seq<crate::sections::SectionView>, addr: usize) -> Option<
        crate::sections::SectionView,
    >
        decreases s.len(),
    {
        if s.len() == 0 {
            None
        } else if s[0].start <= addr < s[0].end {
            Some(s[0])
        } else {
            Self::spec_containing(s.drop_first(), addr)
        }
    }

    /// The first section closing exactly at `addr`.
    pub open spec fn spec_closing(s: Seq<crate::sections::SectionView>, addr: usize) -> Option<
        crate::sections::SectionView,
    >
        decreases s.len(),
    {
        if s.len() == 0 {
            None
        } else if s[0].end == addr {
            Some(s[0])
        } else {
            Self::spec_closing(s.drop_first(), addr)
        }
    }

    /// The section a boundary address belongs to: the one properly
    /// containing it, or failing that the one closing exactly there.
    pub open spec fn spec_section_at(s: Seq<crate::sections::SectionView>, addr: usize) -> Option<
        crate::sections::SectionView,
    > {
        if Self::spec_containing(s, addr) is Some {
            Self::spec_containing(s, addr)
        } else {
            Self::spec_closing(s, addr)
        }
    }

    pub fn section_by_addr(&self, addr: usize) -> (r: Option<&Section>)
        ensures
            match r {
                Some(sec) => Self::spec_section_at(self.sections_view(), addr) == Some(sec@) && (
                sec@.start <= addr < sec@.end || addr == sec@.end) && exists|j: int|
                    0 <= j < self.sections_view().len() && #[trigger] self.sections_view()[j]
                        == sec@,
                None => Self::spec_section_at(self.sections_view(), addr) is None,
            },
    {
        let mut i: usize = 0;
        proof {
            assert(self.sections_view().skip(0) =~= self.sections_view());
        }
        while i < self.sections.len()
            invariant
                i <= self.sections@.len(),
                Self::spec_containing(self.sections_view(), addr) == Self::spec_containing(
                    self.sections_view().skip(i as int),
                    addr,
                ),
            decreases self.sections@.len() - i,
        {
            let sec = &self.sections[i];
            proof {
                assert(self.sections_view().skip(i as int)[0] == self.sections_view()[i as int]);
            }
            if sec.start <= addr && addr < sec.end {
                proof {
                    assert(self.sections_view()[i as int] == sec@);
                }
                return Some(sec);
            }
            i = i + 1;
            proof {
                assert(self.sections_view().skip(i as int - 1).drop_first()
                    =~= self.sections_view().skip(i as int));
            }
        }
        proof {
            assert(self.sections_view().skip(self.sections@.len() as int).len() == 0);
        }
        let mut j: usize = 0;
        proof {
            assert(self.sections_view().skip(0) =~= self.sections_view());
        }
        while j < self.sections.len()
            invariant
                j <= self.sections@.len(),
                Self::spec_containing(self.sections_view(), addr) is None,
                Self::spec_closing(self.sections_view(), addr) == Self::spec_closing(
                    self.sections_view().skip(j as int),
                    addr,
                ),
            decreases self.sections@.len() - j,
        {
            let sec = &self.sections[j];
            proof {
                assert(self.sections_view().skip(j as int)[0] == self.sections_view()[j as int]);
            }
            if sec.end == addr {
                proof {
                    assert(self.sections_view()[j as int] == sec@);
                }
                return Some(sec);
            }
            j = j + 1;
            proof {
                assert(self.sections_view().skip(j as int - 1).drop_first()
                    =~= self.sections_view().skip(j as int));
            }
        }
        proof {
            assert(self.sections_view().skip(self.sections@.len() as int).len() == 0);
        }
        None
    }

    /// A symbol at `addr`, suppressed at a section's own start so that a
    /// section symbol is not shown as a label over its section marker.
    pub fn get_symbol_by_addr(&self, addr: usize, section: &Section) -> (r: Option<
        &crate::symbols::Function,
    >)
        requires
            sorted_strict(self.index@),
        ensures
            match r {
                Some(f) => addr != section@.start && has_key(self.index@, addr) && f@
                    == crate::symbols::first_with(self.index@, addr).1,
                None => addr == section@.start || !has_key(self.index@, addr),
            },
    {
        if addr == section.start {
            return None;
        }
        self.index.get_by_addr(addr)
    }
}

/// A successful table lookup names one of the table's entries.
pub proof fn lemma_assoc_member<T>(s: Seq<(usize, T)>, addr: usize)
    requires
        spec_assoc(s, addr) is Some,
    ensures
        exists|i: int| #![trigger s[i]] 0 <= i < s.len() && s[i].0 == addr && s[i].1 == spec_assoc(
            s,
            addr,
        )->0,
    decreases s.len(),
{
    if s.len() > 0 {
        if s[0].0 == addr {
            assert(s[0].0 == addr && s[0].1 == spec_assoc(s, addr)->0);
        } else {
            lemma_assoc_member(s.drop_first(), addr);
            let i = choose|i: int|
                #![trigger s.drop_first()[i]]
                0 <= i < s.drop_first().len() && s.drop_first()[i].0 == addr && s.drop_first()[i].1
                    == spec_assoc(s.drop_first(), addr)->0;
            assert(s[i + 1] == s.drop_first()[i]);
        }
    }
}

proof fn lemma_assoc_at<T>(s: Seq<(usize, T)>, i: int)
    requires
        0 <= i < s.len(),
        forall|k: int| 0 <= k < i ==> s[k].0 != s[i].0,
    ensures
        spec_assoc(s, s[i].0) == Some(s[i].1),
    decreases i,
{
    if i == 0 {
    } else {
        assert(s[0].0 != s[i].0);
        assert forall|k: int| 0 <= k < i - 1 implies #[trigger] s.drop_first()[k].0
            != s.drop_first()[i - 1].0 by {
            assert(s.drop_first()[k] == s[k + 1]);
        }
        lemma_assoc_at(s.drop_first(), i - 1);
        assert(s.drop_first()[i - 1] == s[i]);
    }
}

proof fn lemma_assoc_absent<T>(s: Seq<(usize, T)>, addr: usize)
    requires
        forall|i: int| 0 <= i < s.len() ==> (#[trigger] s[i]).0 != addr,
    ensures
        spec_assoc(s, addr) is None,
    decreases s.len(),
{
    if s.len() > 0 {
        assert forall|i: int| 0 <= i < s.drop_first().len() implies (#[trigger] s.drop_first()[
            i
        ]).0 != addr by {
            assert(s.drop_first()[i] == s[i + 1]);
        }
        lemma_assoc_absent(s.drop_first(), addr);
    }
}


/// Where the raw-byte run starting at `start` ends, scanning from `b`:
/// at the section end, at the first address bearing a decoded
/// instruction or a decode error, or at the first address past the run's
/// start that the symbol index names.
pub open spec fn spec_raw_run_end(
    p: &Processor,
    sec: crate::sections::SectionView,
    start: nat,
    b: nat,
) -> nat
    decreases sec.end - b,
{
    if b >= sec.end {
        sec.end
    } else if spec_assoc(p.inst_view(), b as usize) is Some || spec_assoc(
        p.err_view(),
        b as usize,
    ) is Some {
        b
    } else if b > start && has_key(p.index@, b as usize) {
        b
    } else {
        spec_raw_run_end(p, sec, start, b + 1)
    }
}

/// A raw-byte run never ends before the scan cursor.
pub proof fn lemma_raw_run_past(p: &Processor, sec: crate::sections::SectionView, start: nat, b: nat)
    requires
        b <= sec.end,
    ensures
        spec_raw_run_end(p, sec, start, b) >= b,
    decreases sec.end - b,
{
    if b < sec.end && !(spec_assoc(p.inst_view(), b as usize) is Some) && !(spec_assoc(
        p.err_view(),
        b as usize,
    ) is Some) && !(b > start && has_key(p.index@, b as usize)) {
        lemma_raw_run_past(p, sec, start, b + 1);
    }
}

/// A raw-byte run never runs past the section end.
pub proof fn lemma_raw_run_le(p: &Processor, sec: crate::sections::SectionView, start: nat, b: nat)
    requires
        b <= sec.end,
    ensures
        spec_raw_run_end(p, sec, start, b) <= sec.end,
    decreases sec.end - b,
{
    if b < sec.end && !(spec_assoc(p.inst_view(), b as usize) is Some) && !(spec_assoc(
        p.err_view(),
        b as usize,
    ) is Some) && !(b > start && has_key(p.index@, b as usize)) {
        lemma_raw_run_le(p, sec, start, b + 1);
    }
}

} // verus!
