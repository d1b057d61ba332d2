//! Import resolution: walking PE import descriptors and ELF dynamic
//! relocations into `(address, name)` pairs for the symbol index.
//!
//! The raw tables come from the trusted readers in `image`; every address
//! computation and every skip decision here is verified against the layout
//! rules stated as spec functions.

use vstd::prelude::*;

verus! {

use vstd::utf8::{decode_utf8, valid_utf8};
use vstd::wrapping::{u32_specs, u64_specs};
use crate::endian::{read_value, spec_read_value, Endianness};
use crate::image::{
    descriptors_view,
    dyn_symbol_name_of,
    dynamic_relocations,
    dynamic_symbol_name,
    image_meta,
    lossy_string,
    lossy_text,
    meta_of,
    native_symbols,
    native_symbols_of,
    pe32_hint_name,
    pe32_import_descriptors,
    pe32_thunk_entries,
    pe64_hint_name,
    pe64_import_descriptors,
    pe64_thunk_entries,
    pe_descriptors_of,
    pe_hint_name_of,
    pe_thunks_of,
    raw_symbols_view,
    relocs_of,
    section_data,
    section_data_view,
    RawPeDescriptorView,
    sections_of,
    sections_view,
    SectionDataView,
    utf8_string,
    BinFormat,
    RawReloc,
    SectionData,
};
use crate::symbols::{ParseError, SchemeAttempts, SymbolRecord};
use crate::text::spec_strip_prefix;
use crate::tokens::{Color, Token, TokenView};

/// `R_X86_64` relocation kinds the resolver distinguishes.
pub const RELOC_COPY: u32 = 5;

pub const RELOC_GLOB_DAT: u32 = 6;

pub const RELOC_JUMP_SLOT: u32 = 7;

/// A `JUMP_SLOT` cell holds the address six bytes past the callee (the
/// PLT trampoline convention), so resolution backs up by this much.
pub const PLT_STUB_ADJUST: u64 = 6;

/// One resolved import: where it lives, what it is called, and the
/// module it came from.
#[derive(Debug)]
pub struct RawImport {
    pub addr: u64,
    pub name: String,
    pub module: Option<String>,
}

pub struct RawImportView {
    pub addr: u64,
    pub name: Seq<char>,
    pub module: Option<Seq<char>>,
}

impl View for RawImport {
    type V = RawImportView;

    open spec fn view(&self) -> RawImportView {
        RawImportView {
            addr: self.addr,
            name: self.name@,
            module: match self.module {
                Some(ref m) => Some(m@),
                None => None,
            },
        }
    }
}

/// One PE import thunk, reduced to its ordinal flag, hint, and decoded
/// name (`None` where the hint/name entry is unreadable or not UTF-8).
#[derive(Debug)]
pub struct PeThunkEntry {
    pub ordinal: bool,
    pub hint: u16,
    pub name: Option<String>,
}

pub struct PeThunkEntryView {
    pub ordinal: bool,
    pub hint: u16,
    pub name: Option<Seq<char>>,
}

impl View for PeThunkEntry {
    type V = PeThunkEntryView;

    open spec fn view(&self) -> PeThunkEntryView {
        PeThunkEntryView {
            ordinal: self.ordinal,
            hint: self.hint,
            name: match self.name {
                Some(ref n) => Some(n@),
                None => None,
            },
        }
    }
}

/// One PE import descriptor with its thunks decoded to plain values.
#[derive(Debug)]
pub struct PeDescriptorData {
    pub module: Option<String>,
    pub original_first_thunk: u32,
    pub first_thunk: u32,
    pub entries: Vec<PeThunkEntry>,
}

pub struct PeDescriptorDataView {
    pub module: Option<Seq<char>>,
    pub original_first_thunk: u32,
    pub first_thunk: u32,
    pub entries: Seq<PeThunkEntryView>,
}

impl View for PeDescriptorData {
    type V = PeDescriptorDataView;

    open spec fn view(&self) -> PeDescriptorDataView {
        PeDescriptorDataView {
            module: match self.module {
                Some(ref m) => Some(m@),
                None => None,
            },
            original_first_thunk: self.original_first_thunk,
            first_thunk: self.first_thunk,
            entries: Seq::new(self.entries@.len(), |i: int| self.entries@[i]@),
        }
    }
}

/// The import-address-table slot RVA of the `i`-th thunk: the descriptor's
/// `first_thunk` advanced by one slot width per entry, wrapping as the
/// 32-bit counter does.
pub open spec fn spec_slot_rva(first_thunk: u32, i: nat, stride: u32) -> u32
    decreases i,
{
    if i == 0 {
        first_thunk
    } else {
        u32_specs::wrapping_add(spec_slot_rva(first_thunk, (i - 1) as nat, stride), stride)
    }
}

/// The resolved physical address of one named import: on the hint path
/// the export-table hint plus the image base, on the bound path the
/// thunk-slot RVA plus the image base.
pub open spec fn spec_pe_addr(hint_path: bool, hint: u16, slot_rva: u32, base: u64) -> u64 {
    if hint_path {
        u64_specs::wrapping_add(hint as u64, base)
    } else {
        u64_specs::wrapping_add(slot_rva as u64, base)
    }
}

/// The module name shown for an import: the descriptor's module text
/// without a leading `.dll`.
pub open spec fn spec_pe_module(m: Option<Seq<char>>) -> Option<Seq<char>> {
    match m {
        Some(t) => Some(spec_strip_prefix(".dll"@, t)),
        None => None,
    }
}

/// The imports one descriptor resolves to, from entry `i` on: ordinal
/// entries and entries without a readable name are skipped, the rest get
/// the address of `spec_pe_addr`.
pub open spec fn spec_pe_imports(
    d: PeDescriptorDataView,
    i: nat,
    hint_path: bool,
    stride: u32,
    base: u64,
) -> Seq<RawImportView>
    decreases d.entries.len() - i,
{
    if i >= d.entries.len() {
        Seq::empty()
    } else {
        let e = d.entries[i as int];
        let rest = spec_pe_imports(d, i + 1, hint_path, stride, base);
        if !e.ordinal && e.name is Some {
            seq![
                RawImportView {
                    addr: spec_pe_addr(hint_path, e.hint, spec_slot_rva(d.first_thunk, i, stride), base),
                    name: e.name->0,
                    module: spec_pe_module(d.module),
                },
            ] + rest
        } else {
            rest
        }
    }
}

/// Which thunk list a descriptor is walked by: `first_thunk`, unless it
/// is zero, in which case the original (unbound) list; the hint path is
/// taken exactly when the walked list is the original one.
pub open spec fn spec_pe_hint_path(d: PeDescriptorDataView) -> bool {
    (if d.first_thunk == 0 {
        d.original_first_thunk
    } else {
        d.first_thunk
    }) == d.original_first_thunk
}

/// Resolves the named imports of one PE descriptor: hint-path entries to
/// `hint + base`, bound-path entries to `slot RVA + base`, skipping
/// ordinal imports and unreadable names.
pub fn resolve_pe_descriptor(d: &PeDescriptorData, bits64: bool, base: u64) -> (r: Vec<RawImport>)
    ensures
        Seq::new(r@.len(), |i: int| r@[i]@) == spec_pe_imports(
            d@,
            0,
            spec_pe_hint_path(d@),
            if bits64 {
                8u32
            } else {
                4u32
            },
            base,
        ),
{
    let thunk = if d.first_thunk == 0 {
        d.original_first_thunk
    } else {
        d.first_thunk
    };
    let hint_path = thunk == d.original_first_thunk;
    let stride: u32 = if bits64 {
        8
    } else {
        4
    };
    let module: Option<String> = match &d.module {
        Some(m) => Some(crate::text::strip_prefix(m.as_str(), ".dll")),
        None => None,
    };
    let ghost module_view = spec_pe_module(d@.module);
    let mut out: Vec<RawImport> = Vec::new();
    let mut slot: u32 = d.first_thunk;
    let mut i: usize = 0;
    while i < d.entries.len()
        invariant
            i <= d.entries@.len(),
            slot == spec_slot_rva(d@.first_thunk, i as nat, stride),
            hint_path == spec_pe_hint_path(d@),
            stride == if bits64 {
                8u32
            } else {
                4u32
            },
            module_view == spec_pe_module(d@.module),
            match module {
                Some(ref m) => m@ == module_view->0 && module_view is Some,
                None => module_view is None,
            },
            Seq::new(out@.len(), |k: int| out@[k]@) + spec_pe_imports(
                d@,
                i as nat,
                hint_path,
                stride,
                base,
            ) == spec_pe_imports(d@, 0, hint_path, stride, base),
        decreases d.entries@.len() - i,
    {
        let entry = &d.entries[i];
        proof {
            assert(d@.entries[i as int] == d.entries@[i as int]@);
        }
        let ghost out_pre = Seq::new(out@.len(), |k: int| out@[k]@);
        if !entry.ordinal {
            if let Some(name) = &entry.name {
                let addr = if hint_path {
                    (entry.hint as u64).wrapping_add(base)
                } else {
                    (slot as u64).wrapping_add(base)
                };
                let record = RawImport {
                    addr,
                    name: name.clone(),
                    module: match &module {
                        Some(m) => Some(m.clone()),
                        None => None,
                    },
                };
                let ghost rv = record@;
                out.push(record);
                proof {
                    let e = d@.entries[i as int];
                    assert(rv.name == e.name->0);
                    assert(rv.module == spec_pe_module(d@.module));
                    assert(rv.addr == spec_pe_addr(
                        hint_path,
                        e.hint,
                        spec_slot_rva(d@.first_thunk, i as nat, stride),
                        base,
                    ));
                    assert(spec_pe_imports(d@, i as nat, hint_path, stride, base) =~= seq![rv]
                        + spec_pe_imports(d@, i as nat + 1, hint_path, stride, base));
                    assert(Seq::new(out@.len(), |k: int| out@[k]@) =~= out_pre.push(rv));
                    assert(out_pre.push(rv) + spec_pe_imports(
                        d@,
                        i as nat + 1,
                        hint_path,
                        stride,
                        base,
                    ) =~= out_pre + spec_pe_imports(d@, i as nat, hint_path, stride, base));
                }
            }
        }
        slot = slot.wrapping_add(stride);
        i = i + 1;
    }
    proof {
        assert(spec_pe_imports(d@, d.entries@.len() as nat, spec_pe_hint_path(d@), stride, base)
            =~= Seq::<RawImportView>::empty());
        assert(Seq::new(out@.len(), |k: int| out@[k]@) + Seq::<RawImportView>::empty()
            =~= Seq::new(out@.len(), |k: int| out@[k]@));
    }
    out
}

/// The first section whose address range contains `offset`.
pub open spec fn spec_find_section(s: Seq<SectionDataView>, offset: u64) -> Option<SectionDataView>
    decreases s.len(),
{
    if s.len() == 0 {
        None
    } else if s[0].address <= offset < s[0].address + s[0].size {
        Some(s[0])
    } else {
        spec_find_section(s.drop_first(), offset)
    }
}

/// What one ELF dynamic relocation resolves to. A relocation whose
/// offset no section contains is skipped outright; within its section,
/// `Absolute`, `GLOB_DAT` and `COPY` point at the patched offset itself,
/// `JUMP_SLOT` reads the pointer stored at that offset and backs up past
/// the PLT stub, and anything else is skipped, as is a `JUMP_SLOT` whose
/// cell is not backed by file data.
pub open spec fn spec_resolve_reloc(
    reloc: RawReloc,
    sections: Seq<SectionDataView>,
    bits64: bool,
    little: bool,
) -> Option<u64> {
    match spec_find_section(sections, reloc.offset) {
        None => None,
        Some(sec) => {
            if reloc.absolute || reloc.elf_kind == Some(RELOC_GLOB_DAT) || reloc.elf_kind == Some(
                RELOC_COPY,
            ) {
                Some(reloc.offset)
            } else if reloc.elf_kind == Some(RELOC_JUMP_SLOT) {
                let width: nat = if bits64 {
                    8
                } else {
                    4
                };
                match sec.data {
                    Some(data) => {
                        let off = reloc.offset - sec.address;
                        if off + width <= data.len() {
                            let cell = spec_read_value(
                                data.subrange(off as int, off + width),
                                if little {
                                    Endianness::Little
                                } else {
                                    Endianness::Big
                                },
                            );
                            Some(
                                (if cell >= PLT_STUB_ADJUST {
                                    cell - PLT_STUB_ADJUST
                                } else {
                                    0
                                }) as u64,
                            )
                        } else {
                            None
                        }
                    },
                    None => None,
                }
            } else {
                None
            }
        },
    }
}

/// Resolves one ELF dynamic relocation to the address its target symbol
/// lives at.
pub fn resolve_elf_reloc(
    reloc: &RawReloc,
    sections: &Vec<SectionData>,
    bits64: bool,
    little: bool,
) -> (r: Option<u64>)
    ensures
        r == spec_resolve_reloc(*reloc, sections_view(sections@), bits64, little),
{
    let width: usize = if bits64 {
        8
    } else {
        4
    };
    let endianness = if little {
        Endianness::Little
    } else {
        Endianness::Big
    };
    let mut i: usize = 0;
    proof {
        assert(sections_view(sections@).skip(0) =~= sections_view(sections@));
    }
    while i < sections.len()
        invariant
            i <= sections@.len(),
            width == (if bits64 {
                8usize
            } else {
                4usize
            }),
            endianness == (if little {
                Endianness::Little
            } else {
                Endianness::Big
            }),
            spec_find_section(sections_view(sections@), reloc.offset) == spec_find_section(
                sections_view(sections@).skip(i as int),
                reloc.offset,
            ),
        decreases sections@.len() - i,
    {
        let sec = &sections[i];
        let contains = sec.address <= reloc.offset && reloc.offset - sec.address < sec.size;
        proof {
            let sv = sections_view(sections@).skip(i as int);
            assert(sv[0] == section_data_view(sections@[i as int]));
        }
        if contains {
            proof {
                let sv = sections_view(sections@).skip(i as int);
                assert(sv[0].address <= reloc.offset < sv[0].address + sv[0].size);
                assert(spec_find_section(sections_view(sections@), reloc.offset) == Some(
                    section_data_view(sections@[i as int]),
                ));
            }
            let is_direct = reloc.absolute || reloc.elf_kind == Some(RELOC_GLOB_DAT)
                || reloc.elf_kind == Some(RELOC_COPY);
            if is_direct {
                return Some(reloc.offset);
            }
            if reloc.elf_kind != Some(RELOC_JUMP_SLOT) {
                return None;
            }
            let data = match &sec.data {
                Some(d) => d,
                None => {
                    return None;
                },
            };
            let off64 = reloc.offset - sec.address;
            let len = data.len();
            if off64 >= len as u64 || (len as u64) - off64 < width as u64 {
                return None;
            }
            let off = off64 as usize;
            let cell = read_value(data.as_slice(), off, width, endianness);
            proof {
                assert(data@.subrange(off as int, off + width) == section_data_view(
                    sections@[i as int],
                ).data->0.subrange(off64 as int, off64 + width));
            }
            return Some(cell.saturating_sub(PLT_STUB_ADJUST));
        }
        i = i + 1;
        proof {
            assert(sections_view(sections@).skip(i as int - 1).drop_first()
                =~= sections_view(sections@).skip(i as int));
        }
    }
    proof {
        assert(sections_view(sections@).skip(sections@.len() as int).len() == 0);
    }
    None
}

pub open spec fn imports_view(s: Seq<RawImport>) -> Seq<RawImportView> {
    Seq::new(s.len(), |i: int| s[i]@)
}

/// What one raw thunk entry decodes to: ordinal entries carry nothing,
/// named entries their hint and, when the name bytes are valid UTF-8,
/// the decoded name.
pub open spec fn spec_pe_entry(bytes: Seq<u8>, bits64: bool, e: (bool, u32)) -> PeThunkEntryView {
    if e.0 {
        PeThunkEntryView { ordinal: true, hint: 0, name: None }
    } else {
        match pe_hint_name_of(bytes, bits64, e.1) {
            None => PeThunkEntryView { ordinal: false, hint: 0, name: None },
            Some(hn) => PeThunkEntryView {
                ordinal: false,
                hint: hn.0,
                name: if valid_utf8(hn.1) {
                    Some(decode_utf8(hn.1))
                } else {
                    None
                },
            },
        }
    }
}

pub open spec fn spec_pe_entries(bytes: Seq<u8>, bits64: bool, raw: Seq<(bool, u32)>) -> Seq<
    PeThunkEntryView,
> {
    Seq::new(raw.len(), |k: int| spec_pe_entry(bytes, bits64, raw[k]))
}

/// Which thunk list a descriptor is walked by.
pub open spec fn spec_pe_selected_thunk(d: RawPeDescriptorView) -> u32 {
    if d.first_thunk == 0 {
        d.original_first_thunk
    } else {
        d.first_thunk
    }
}

/// One descriptor with its thunks decoded, as the walk hands it to the
/// resolver.
pub open spec fn spec_pe_descriptor_data(
    bytes: Seq<u8>,
    bits64: bool,
    d: RawPeDescriptorView,
    raw: Seq<(bool, u32)>,
) -> PeDescriptorDataView {
    PeDescriptorDataView {
        module: match d.module {
            Some(mb) => Some(lossy_text(mb)),
            None => None,
        },
        original_first_thunk: d.original_first_thunk,
        first_thunk: d.first_thunk,
        entries: spec_pe_entries(bytes, bits64, raw),
    }
}

/// The imports the PE walk yields from descriptor `i` on: each
/// descriptor's resolved imports in order, `None` where a thunk list
/// cannot be walked (which aborts the whole resolution).
pub open spec fn spec_pe_walk(
    bytes: Seq<u8>,
    descs: Seq<RawPeDescriptorView>,
    bits64: bool,
    base: u64,
    i: int,
) -> Option<Seq<RawImportView>>
    decreases descs.len() - i,
{
    if i >= descs.len() {
        Some(Seq::empty())
    } else {
        match pe_thunks_of(bytes, bits64, spec_pe_selected_thunk(descs[i])) {
            None => None,
            Some(raw) => match spec_pe_walk(bytes, descs, bits64, base, i + 1) {
                None => None,
                Some(rest) => {
                    let data = spec_pe_descriptor_data(bytes, bits64, descs[i], raw);
                    Some(
                        spec_pe_imports(
                            data,
                            0,
                            spec_pe_hint_path(data),
                            if bits64 {
                                8u32
                            } else {
                                4u32
                            },
                            base,
                        ) + rest,
                    )
                },
            },
        }
    }
}

/// What resolving a PE image's imports yields, over the named reader
/// results alone.
pub open spec fn spec_collect_pe(bytes: Seq<u8>, bits64: bool, base: u64) -> Option<
    Seq<RawImportView>,
> {
    match pe_descriptors_of(bytes, bits64) {
        None => None,
        Some(ds) => spec_pe_walk(bytes, ds, bits64, base, 0),
    }
}

pub open spec fn spec_opt_prepend(pre: Seq<RawImportView>, o: Option<Seq<RawImportView>>) -> Option<
    Seq<RawImportView>,
> {
    match o {
        None => None,
        Some(r) => Some(pre + r),
    }
}

/// Walks the image's PE import descriptors through the trusted readers
/// and resolves each through `resolve_pe_descriptor`: exactly
/// `spec_collect_pe` of the image bytes.
pub fn collect_pe_imports(binary: &[u8], bits64: bool, base: u64) -> (r: Option<Vec<RawImport>>)
    ensures
        match r {
            Some(v) => spec_collect_pe(binary@, bits64, base) == Some(imports_view(v@)),
            None => spec_collect_pe(binary@, bits64, base) is None,
        },
{
    let descriptors = if bits64 {
        pe64_import_descriptors(binary)
    } else {
        pe32_import_descriptors(binary)
    };
    let descriptors = match descriptors {
        Some(d) => d,
        None => {
            return None;
        },
    };
    let ghost dsv = descriptors_view(descriptors@);
    let mut out: Vec<RawImport> = Vec::new();
    let mut i: usize = 0;
    proof {
        assert(imports_view(out@) =~= Seq::<RawImportView>::empty());
    }
    while i < descriptors.len()
        invariant
            i <= descriptors@.len(),
            dsv == descriptors_view(descriptors@),
            pe_descriptors_of(binary@, bits64) == Some(dsv),
            spec_pe_walk(binary@, dsv, bits64, base, 0) == spec_opt_prepend(
                imports_view(out@),
                spec_pe_walk(binary@, dsv, bits64, base, i as int),
            ),
        decreases descriptors@.len() - i,
    {
        let d = &descriptors[i];
        proof {
            assert(dsv[i as int] == d@);
        }
        let thunk = if d.first_thunk == 0 {
            d.original_first_thunk
        } else {
            d.first_thunk
        };
        let raw_entries = if bits64 {
            pe64_thunk_entries(binary, thunk)
        } else {
            pe32_thunk_entries(binary, thunk)
        };
        let raw_entries = match raw_entries {
            Some(e) => e,
            None => {
                proof {
                    assert(spec_pe_walk(binary@, dsv, bits64, base, i as int) is None);
                    assert(spec_pe_walk(binary@, dsv, bits64, base, 0) is None);
                }
                return None;
            },
        };
        let mut entries: Vec<PeThunkEntry> = Vec::new();
        let mut j: usize = 0;
        while j < raw_entries.len()
            invariant
                j <= raw_entries@.len(),
                entries@.len() == j,
                pe_thunks_of(binary@, bits64, thunk) == Some(raw_entries@),
                forall|k: int|
                    0 <= k < j ==> (#[trigger] entries@[k])@ == spec_pe_entry(
                        binary@,
                        bits64,
                        raw_entries@[k],
                    ),
            decreases raw_entries@.len() - j,
        {
            let (ordinal, address) = raw_entries[j];
            if ordinal {
                entries.push(PeThunkEntry { ordinal: true, hint: 0, name: None });
            } else {
                let hint_name = if bits64 {
                    pe64_hint_name(binary, address)
                } else {
                    pe32_hint_name(binary, address)
                };
                match hint_name {
                    Some((hint, bytes)) => {
                        let name = utf8_string(&bytes);
                        entries.push(PeThunkEntry { ordinal: false, hint, name });
                    },
                    None => {
                        entries.push(PeThunkEntry { ordinal: false, hint: 0, name: None });
                    },
                }
            }
            j = j + 1;
        }
        let module = match &d.module {
            Some(bytes) => Some(lossy_string(bytes)),
            None => None,
        };
        let data = PeDescriptorData {
            module,
            original_first_thunk: d.original_first_thunk,
            first_thunk: d.first_thunk,
            entries,
        };
        proof {
            assert(data@.entries =~= spec_pe_entries(binary@, bits64, raw_entries@));
            assert(data@ == spec_pe_descriptor_data(binary@, bits64, dsv[i as int], raw_entries@));
        }
        let mut resolved = resolve_pe_descriptor(&data, bits64, base);
        let ghost resolved_view = Seq::new(resolved@.len(), |k: int| resolved@[k]@);
        let ghost out_pre = imports_view(out@);
        out.append(&mut resolved);
        i = i + 1;
        proof {
            assert(imports_view(out@) =~= out_pre + resolved_view);
            let walk_prev = spec_pe_walk(binary@, dsv, bits64, base, i as int - 1);
            let walk_next = spec_pe_walk(binary@, dsv, bits64, base, i as int);
            match walk_next {
                None => {
                    assert(walk_prev is None);
                },
                Some(rest) => {
                    assert(walk_prev == Some(resolved_view + rest));
                    assert(out_pre + (resolved_view + rest) =~= (out_pre + resolved_view) + rest);
                },
            }
        }
    }
    proof {
        assert(spec_pe_walk(binary@, dsv, bits64, base, descriptors@.len() as int) == Some(
            Seq::<RawImportView>::empty(),
        ));
        assert(imports_view(out@) + Seq::<RawImportView>::empty() =~= imports_view(out@));
    }
    Some(out)
}

/// The imports the ELF walk yields from relocation `i` on: relocations
/// without a target symbol, without a containing section, with an
/// unreadable cell or with an unreadable name are skipped one by one.
pub open spec fn spec_elf_records(
    bytes: Seq<u8>,
    relocs: Seq<RawReloc>,
    sections: Seq<SectionDataView>,
    bits64: bool,
    little: bool,
    i: int,
) -> Seq<RawImportView>
    decreases relocs.len() - i,
{
    if i >= relocs.len() {
        Seq::empty()
    } else {
        let rest = spec_elf_records(bytes, relocs, sections, bits64, little, i + 1);
        match relocs[i].symbol {
            None => rest,
            Some(idx) => match spec_resolve_reloc(relocs[i], sections, bits64, little) {
                None => rest,
                Some(addr) => match dyn_symbol_name_of(bytes, idx) {
                    None => rest,
                    Some(n) => seq![RawImportView { addr, name: n, module: None }] + rest,
                },
            },
        }
    }
}

/// What resolving an ELF image's imports yields, over the named reader
/// results alone.
pub open spec fn spec_collect_elf(bytes: Seq<u8>, bits64: bool, little: bool) -> Option<
    Seq<RawImportView>,
> {
    match (relocs_of(bytes), sections_of(bytes)) {
        (Some(relocs), Some(sections)) => Some(
            spec_elf_records(bytes, relocs, sections, bits64, little, 0),
        ),
        _ => None,
    }
}

/// Walks the image's ELF dynamic relocations through the trusted readers
/// and resolves each through `resolve_elf_reloc`: exactly
/// `spec_collect_elf` of the image bytes.
pub fn collect_elf_imports(binary: &[u8], bits64: bool, little: bool) -> (r: Option<
    Vec<RawImport>,
>)
    ensures
        match r {
            Some(v) => spec_collect_elf(binary@, bits64, little) == Some(imports_view(v@)),
            None => spec_collect_elf(binary@, bits64, little) is None,
        },
{
    let relocs = match dynamic_relocations(binary) {
        Some(r) => r,
        None => {
            return None;
        },
    };
    let sections = match section_data(binary) {
        Some(s) => s,
        None => {
            return None;
        },
    };
    let ghost rv = relocs@;
    let ghost sv = sections_view(sections@);
    let mut out: Vec<RawImport> = Vec::new();
    let mut i: usize = 0;
    proof {
        assert(imports_view(out@) =~= Seq::<RawImportView>::empty());
        assert(imports_view(out@) + spec_elf_records(binary@, rv, sv, bits64, little, 0)
            =~= spec_elf_records(binary@, rv, sv, bits64, little, 0));
    }
    while i < relocs.len()
        invariant
            i <= relocs@.len(),
            rv == relocs@,
            sv == sections_view(sections@),
            imports_view(out@) + spec_elf_records(binary@, rv, sv, bits64, little, i as int)
                == spec_elf_records(binary@, rv, sv, bits64, little, 0),
        decreases relocs@.len() - i,
    {
        let reloc = &relocs[i];
        let ghost out_pre = imports_view(out@);
        if let Some(sym_index) = reloc.symbol {
            if let Some(addr) = resolve_elf_reloc(reloc, &sections, bits64, little) {
                if let Some(name) = dynamic_symbol_name(binary, sym_index) {
                    let ghost nv = name@;
                    out.push(RawImport { addr, name, module: None });
                    proof {
                        assert(imports_view(out@) =~= out_pre.push(
                            RawImportView { addr, name: nv, module: None },
                        ));
                        assert(out_pre.push(RawImportView { addr, name: nv, module: None })
                            + spec_elf_records(binary@, rv, sv, bits64, little, i as int + 1)
                            =~= out_pre + (seq![RawImportView { addr, name: nv, module: None }]
                            + spec_elf_records(binary@, rv, sv, bits64, little, i as int + 1)));
                    }
                }
            }
        }
        i = i + 1;
    }
    proof {
        assert(spec_elf_records(binary@, rv, sv, bits64, little, relocs@.len() as int)
            =~= Seq::<RawImportView>::empty());
        assert(imports_view(out@) + Seq::<RawImportView>::empty() =~= imports_view(out@));
    }
    Some(out)
}

/// What resolving an image's imports yields, over the named reader
/// results alone: nothing for an unparseable image; the PE or ELF walk
/// per the declared format; and — a recorded gap, not a guess — no
/// imports at all for a Mach-O or unrecognized image.
pub open spec fn spec_collect_imports(bytes: Seq<u8>) -> Option<Seq<RawImportView>> {
    match meta_of(bytes) {
        None => None,
        Some(meta) => match meta.format {
            BinFormat::Pe => spec_collect_pe(bytes, meta.bits64, meta.base),
            BinFormat::Elf => spec_collect_elf(bytes, meta.bits64, meta.little_endian),
            BinFormat::MachO => Some(Seq::empty()),
            BinFormat::Other => Some(Seq::empty()),
        },
    }
}

/// Resolves the image's imports, dispatching on its declared format and
/// bit width: exactly `spec_collect_imports` of the image bytes, with a
/// failed walk reported as one import-table error.
pub fn collect_imports(binary: &[u8]) -> (r: Result<Vec<RawImport>, ParseError>)
    ensures
        match spec_collect_imports(binary@) {
            Some(v) => r is Ok && imports_view(r->Ok_0@) == v,
            None => r == Err::<Vec<RawImport>, ParseError>(ParseError::ImportTable),
        },
{
    let meta = match image_meta(binary) {
        Some(m) => m,
        None => {
            return Err(ParseError::ImportTable);
        },
    };
    let imports = match meta.format {
        BinFormat::Pe => collect_pe_imports(binary, meta.bits64, meta.base),
        BinFormat::Elf => collect_elf_imports(binary, meta.bits64, meta.little_endian),
        BinFormat::MachO => Some(Vec::new()),
        BinFormat::Other => Some(Vec::new()),
    };
    proof {
        if meta.format == BinFormat::MachO || meta.format == BinFormat::Other {
            assert(imports_view(Seq::<RawImport>::empty()) =~= Seq::<RawImportView>::empty());
        }
    }
    match imports {
        Some(v) => {
            proof {
                if meta.format == BinFormat::MachO || meta.format == BinFormat::Other {
                    assert(imports_view(v@) =~= Seq::<RawImportView>::empty());
                }
            }
            Ok(v)
        },
        None => Err(ParseError::ImportTable),
    }
}

/// The named symbols among the raw pairs, unreadable names dropped.
pub open spec fn spec_filter_named(s: Seq<(u64, Option<Seq<char>>)>) -> Seq<(u64, Seq<char>)>
    decreases s.len(),
{
    if s.len() == 0 {
        Seq::empty()
    } else {
        let rest = spec_filter_named(s.drop_first());
        match s[0].1 {
            Some(n) => seq![(s[0].0, n)] + rest,
            None => rest,
        }
    }
}

/// Keeps the pairs whose name could be decoded, in order.
pub fn filter_named(syms: &Vec<(u64, Option<String>)>) -> (r: Vec<(u64, String)>)
    ensures
        Seq::new(r@.len(), |i: int| (r@[i].0, r@[i].1@)) == spec_filter_named(
            raw_symbols_view(syms@),
        ),
{
    let mut result: Vec<(u64, String)> = Vec::new();
    let mut j: usize = 0;
    proof {
        assert(raw_symbols_view(syms@).skip(0) =~= raw_symbols_view(syms@));
        assert(Seq::new(result@.len(), |k: int| (result@[k].0, result@[k].1@)) =~= Seq::<
            (u64, Seq<char>),
        >::empty());
    }
    while j < syms.len()
        invariant
            j <= syms@.len(),
            Seq::new(result@.len(), |k: int| (result@[k].0, result@[k].1@)) + spec_filter_named(
                raw_symbols_view(syms@).skip(j as int),
            ) == spec_filter_named(raw_symbols_view(syms@)),
        decreases syms@.len() - j,
    {
        let ghost pre = Seq::new(result@.len(), |k: int| (result@[k].0, result@[k].1@));
        proof {
            assert(raw_symbols_view(syms@).skip(j as int).drop_first() =~= raw_symbols_view(
                syms@,
            ).skip(j as int + 1));
        }
        if let Some(name) = &syms[j].1 {
            let addr = syms[j].0;
            let owned = name.clone();
            let ghost nv = owned@;
            result.push((addr, owned));
            proof {
                assert(Seq::new(result@.len(), |k: int| (result@[k].0, result@[k].1@)) =~= pre.push(
                    (addr, nv),
                ));
                assert(pre.push((addr, nv)) + spec_filter_named(
                    raw_symbols_view(syms@).skip(j as int + 1),
                ) =~= pre + spec_filter_named(raw_symbols_view(syms@).skip(j as int)));
            }
        }
        j = j + 1;
    }
    proof {
        assert(spec_filter_named(raw_symbols_view(syms@).skip(syms@.len() as int)) =~= Seq::<
            (u64, Seq<char>),
        >::empty());
        assert(Seq::new(result@.len(), |k: int| (result@[k].0, result@[k].1@))
            + Seq::<(u64, Seq<char>)>::empty() =~= Seq::new(
            result@.len(),
            |k: int| (result@[k].0, result@[k].1@),
        ));
    }
    result
}

/// What collecting the native symbols yields, over the named reader
/// result alone: the pairs whose name could be decoded.
pub open spec fn spec_collect_native(bytes: Seq<u8>) -> Option<Seq<(u64, Seq<char>)>> {
    match native_symbols_of(bytes) {
        None => None,
        Some(raw) => Some(spec_filter_named(raw)),
    }
}

/// Reads the image's native symbol table through the trusted reader and
/// keeps the pairs whose name could be decoded: exactly
/// `spec_collect_native` of the image bytes.
pub fn collect_native_symbols(binary: &[u8]) -> (r: Option<Vec<(u64, String)>>)
    ensures
        match r {
            Some(v) => spec_collect_native(binary@) == Some(
                Seq::new(v@.len(), |i: int| (v@[i].0, v@[i].1@)),
            ),
            None => spec_collect_native(binary@) is None,
        },
{
    match native_symbols(binary) {
        Some(syms) => Some(filter_named(&syms)),
        None => None,
    }
}

/// Turns a resolved import into a record for the index, with the module
/// colored as a root item. The address must fit the host's pointers.
pub fn import_record(import: &RawImport, attempts: SchemeAttempts) -> (r: SymbolRecord)
    requires
        import@.addr <= usize::MAX,
    ensures
        r@.addr == import@.addr,
        r@.name == import@.name,
        r@.attempts == attempts@,
        match import@.module {
            Some(m) => r@.module == Some(TokenView { text: m, color: Color::Purple }),
            None => r@.module is None,
        },
{
    SymbolRecord {
        addr: import.addr as usize,
        name: import.name.clone(),
        module: match &import.module {
            Some(m) => Some(Token::from_string(m.clone(), Color::Purple)),
            None => None,
        },
        attempts,
    }
}

} // verus!
