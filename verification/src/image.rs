//! Trusted readers over the `object` crate: each function makes one walk
//! over the parsed image and hands the findings back as plain values. All
//! decisions about those values are made by verified code elsewhere.

use vstd::prelude::*;

verus! {

use vstd::utf8::{decode_utf8, encode_utf8, valid_utf8};
use object::read::pe::{ImageThunkData, PeFile32, PeFile64};
use object::LittleEndian as LE;
use object::{Object, ObjectSection, ObjectSymbol, ObjectSymbolTable};

/// The binary container format of an image.
#[derive(Clone, Copy, Debug, PartialEq, Eq, Structural)]
pub enum BinFormat {
    Elf,
    Pe,
    MachO,
    Other,
}

/// What the image loader declares about an image.
#[derive(Clone, Copy, Debug)]
pub struct ImageMeta {
    pub format: BinFormat,
    pub bits64: bool,
    pub little_endian: bool,
    pub entry: u64,
    pub base: u64,
}

/// One dynamic relocation, reduced to plain values.
#[derive(Clone, Copy, Debug)]
pub struct RawReloc {
    /// The location the loader would patch.
    pub offset: u64,
    /// Whether the generic relocation kind is `Absolute`.
    pub absolute: bool,
    /// The raw ELF `r_type`, where the image is an ELF.
    pub elf_kind: Option<u32>,
    /// The dynamic-symbol index the relocation targets, if a symbol.
    pub symbol: Option<usize>,
}

/// One section's address range and file-backed data.
#[derive(Debug)]
pub struct SectionData {
    pub address: u64,
    pub size: u64,
    pub data: Option<Vec<u8>>,
}

/// One PE import descriptor, reduced to plain values.
#[derive(Debug)]
pub struct RawPeDescriptor {
    pub module: Option<Vec<u8>>,
    pub original_first_thunk: u32,
    pub first_thunk: u32,
}

/// The abstract value of one PE import descriptor.
pub struct RawPeDescriptorView {
    pub module: Option<Seq<u8>>,
    pub original_first_thunk: u32,
    pub first_thunk: u32,
}

impl View for RawPeDescriptor {
    type V = RawPeDescriptorView;

    open spec fn view(&self) -> RawPeDescriptorView {
        RawPeDescriptorView {
            module: match self.module {
                Some(ref m) => Some(m@),
                None => None,
            },
            original_first_thunk: self.original_first_thunk,
            first_thunk: self.first_thunk,
        }
    }
}

/// The abstract value of one section's range and file data.
pub struct SectionDataView {
    pub address: u64,
    pub size: u64,
    pub data: Option<Seq<u8>>,
}

pub open spec fn section_data_view(s: SectionData) -> SectionDataView {
    SectionDataView {
        address: s.address,
        size: s.size,
        data: match s.data {
            Some(ref d) => Some(d@),
            None => None,
        },
    }
}

pub open spec fn sections_view(s: Seq<SectionData>) -> Seq<SectionDataView> {
    Seq::new(s.len(), |i: int| section_data_view(s[i]))
}

pub open spec fn raw_symbols_view(s: Seq<(u64, Option<String>)>) -> Seq<(u64, Option<Seq<char>>)> {
    Seq::new(
        s.len(),
        |i: int|
            (
                s[i].0,
                match s[i].1 {
                    Some(ref n) => Some(n@),
                    None => None,
                },
            ),
    )
}

pub open spec fn descriptors_view(s: Seq<RawPeDescriptor>) -> Seq<RawPeDescriptorView> {
    Seq::new(s.len(), |i: int| s[i]@)
}

/// What the image header declares, as `object` reads it: a pure function
/// of the bytes alone (`None` where they do not parse).
pub uninterp spec fn meta_of(bytes: Seq<u8>) -> Option<ImageMeta>;

/// The native symbol table `object` reads: each symbol's address and
/// name, a pure function of the bytes alone.
pub uninterp spec fn native_symbols_of(bytes: Seq<u8>) -> Option<Seq<(u64, Option<Seq<char>>)>>;

/// The dynamic relocations `object` reads, reduced to plain values: a
/// pure function of the bytes alone.
pub uninterp spec fn relocs_of(bytes: Seq<u8>) -> Option<Seq<RawReloc>>;

/// The name of the dynamic symbol at `index`, as `object` reads it: a
/// pure function of the bytes and the index alone.
pub uninterp spec fn dyn_symbol_name_of(bytes: Seq<u8>, index: usize) -> Option<Seq<char>>;

/// The section ranges and file data `object` reads: a pure function of
/// the bytes alone.
pub uninterp spec fn sections_of(bytes: Seq<u8>) -> Option<Seq<SectionDataView>>;

/// The PE import descriptor table `object` walks at the given bit width:
/// a pure function of the bytes alone.
pub uninterp spec fn pe_descriptors_of(bytes: Seq<u8>, bits64: bool) -> Option<
    Seq<RawPeDescriptorView>,
>;

/// The thunk list `object` walks at a given RVA and bit width: a pure
/// function of the bytes alone.
pub uninterp spec fn pe_thunks_of(bytes: Seq<u8>, bits64: bool, thunk_rva: u32) -> Option<
    Seq<(bool, u32)>,
>;

/// The hint and name bytes `object` reads at a thunk's RVA: a pure
/// function of the bytes alone.
pub uninterp spec fn pe_hint_name_of(bytes: Seq<u8>, bits64: bool, rva: u32) -> Option<
    (u16, Seq<u8>),
>;

/// Relies on `object::File::parse` and the `Object` trait getters
/// (`format`, `is_64`, `is_little_endian`, `entry`,
/// `relative_address_base`) for what the image header declares.
#[verifier::external_body]
pub(crate) fn image_meta(binary: &[u8]) -> (r: Option<ImageMeta>)
    ensures
        r == meta_of(binary@),
{
    let obj = object::File::parse(binary).ok()?;
    Some(ImageMeta {
        format: match obj.format() {
            object::BinaryFormat::Elf => BinFormat::Elf,
            object::BinaryFormat::Pe => BinFormat::Pe,
            object::BinaryFormat::MachO => BinFormat::MachO,
            _ => BinFormat::Other,
        },
        bits64: obj.is_64(),
        little_endian: obj.is_little_endian(),
        entry: obj.entry(),
        base: obj.relative_address_base(),
    })
}

/// Relies on `object::Object::symbols` for the image's native symbol
/// table: each symbol's address and its name (`None` where the name
/// cannot be decoded).
#[verifier::external_body]
pub(crate) fn native_symbols(binary: &[u8]) -> (r: Option<Vec<(u64, Option<String>)>>)
    ensures
        match r {
            Some(v) => native_symbols_of(binary@) == Some(raw_symbols_view(v@)),
            None => native_symbols_of(binary@) is None,
        },
{
    let obj = object::File::parse(binary).ok()?;
    Some(
        obj.symbols().map(
            |sym| (sym.address(), sym.name().ok().map(|name| name.to_string())),
        ).collect(),
    )
}

/// Relies on `object::Object::dynamic_relocations` and
/// `Relocation::{kind, flags, target}` for the image's dynamic
/// relocations, reduced to offset, kind and target symbol index.
#[verifier::external_body]
pub(crate) fn dynamic_relocations(binary: &[u8]) -> (r: Option<Vec<RawReloc>>)
    ensures
        match r {
            Some(v) => relocs_of(binary@) == Some(v@),
            None => relocs_of(binary@) is None,
        },
{
    let obj = object::File::parse(binary).ok()?;
    let relocations = match obj.dynamic_relocations() {
        Some(relocations) => relocations,
        None => return Some(Vec::new()),
    };
    Some(relocations.map(|(offset, reloc)| RawReloc {
        offset,
        absolute: matches!(reloc.kind(), object::RelocationKind::Absolute),
        elf_kind: if let object::RelocationFlags::Elf { r_type } = reloc.flags() { Some(r_type.0) } else { None },
        symbol: if let object::read::RelocationTarget::Symbol(idx) = reloc.target() { Some(idx.0) } else { None },
    }).collect())
}

/// Relies on `object::Object::dynamic_symbol_table` and
/// `SymbolTable::symbol_by_index` for the name of one dynamic symbol
/// (`None` where the index or the name cannot be resolved).
#[verifier::external_body]
pub(crate) fn dynamic_symbol_name(binary: &[u8], index: usize) -> (r: Option<String>)
    ensures
        match r {
            Some(n) => dyn_symbol_name_of(binary@, index) == Some(n@),
            None => dyn_symbol_name_of(binary@, index) is None,
        },
{
    let obj = object::File::parse(binary).ok()?;
    let table = obj.dynamic_symbol_table()?;
    let sym = table.symbol_by_index(object::SymbolIndex(index)).ok()?;
    sym.name().ok().map(|name| name.to_string())
}

/// Relies on `object::Object::sections` and
/// `ObjectSection::{address, size, data}` for each section's address
/// range and file-backed bytes.
#[verifier::external_body]
pub(crate) fn section_data(binary: &[u8]) -> (r: Option<Vec<SectionData>>)
    ensures
        match r {
            Some(v) => sections_of(binary@) == Some(sections_view(v@)),
            None => sections_of(binary@) is None,
        },
{
    let obj = object::File::parse(binary).ok()?;
    Some(
        obj.sections().map(
            |sec| SectionData {
                address: sec.address(),
                size: sec.size(),
                data: sec.data().ok().map(|d| d.to_vec()),
            },
        ).collect(),
    )
}

/// Relies on `PeFile64::import_table` and
/// `ImportTable::{descriptors, name}` for the 64-bit PE import
/// descriptor table: the empty list for an image without an import
/// directory, `None` where the table or a module name cannot be read.
#[verifier::external_body]
pub(crate) fn pe64_import_descriptors(binary: &[u8]) -> (r: Option<Vec<RawPeDescriptor>>)
    ensures
        match r {
            Some(v) => pe_descriptors_of(binary@, true) == Some(descriptors_view(v@)),
            None => pe_descriptors_of(binary@, true) is None,
        },
{
    let obj = PeFile64::parse(binary).ok()?;
    let table = match obj.import_table() {
        Ok(Some(table)) => table,
        Ok(None) => return Some(Vec::new()),
        Err(..) => return None,
    };
    table.descriptors().ok()?.map(|d| {
        let d = d.ok()?;
        Some(RawPeDescriptor {
            module: Some(table.name(d.name.get(LE)).ok()?.to_vec()),
            original_first_thunk: d.original_first_thunk.get(LE),
            first_thunk: d.first_thunk.get(LE),
        })
    }).collect()
}

/// Relies on `PeFile32::import_table` and
/// `ImportTable::{descriptors, name}` for the 32-bit PE import
/// descriptor table: the empty list for an image without an import
/// directory, `None` where the table or a module name cannot be read.
#[verifier::external_body]
pub(crate) fn pe32_import_descriptors(binary: &[u8]) -> (r: Option<Vec<RawPeDescriptor>>)
    ensures
        match r {
            Some(v) => pe_descriptors_of(binary@, false) == Some(descriptors_view(v@)),
            None => pe_descriptors_of(binary@, false) is None,
        },
{
    let obj = PeFile32::parse(binary).ok()?;
    let table = match obj.import_table() {
        Ok(Some(table)) => table,
        Ok(None) => return Some(Vec::new()),
        Err(..) => return None,
    };
    table.descriptors().ok()?.map(|d| {
        let d = d.ok()?;
        Some(RawPeDescriptor {
            module: Some(table.name(d.name.get(LE)).ok()?.to_vec()),
            original_first_thunk: d.original_first_thunk.get(LE),
            first_thunk: d.first_thunk.get(LE),
        })
    }).collect()
}

/// Relies on `ImportTable::thunks` and `ImageThunkData64` for the thunk
/// list at a given RVA of a 64-bit PE image: each entry's ordinal flag
/// and RVA portion.
#[verifier::external_body]
pub(crate) fn pe64_thunk_entries(binary: &[u8], thunk_rva: u32) -> (r: Option<Vec<(bool, u32)>>)
    ensures
        match r {
            Some(v) => pe_thunks_of(binary@, true, thunk_rva) == Some(v@),
            None => pe_thunks_of(binary@, true, thunk_rva) is None,
        },
{
    let obj = PeFile64::parse(binary).ok()?;
    let table = obj.import_table().ok()??;
    let mut thunks = table.thunks(thunk_rva).ok()?;
    let mut out = Vec::new();
    loop {
        match thunks.next::<object::pe::ImageNtHeaders64>() {
            Ok(Some(t)) => out.push((t.is_ordinal(), t.address())),
            Ok(None) => return Some(out),
            Err(..) => return None,
        }
    }
}

/// Relies on `ImportTable::thunks` and `ImageThunkData32` for the thunk
/// list at a given RVA of a 32-bit PE image: each entry's ordinal flag
/// and RVA portion.
#[verifier::external_body]
pub(crate) fn pe32_thunk_entries(binary: &[u8], thunk_rva: u32) -> (r: Option<Vec<(bool, u32)>>)
    ensures
        match r {
            Some(v) => pe_thunks_of(binary@, false, thunk_rva) == Some(v@),
            None => pe_thunks_of(binary@, false, thunk_rva) is None,
        },
{
    let obj = PeFile32::parse(binary).ok()?;
    let table = obj.import_table().ok()??;
    let mut thunks = table.thunks(thunk_rva).ok()?;
    let mut out = Vec::new();
    loop {
        match thunks.next::<object::pe::ImageNtHeaders32>() {
            Ok(Some(t)) => out.push((t.is_ordinal(), t.address())),
            Ok(None) => return Some(out),
            Err(..) => return None,
        }
    }
}

/// Relies on `ImportTable::hint_name` for the hint and name bytes at a
/// thunk's RVA of a 64-bit PE image.
#[verifier::external_body]
pub(crate) fn pe64_hint_name(binary: &[u8], rva: u32) -> (r: Option<(u16, Vec<u8>)>)
    ensures
        match r {
            Some(hn) => pe_hint_name_of(binary@, true, rva) == Some((hn.0, hn.1@)),
            None => pe_hint_name_of(binary@, true, rva) is None,
        },
{
    let obj = PeFile64::parse(binary).ok()?;
    let table = obj.import_table().ok()??;
    let (hint, name) = table.hint_name(rva).ok()?;
    Some((hint, name.to_vec()))
}

/// Relies on `ImportTable::hint_name` for the hint and name bytes at a
/// thunk's RVA of a 32-bit PE image.
#[verifier::external_body]
pub(crate) fn pe32_hint_name(binary: &[u8], rva: u32) -> (r: Option<(u16, Vec<u8>)>)
    ensures
        match r {
            Some(hn) => pe_hint_name_of(binary@, false, rva) == Some((hn.0, hn.1@)),
            None => pe_hint_name_of(binary@, false, rva) is None,
        },
{
    let obj = PeFile32::parse(binary).ok()?;
    let table = obj.import_table().ok()??;
    let (hint, name) = table.hint_name(rva).ok()?;
    Some((hint, name.to_vec()))
}

/// Relies on std's `String::from_utf8`: `Ok` exactly for valid UTF-8,
/// decoding it losslessly.
#[verifier::external_body]
pub(crate) fn utf8_string(bytes: &Vec<u8>) -> (r: Option<String>)
    ensures
        match r {
            Some(s) => valid_utf8(bytes@) && encode_utf8(s@) == bytes@ && s@ == decode_utf8(
                bytes@,
            ),
            None => !valid_utf8(bytes@),
        },
{
    String::from_utf8(bytes.clone()).ok()
}

/// The text std's lossy UTF-8 decoding yields for these bytes: a pure
/// function of the bytes alone.
pub uninterp spec fn lossy_text(bytes: Seq<u8>) -> Seq<char>;

/// Relies on std's `String::from_utf8_lossy`: a pure function of the
/// bytes, the identity on valid UTF-8.
#[verifier::external_body]
pub(crate) fn lossy_string(bytes: &Vec<u8>) -> (r: String)
    ensures
        r@ == lossy_text(bytes@),
        valid_utf8(bytes@) ==> encode_utf8(r@) == bytes@,
{
    String::from_utf8_lossy(bytes.as_slice()).into_owned()
}

} // verus!
