//! The section catalog: address ranges tagged with a kind, backed by bytes.

use vstd::prelude::*;

verus! {

use vstd::slice::slice_subrange;

/// Sections of unrecognized kinds are split into chunks of this many bytes.
pub const BYTES_BLOCK_SIZE: usize = 256;

/// Headroom kept above every section end so that chunked scans can step
/// past the end without overflowing an address.
pub const ADDR_HEADROOM: usize = 512;

/// What a section holds; drives both boundary rules and block content rules.
#[derive(Clone, Copy, Debug, PartialEq, Eq, Structural)]
pub enum SectionKind {
    /// Machine instructions.
    Code,
    /// NUL-terminated strings.
    CString,
    /// 4-byte pointers.
    Ptr32,
    /// 8-byte pointers.
    Ptr64,
    /// 4-byte global offset table entries.
    Got32,
    /// 8-byte global offset table entries.
    Got64,
    /// Exception directory records.
    ExceptionDirEntry,
    /// 32-bit ELF symbol records.
    Elf32Sym,
    /// 64-bit ELF symbol records.
    Elf64Sym,
    /// 32-bit ELF dynamic records.
    Elf32Dyn,
    /// 64-bit ELF dynamic records.
    Elf64Dyn,
    /// Not mapped at run time; nothing renderable.
    Unloaded,
    /// Debug information; split and rendered as raw bytes.
    Debug,
    /// Anything else: rendered as raw bytes.
    Raw,
}

impl SectionKind {
    /// The display name of the kind.
    pub open spec fn spec_name(self) -> Seq<char> {
        match self {
            SectionKind::Code => "Code"@,
            SectionKind::CString => "CString"@,
            SectionKind::Ptr32 => "Ptr32"@,
            SectionKind::Ptr64 => "Ptr64"@,
            SectionKind::Got32 => "Got32"@,
            SectionKind::Got64 => "Got64"@,
            SectionKind::ExceptionDirEntry => "ExceptionDirEntry"@,
            SectionKind::Elf32Sym => "Elf32Sym"@,
            SectionKind::Elf64Sym => "Elf64Sym"@,
            SectionKind::Elf32Dyn => "Elf32Dyn"@,
            SectionKind::Elf64Dyn => "Elf64Dyn"@,
            SectionKind::Unloaded => "Unloaded"@,
            SectionKind::Debug => "Debug"@,
            SectionKind::Raw => "Raw"@,
        }
    }

    pub fn name(self) -> (r: &'static str)
        ensures
            r@ == self.spec_name(),
    {
        match self {
            SectionKind::Code => "Code",
            SectionKind::CString => "CString",
            SectionKind::Ptr32 => "Ptr32",
            SectionKind::Ptr64 => "Ptr64",
            SectionKind::Got32 => "Got32",
            SectionKind::Got64 => "Got64",
            SectionKind::ExceptionDirEntry => "ExceptionDirEntry",
            SectionKind::Elf32Sym => "Elf32Sym",
            SectionKind::Elf64Sym => "Elf64Sym",
            SectionKind::Elf32Dyn => "Elf32Dyn",
            SectionKind::Elf64Dyn => "Elf64Dyn",
            SectionKind::Unloaded => "Unloaded",
            SectionKind::Debug => "Debug",
            SectionKind::Raw => "Raw",
        }
    }

    /// The fixed stride, in bytes, at which a data section of this kind is
    /// split into blocks. Code and CString sections have no fixed stride.
    pub open spec fn spec_stride(self) -> nat {
        match self {
            SectionKind::Ptr32 => 4,
            SectionKind::Got32 => 4,
            SectionKind::Ptr64 => 8,
            SectionKind::Got64 => 8,
            SectionKind::ExceptionDirEntry => 12,
            SectionKind::Elf32Sym => 16,
            SectionKind::Elf64Sym => 24,
            SectionKind::Elf32Dyn => 8,
            SectionKind::Elf64Dyn => 16,
            _ => 256,
        }
    }

    pub fn stride(self) -> (r: usize)
        ensures
            r == self.spec_stride(),
            1 <= r <= 256,
    {
        match self {
            SectionKind::Ptr32 => 4,
            SectionKind::Got32 => 4,
            SectionKind::Ptr64 => 8,
            SectionKind::Got64 => 8,
            SectionKind::ExceptionDirEntry => 12,
            SectionKind::Elf32Sym => 16,
            SectionKind::Elf64Sym => 24,
            SectionKind::Elf32Dyn => 8,
            SectionKind::Elf64Dyn => 16,
            _ => 256,
        }
    }
}

/// The abstract value of a section.
pub struct SectionView {
    pub name: Seq<char>,
    pub ident: Seq<char>,
    pub kind: SectionKind,
    pub start: nat,
    pub end: nat,
    pub bytes: Seq<u8>,
}

/// One address range of the image, tagged with its kind and backed by the
/// bytes the file holds for it (empty for file-absent sections).
#[derive(Debug)]
pub struct Section {
    pub name: String,
    pub ident: String,
    pub kind: SectionKind,
    pub start: usize,
    pub end: usize,
    pub bytes: Vec<u8>,
}

impl View for Section {
    type V = SectionView;

    open spec fn view(&self) -> SectionView {
        SectionView {
            name: self.name@,
            ident: self.ident@,
            kind: self.kind,
            start: self.start as nat,
            end: self.end as nat,
            bytes: self.bytes@,
        }
    }
}

impl SectionView {
    /// The section invariant: a well-ordered range with headroom at the top
    /// of the address space, whose backing bytes either span the range
    /// exactly or are absent from the file.
    pub open spec fn wf(self) -> bool {
        &&& self.start <= self.end
        &&& self.end + ADDR_HEADROOM <= usize::MAX
        &&& (self.bytes.len() == self.end - self.start || self.bytes.len() == 0)
    }

    pub open spec fn contains(self, addr: nat) -> bool {
        self.start <= addr < self.end
    }

    /// The backing bytes reachable from `addr`, at most `count` of them:
    /// empty when the address lies past the backing bytes.
    pub open spec fn spec_bytes_by_addr(self, addr: nat, count: nat) -> Seq<u8> {
        let off = addr - self.start;
        if addr < self.start || off >= self.bytes.len() {
            Seq::empty()
        } else if count >= self.bytes.len() - off {
            self.bytes.subrange(off, self.bytes.len() as int)
        } else {
            self.bytes.subrange(off, off + count)
        }
    }
}

impl Clone for Section {
    fn clone(&self) -> (r: Section)
        ensures
            r@ == self@,
    {
        Section {
            name: self.name.clone(),
            ident: self.ident.clone(),
            kind: self.kind,
            start: self.start,
            end: self.end,
            bytes: self.bytes.clone(),
        }
    }
}

impl Section {
    pub fn bytes_by_addr(&self, addr: usize, count: usize) -> (r: &[u8])
        ensures
            r@ == self@.spec_bytes_by_addr(addr as nat, count as nat),
    {
        if addr < self.start {
            let empty = slice_subrange(self.bytes.as_slice(), 0, 0);
            proof {
                assert(empty@ =~= self@.spec_bytes_by_addr(addr as nat, count as nat));
            }
            return empty;
        }
        let off = addr - self.start;
        let len = self.bytes.len();
        if off >= len {
            let empty = slice_subrange(self.bytes.as_slice(), 0, 0);
            proof {
                assert(empty@ =~= self@.spec_bytes_by_addr(addr as nat, count as nat));
            }
            return empty;
        }
        let take = if count >= len - off {
            len - off
        } else {
            count
        };
        slice_subrange(self.bytes.as_slice(), off, off + take)
    }
}

} // verus!
