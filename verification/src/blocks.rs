//! The block classifier: one classified, renderable unit per boundary
//! address, and its exact token rendering.

use vstd::prelude::*;

verus! {

use vstd::string::StringExecFns;
use crate::hex::{
    addr_hex,
    encode_hex_bytes_truncated,
    min_hex,
    spec_addr_hex,
    spec_hex_bytes,
    spec_hex_bytes_truncated,
    spec_min_hex,
    spec_value_hex,
};
use crate::image::{lossy_string, lossy_text};
use crate::sections::{Section, SectionView};
use crate::symbols::{Function, FunctionView};
use crate::text::{escape_debug_string, escaped_text};
use crate::tokens::{Color, Token, TokenStream, TokenView};

/// The colors the classifier draws structured records with, handed in
/// once at startup rather than read from a global.
#[derive(Clone, Copy, Debug)]
pub struct Theme {
    pub keyword: Color,
    pub tipe: Color,
    pub field: Color,
    pub constant: Color,
    pub delimiter: Color,
}

/// One field of a structured record: its address, name, type name, and
/// formatted value.
#[derive(Debug)]
pub struct RecordField {
    pub addr: usize,
    pub name: &'static str,
    pub tipe_name: &'static str,
    pub value: String,
}

pub struct RecordFieldView {
    pub addr: usize,
    pub name: Seq<char>,
    pub tipe_name: Seq<char>,
    pub value: Seq<char>,
}

impl View for RecordField {
    type V = RecordFieldView;

    open spec fn view(&self) -> RecordFieldView {
        RecordFieldView {
            addr: self.addr,
            name: self.name@,
            tipe_name: self.tipe_name@,
            value: self.value@,
        }
    }
}

/// What one block holds.
#[derive(Debug)]
pub enum BlockContent {
    /// A section opens at this address.
    SectionStart { section: Section },
    /// A section closes at this address.
    SectionEnd { section: Section },
    /// A named function starts here.
    Label { symbol: Function },
    /// One decoded instruction: its tokens and its bytes as hex text.
    Instruction { inst: Vec<Token>, bytes: String },
    /// One decode failure: the decoder's tag and the bytes as hex text.
    Error { err: String, bytes: String },
    /// One NUL-terminated string, without its terminator.
    CString { bytes: Vec<u8> },
    /// One global-offset-table slot and the symbol owning it.
    Got { size: usize, symbol: Function },
    /// One pointer-sized value, and the function it points at, if any.
    Pointer { value: u64, symbol: Option<Function> },
    /// One fixed-layout record, as an ordered field list.
    DataStructure { ident: &'static str, fields: Vec<RecordField> },
    /// Raw bytes with no finer structure.
    Bytes { bytes: Vec<u8> },
}

pub enum BlockContentView {
    SectionStart { section: SectionView },
    SectionEnd { section: SectionView },
    Label { symbol: FunctionView },
    Instruction { inst: Seq<TokenView>, bytes: Seq<char> },
    Error { err: Seq<char>, bytes: Seq<char> },
    CString { bytes: Seq<u8> },
    Got { size: usize, symbol: FunctionView },
    Pointer { value: u64, symbol: Option<FunctionView> },
    DataStructure { ident: Seq<char>, fields: Seq<RecordFieldView> },
    Bytes { bytes: Seq<u8> },
}

impl View for BlockContent {
    type V = BlockContentView;

    open spec fn view(&self) -> BlockContentView {
        match self {
            BlockContent::SectionStart { section } => BlockContentView::SectionStart {
                section: section@,
            },
            BlockContent::SectionEnd { section } => BlockContentView::SectionEnd {
                section: section@,
            },
            BlockContent::Label { symbol } => BlockContentView::Label { symbol: symbol@ },
            BlockContent::Instruction { inst, bytes } => BlockContentView::Instruction {
                inst: Seq::new(inst@.len(), |i: int| inst@[i]@),
                bytes: bytes@,
            },
            BlockContent::Error { err, bytes } => BlockContentView::Error {
                err: err@,
                bytes: bytes@,
            },
            BlockContent::CString { bytes } => BlockContentView::CString { bytes: bytes@ },
            BlockContent::Got { size, symbol } => BlockContentView::Got {
                size: *size,
                symbol: symbol@,
            },
            BlockContent::Pointer { value, symbol } => BlockContentView::Pointer {
                value: *value,
                symbol: match symbol {
                    Some(f) => Some(f@),
                    None => None,
                },
            },
            BlockContent::DataStructure { ident, fields } => BlockContentView::DataStructure {
                ident: ident@,
                fields: Seq::new(fields@.len(), |i: int| fields@[i]@),
            },
            BlockContent::Bytes { bytes } => BlockContentView::Bytes { bytes: bytes@ },
        }
    }
}

/// One renderable unit of a section's contents.
#[derive(Debug)]
pub struct Block {
    pub addr: usize,
    pub content: BlockContent,
}

pub struct BlockView {
    pub addr: usize,
    pub content: BlockContentView,
}

impl View for Block {
    type V = BlockView;

    open spec fn view(&self) -> BlockView {
        BlockView { addr: self.addr, content: self.content@ }
    }
}

/// How many rendered rows a block takes in the virtualized listing: a
/// property of its content.
pub open spec fn spec_row_count(c: BlockContentView) -> nat {
    match c {
        BlockContentView::SectionStart { .. } => 2,
        BlockContentView::SectionEnd { .. } => 2,
        BlockContentView::Label { .. } => 2,
        BlockContentView::Instruction { .. } => 1,
        BlockContentView::Error { .. } => 1,
        BlockContentView::CString { bytes } => bytes.len() + 1,
        BlockContentView::Pointer { .. } => 1,
        BlockContentView::Got { .. } => 1,
        BlockContentView::DataStructure { fields, .. } => fields.len() + 2,
        BlockContentView::Bytes { bytes } => bytes.len() / 32 + 1,
    }
}

impl Block {
    /// The block's rendered row count.
    pub fn len(&self) -> (r: usize)
        requires
            spec_row_count(self.content@) <= usize::MAX,
        ensures
            r == spec_row_count(self.content@),
    {
        match &self.content {
            BlockContent::SectionStart { .. } => 2,
            BlockContent::SectionEnd { .. } => 2,
            BlockContent::Label { .. } => 2,
            BlockContent::Instruction { .. } => 1,
            BlockContent::Error { .. } => 1,
            BlockContent::CString { bytes } => bytes.len() + 1,
            BlockContent::Pointer { .. } => 1,
            BlockContent::Got { .. } => 1,
            BlockContent::DataStructure { fields, .. } => fields.len() + 2,
            BlockContent::Bytes { bytes } => bytes.len() / 32 + 1,
        }
    }
}

pub open spec fn tok(text: Seq<char>, color: Color) -> TokenView {
    TokenView { text, color }
}

/// The fixed-width address column: ten-digit uppercase hex and two
/// spaces.
pub open spec fn spec_addr_prefix(addr: nat) -> TokenView {
    tok(spec_addr_hex(addr) + "  "@, Color::Gray40)
}

/// The tokens of one structured-record field row.
pub open spec fn spec_fields_tokens(fields: Seq<RecordFieldView>, theme: Theme) -> Seq<TokenView>
    decreases fields.len(),
{
    if fields.len() == 0 {
        Seq::empty()
    } else {
        let f = fields[0];
        seq![
            spec_addr_prefix(f.addr as nat),
            tok("    "@, Color::White),
            tok(f.name, theme.field),
            tok(": "@, Color::White),
            tok(f.tipe_name, theme.tipe),
            tok(" = "@, theme.delimiter),
            tok(f.value, theme.constant),
            tok("\n"@, Color::White),
        ] + spec_fields_tokens(fields.drop_first(), theme)
    }
}

/// The raw-byte rows: an address column, up to 32 bytes of hex, and a
/// newline per row (the caller drops the final newline).
pub open spec fn spec_bytes_lines(addr: nat, bytes: Seq<u8>) -> Seq<TokenView>
    decreases bytes.len(),
{
    if bytes.len() == 0 {
        Seq::empty()
    } else {
        let take: int = if bytes.len() >= 32 {
            32
        } else {
            bytes.len() as int
        };
        seq![
            spec_addr_prefix(addr),
            tok(spec_hex_bytes(bytes.take(take)), Color::Green),
            tok("\n"@, Color::White),
        ] + spec_bytes_lines((addr + take) as nat, bytes.skip(take))
    }
}

/// The exact token rendering of one block: the bit-exact contract the
/// presentation layer depends on.
pub open spec fn spec_block_tokens(b: BlockView, theme: Theme) -> Seq<TokenView> {
    match b.content {
        BlockContentView::Label { symbol } => seq![tok("\n<"@, Color::Blue)] + symbol.name.tokens
            + seq![tok(">"@, Color::Blue)],
        BlockContentView::SectionStart { section } => seq![
            tok("section started"@, Color::White),
            tok(seq![' '] + section.name + seq![' '], Color::Blue),
            tok("{"@, Color::Gray60),
            if section.ident == "UNKNOWN"@ {
                tok(section.kind.spec_name(), Color::Magenta)
            } else {
                tok(section.ident, Color::Magenta)
            },
            tok("} "@, Color::Gray60),
            tok(spec_min_hex(section.start), Color::Green),
            tok("-"@, Color::Gray60),
            tok(spec_min_hex(section.end), Color::Green),
        ],
        BlockContentView::SectionEnd { section } => seq![
            tok("section ended"@, Color::White),
            tok(seq![' '] + section.name + seq![' '], Color::Blue),
            tok("{"@, Color::Gray60),
            tok(section.kind.spec_name(), Color::Magenta),
            tok("} "@, Color::Gray60),
            tok(spec_min_hex(section.start), Color::Green),
            tok("-"@, Color::Gray60),
            tok(spec_min_hex(section.end), Color::Green),
        ],
        BlockContentView::Instruction { inst, bytes } => seq![
            spec_addr_prefix(b.addr as nat),
            tok(bytes, Color::Green),
        ] + inst,
        BlockContentView::Error { err, bytes } => seq![
            spec_addr_prefix(b.addr as nat),
            tok(bytes, Color::Green),
            tok("<"@, Color::Gray40),
            tok(err, Color::Red),
            tok(">"@, Color::Gray40),
        ],
        BlockContentView::CString { bytes } => seq![
            spec_addr_prefix(b.addr as nat),
            tok(seq!['"'] + escaped_text(lossy_text(bytes)) + seq!['"'], Color::Orange),
        ],
        BlockContentView::Got { symbol, .. } => seq![
            spec_addr_prefix(b.addr as nat),
            tok("<"@, Color::Blue),
        ] + (if symbol.name.tokens.len() == 0 {
            seq![tok("unresolved"@, Color::Red)]
        } else {
            symbol.name.tokens
        }) + seq![tok(">"@, Color::Blue)],
        BlockContentView::DataStructure { ident, fields } => seq![
            spec_addr_prefix(fields[0].addr as nat),
            tok("struct "@, theme.keyword),
            tok(ident, theme.tipe),
            tok(" {\n"@, theme.delimiter),
        ] + spec_fields_tokens(fields, theme) + seq![
            spec_addr_prefix(fields[fields.len() - 1].addr as nat),
            tok("}"@, theme.delimiter),
        ],
        BlockContentView::Pointer { value, symbol } => seq![
            spec_addr_prefix(b.addr as nat),
            tok(spec_value_hex(value as nat), Color::Green),
        ] + (match symbol {
            Some(f) => seq![tok(" <"@, Color::Blue)] + f.name.tokens + seq![tok(">"@, Color::Blue)],
            None => Seq::empty(),
        }),
        BlockContentView::Bytes { bytes } => if bytes.len() == 0 {
            Seq::empty()
        } else {
            spec_bytes_lines(b.addr as nat, bytes).drop_last()
        },
    }
}

/// What `tokenize` asks of a block: a record block has at least one
/// field, and a raw-byte block's addresses stay representable.
pub open spec fn spec_tokenize_wf(b: BlockView) -> bool {
    match b.content {
        BlockContentView::DataStructure { fields, .. } => fields.len() > 0,
        BlockContentView::Bytes { bytes } => b.addr + bytes.len() <= usize::MAX,
        _ => true,
    }
}

impl Block {
    /// The address column of this block.
    fn addr_prefix(addr: usize) -> (r: String)
        ensures
            r@ == spec_addr_hex(addr as nat) + "  "@,
    {
        let mut out = addr_hex(addr);
        out.push(' ');
        out.push(' ');
        proof {
            reveal_strlit("  ");
            assert(out@ =~= spec_addr_hex(addr as nat) + "  "@);
        }
        out
    }

    /// Renders the block into the stream: appends exactly
    /// `spec_block_tokens` and touches nothing already there.
    pub fn tokenize(&self, stream: &mut TokenStream, theme: &Theme)
        requires
            spec_tokenize_wf(self@),
        ensures
            final(stream)@ == old(stream)@ + spec_block_tokens(self@, *theme),
    {
        match &self.content {
            BlockContent::Label { symbol } => {
                stream.push("\n<", Color::Blue);
                stream.extend_tokens(symbol.name());
                stream.push(">", Color::Blue);
                proof {
                    assert(final(stream)@ =~= old(stream)@ + spec_block_tokens(self@, *theme));
                }
            },
            BlockContent::SectionStart { section } => {
                stream.push("section started", Color::White);
                let mut padded = String::new();
                padded.push(' ');
                padded.append(section.name.as_str());
                padded.push(' ');
                proof {
                    assert(padded@ =~= seq![' '] + section@.name + seq![' ']);
                }
                stream.push_owned(padded, Color::Blue);
                stream.push("{", Color::Gray60);
                let unknown = String::from_str("UNKNOWN");
                if section.ident == unknown {
                    stream.push(section.kind.name(), Color::Magenta);
                } else {
                    stream.push_owned(section.ident.clone(), Color::Magenta);
                }
                stream.push("} ", Color::Gray60);
                stream.push_owned(min_hex(section.start), Color::Green);
                stream.push("-", Color::Gray60);
                stream.push_owned(min_hex(section.end), Color::Green);
                proof {
                    reveal_strlit("UNKNOWN");
                    assert(final(stream)@ =~= old(stream)@ + spec_block_tokens(self@, *theme));
                }
            },
            BlockContent::SectionEnd { section } => {
                stream.push("section ended", Color::White);
                let mut padded = String::new();
                padded.push(' ');
                padded.append(section.name.as_str());
                padded.push(' ');
                proof {
                    assert(padded@ =~= seq![' '] + section@.name + seq![' ']);
                }
                stream.push_owned(padded, Color::Blue);
                stream.push("{", Color::Gray60);
                stream.push(section.kind.name(), Color::Magenta);
                stream.push("} ", Color::Gray60);
                stream.push_owned(min_hex(section.start), Color::Green);
                stream.push("-", Color::Gray60);
                stream.push_owned(min_hex(section.end), Color::Green);
                proof {
                    assert(final(stream)@ =~= old(stream)@ + spec_block_tokens(self@, *theme));
                }
            },
            BlockContent::Instruction { inst, bytes } => {
                stream.push_owned(Self::addr_prefix(self.addr), Color::Gray40);
                stream.push_owned(bytes.clone(), Color::Green);
                stream.extend_tokens(inst.as_slice());
                proof {
                    assert(final(stream)@ =~= old(stream)@ + spec_block_tokens(self@, *theme));
                }
            },
            BlockContent::Error { err, bytes } => {
                stream.push_owned(Self::addr_prefix(self.addr), Color::Gray40);
                stream.push_owned(bytes.clone(), Color::Green);
                stream.push("<", Color::Gray40);
                stream.push_owned(err.clone(), Color::Red);
                stream.push(">", Color::Gray40);
                proof {
                    assert(final(stream)@ =~= old(stream)@ + spec_block_tokens(self@, *theme));
                }
            },
            BlockContent::CString { bytes } => {
                stream.push_owned(Self::addr_prefix(self.addr), Color::Gray40);
                let lossy = lossy_string(bytes);
                let escaped = escape_debug_string(lossy.as_str());
                let mut quoted = String::new();
                quoted.push('"');
                quoted.append(escaped.as_str());
                quoted.push('"');
                proof {
                    assert(quoted@ =~= seq!['"'] + escaped_text(lossy_text(bytes@)) + seq!['"']);
                }
                stream.push_owned(quoted, Color::Orange);
                proof {
                    assert(final(stream)@ =~= old(stream)@ + spec_block_tokens(self@, *theme));
                }
            },
            BlockContent::Got { symbol, .. } => {
                stream.push_owned(Self::addr_prefix(self.addr), Color::Gray40);
                stream.push("<", Color::Blue);
                let name = symbol.name();
                if name.len() == 0 {
                    stream.push("unresolved", Color::Red);
                } else {
                    stream.extend_tokens(name);
                }
                stream.push(">", Color::Blue);
                proof {
                    assert(final(stream)@ =~= old(stream)@ + spec_block_tokens(self@, *theme));
                }
            },
            BlockContent::DataStructure { ident, fields } => {
                let first_addr = fields[0].addr;
                let last_addr = fields[fields.len() - 1].addr;
                stream.push_owned(Self::addr_prefix(first_addr), Color::Gray40);
                stream.push("struct ", theme.keyword);
                stream.push(*ident, theme.tipe);
                stream.push(" {\n", theme.delimiter);
                let ghost head = stream@;
                let mut i: usize = 0;
                proof {
                    assert(Seq::new(fields@.len(), |k: int| fields@[k]@).take(0)
                        =~= Seq::<RecordFieldView>::empty());
                }
                while i < fields.len()
                    invariant
                        i <= fields@.len(),
                        stream@ == head + spec_fields_tokens(
                            Seq::new(fields@.len(), |k: int| fields@[k]@).take(i as int),
                            *theme,
                        ),
                    decreases fields@.len() - i,
                {
                    let f = &fields[i];
                    stream.push_owned(Self::addr_prefix(f.addr), Color::Gray40);
                    stream.push("    ", Color::White);
                    stream.push(f.name, theme.field);
                    stream.push(": ", Color::White);
                    stream.push(f.tipe_name, theme.tipe);
                    stream.push(" = ", theme.delimiter);
                    stream.push_owned(f.value.clone(), theme.constant);
                    stream.push("\n", Color::White);
                    i = i + 1;
                    proof {
                        let fv = Seq::new(fields@.len(), |k: int| fields@[k]@);
                        lemma_fields_tokens_snoc(fv, i as int - 1, *theme);
                        assert(stream@ =~= head + spec_fields_tokens(fv.take(i as int), *theme));
                    }
                }
                stream.push_owned(Self::addr_prefix(last_addr), Color::Gray40);
                stream.push("}", theme.delimiter);
                proof {
                    let fv = Seq::new(fields@.len(), |k: int| fields@[k]@);
                    assert(fv.take(fields@.len() as int) =~= fv);
                    assert(final(stream)@ =~= old(stream)@ + spec_block_tokens(self@, *theme));
                }
            },
            BlockContent::Pointer { value, symbol } => {
                stream.push_owned(Self::addr_prefix(self.addr), Color::Gray40);
                stream.push_owned(Self::value_text(*value), Color::Green);
                if let Some(f) = symbol {
                    stream.push(" <", Color::Blue);
                    stream.extend_tokens(f.name());
                    stream.push(">", Color::Blue);
                }
                proof {
                    assert(final(stream)@ =~= old(stream)@ + spec_block_tokens(self@, *theme));
                }
            },
            BlockContent::Bytes { bytes } => {
                if bytes.len() > 0 {
                    self.bytes_rows(bytes, stream);
                    stream.pop();
                    proof {
                        assert(final(stream)@ =~= old(stream)@ + spec_block_tokens(self@, *theme));
                    }
                } else {
                    proof {
                        assert(spec_block_tokens(self@, *theme) =~= Seq::<TokenView>::empty());
                        assert(final(stream)@ =~= old(stream)@ + spec_block_tokens(self@, *theme));
                    }
                }
            },
        }
    }

    /// The pointer-value text, as minimal `0x` hex of the 64-bit value.
    fn value_text(v: u64) -> (r: String)
        ensures
            r@ == spec_value_hex(v as nat),
    {
        crate::hex::value_hex64(v)
    }

    /// Appends the raw-byte rows, final newline included.
    fn bytes_rows(&self, bytes: &Vec<u8>, stream: &mut TokenStream)
        requires
            self.addr + bytes@.len() <= usize::MAX,
        ensures
            final(stream)@ == old(stream)@ + spec_bytes_lines(self.addr as nat, bytes@),
    {
        let mut off: usize = 0;
        let ghost head = stream@;
        let len = bytes.len();
        proof {
            assert(bytes@.skip(0) =~= bytes@);
        }
        while off < len
            invariant
                off <= len,
                len == bytes@.len(),
                self.addr + len <= usize::MAX,
                stream@ + spec_bytes_lines((self.addr + off) as nat, bytes@.skip(off as int))
                    == head + spec_bytes_lines(self.addr as nat, bytes@),
            decreases len - off,
        {
            let take = if len - off >= 32 {
                32
            } else {
                len - off
            };
            let chunk = vstd::slice::slice_subrange(bytes.as_slice(), off, off + take);
            let ghost rem = bytes@.skip(off as int);
            proof {
                crate::hex::lemma_hex_bytes_len(chunk@);
                assert(rem.take(take as int) =~= chunk@);
                assert(rem.skip(take as int) =~= bytes@.skip(off + take));
            }
            stream.push_owned(Self::addr_prefix(self.addr + off), Color::Gray40);
            let dump = encode_hex_bytes_truncated(chunk, usize::MAX, false);
            stream.push_owned(dump, Color::Green);
            stream.push("\n", Color::White);
            off = off + take;
            proof {
                assert(spec_bytes_lines((self.addr + off - take) as nat, rem) =~= seq![
                    spec_addr_prefix((self.addr + off - take) as nat),
                    tok(spec_hex_bytes(chunk@), Color::Green),
                    tok("\n"@, Color::White),
                ] + spec_bytes_lines((self.addr + off) as nat, bytes@.skip(off as int)));
                assert(stream@ + spec_bytes_lines((self.addr + off) as nat, bytes@.skip(off as int))
                    =~= head + spec_bytes_lines(self.addr as nat, bytes@));
            }
        }
        proof {
            assert(spec_bytes_lines((self.addr + len) as nat, bytes@.skip(len as int))
                =~= Seq::<TokenView>::empty());
            assert(final(stream)@ =~= final(stream)@ + Seq::<TokenView>::empty());
        }
    }
}

proof fn lemma_fields_tokens_snoc(fields: Seq<RecordFieldView>, i: int, theme: Theme)
    requires
        0 <= i < fields.len(),
    ensures
        spec_fields_tokens(fields.take(i + 1), theme) == spec_fields_tokens(fields.take(i), theme)
            + seq![
            spec_addr_prefix(fields[i].addr as nat),
            tok("    "@, Color::White),
            tok(fields[i].name, theme.field),
            tok(": "@, Color::White),
            tok(fields[i].tipe_name, theme.tipe),
            tok(" = "@, theme.delimiter),
            tok(fields[i].value, theme.constant),
            tok("\n"@, Color::White),
        ],
    decreases i,
{
    if i == 0 {
        assert(fields.take(1).drop_first() =~= Seq::<RecordFieldView>::empty());
        assert(fields.take(0) =~= Seq::<RecordFieldView>::empty());
        assert(spec_fields_tokens(fields.take(1), theme) =~= spec_fields_tokens(
            fields.take(0),
            theme,
        ) + seq![
            spec_addr_prefix(fields[0].addr as nat),
            tok("    "@, Color::White),
            tok(fields[0].name, theme.field),
            tok(": "@, Color::White),
            tok(fields[0].tipe_name, theme.tipe),
            tok(" = "@, theme.delimiter),
            tok(fields[0].value, theme.constant),
            tok("\n"@, Color::White),
        ]);
    } else {
        lemma_fields_tokens_snoc(fields.drop_first(), i - 1, theme);
        assert(fields.take(i + 1).drop_first() =~= fields.drop_first().take(i));
        assert(fields.take(i).drop_first() =~= fields.drop_first().take(i - 1));
        assert(fields.drop_first()[i - 1] == fields[i]);
        assert(spec_fields_tokens(fields.take(i + 1), theme) =~= spec_fields_tokens(
            fields.take(i),
            theme,
        ) + seq![
            spec_addr_prefix(fields[i].addr as nat),
            tok("    "@, Color::White),
            tok(fields[i].name, theme.field),
            tok(": "@, Color::White),
            tok(fields[i].tipe_name, theme.tipe),
            tok(" = "@, theme.delimiter),
            tok(fields[i].value, theme.constant),
            tok("\n"@, Color::White),
        ]);
    }
}


use crate::endian::{read_value, spec_read_value, Endianness};
use crate::processor::{lemma_raw_run_past, spec_assoc, spec_raw_run_end, Processor};
use crate::sections::SectionKind;
use crate::symbols::{first_with, has_key};

/// The first section that starts exactly at `addr`.
pub open spec fn spec_first_start(s: Seq<SectionView>, addr: usize) -> Option<SectionView>
    decreases s.len(),
{
    if s.len() == 0 {
        None
    } else if s[0].start == addr {
        Some(s[0])
    } else {
        spec_first_start(s.drop_first(), addr)
    }
}

/// The first section that ends exactly at `addr`.
pub open spec fn spec_first_end(s: Seq<SectionView>, addr: usize) -> Option<SectionView>
    decreases s.len(),
{
    if s.len() == 0 {
        None
    } else if s[0].end == addr {
        Some(s[0])
    } else {
        spec_first_end(s.drop_first(), addr)
    }
}

pub open spec fn start_marker(addr: usize, sec: SectionView) -> BlockView {
    BlockView { addr, content: BlockContentView::SectionStart { section: sec } }
}

pub open spec fn end_marker(addr: usize, sec: SectionView) -> BlockView {
    BlockView { addr, content: BlockContentView::SectionEnd { section: sec } }
}

/// The section markers emitted at `addr`: a closing marker before an
/// opening one where a section ends exactly where another starts, and an
/// immediate closing marker after opening a section with no bytes.
pub open spec fn spec_marker_blocks(s: Seq<SectionView>, addr: usize) -> Seq<BlockView> {
    match (spec_first_start(s, addr), spec_first_end(s, addr)) {
        (Some(starting), Some(ending)) => {
            let opening = seq![end_marker(addr, ending), start_marker(addr, starting)];
            if starting.bytes.len() == 0 {
                opening + seq![end_marker(addr, starting)]
            } else {
                opening
            }
        },
        (Some(starting), None) => seq![start_marker(addr, starting)],
        (None, Some(ending)) => seq![end_marker(addr, ending)],
        (None, None) => Seq::empty(),
    }
}

/// The label block shown over decodable code: the function named exactly
/// at `addr`, suppressed at the section's own start.
pub open spec fn spec_label_blocks(p: &Processor, sec: SectionView, addr: usize) -> Seq<BlockView> {
    if addr != sec.start && has_key(p.index@, addr) {
        seq![
            BlockView {
                addr,
                content: BlockContentView::Label { symbol: first_with(p.index@, addr).1 },
            },
        ]
    } else {
        Seq::empty()
    }
}

/// The content of a code boundary: a decoded instruction or decode error
/// (with an optional label over it), or the raw-byte run up to the next
/// decodable or labeled address.
pub open spec fn spec_code_blocks(p: &Processor, sec: SectionView, addr: usize) -> Seq<BlockView> {
    let hex_max = (3 * p.max_instruction_width + 1) as nat;
    if spec_assoc(p.inst_view(), addr) is Some {
        let inst = spec_assoc(p.inst_view(), addr)->0;
        spec_label_blocks(p, sec, addr) + seq![
            BlockView {
                addr,
                content: BlockContentView::Instruction {
                    inst: inst.tokens,
                    bytes: spec_hex_bytes_truncated(
                        sec.spec_bytes_by_addr(addr as nat, inst.width as nat),
                        hex_max,
                        true,
                    ),
                },
            },
        ]
    } else if spec_assoc(p.err_view(), addr) is Some {
        let err = spec_assoc(p.err_view(), addr)->0;
        spec_label_blocks(p, sec, addr) + seq![
            BlockView {
                addr,
                content: BlockContentView::Error {
                    err: err.kind,
                    bytes: spec_hex_bytes_truncated(
                        sec.spec_bytes_by_addr(addr as nat, err.size as nat),
                        hex_max,
                        true,
                    ),
                },
            },
        ]
    } else {
        let run_end = spec_raw_run_end(p, sec, addr as nat, addr as nat);
        seq![
            BlockView {
                addr,
                content: BlockContentView::Bytes {
                    bytes: sec.spec_bytes_by_addr(addr as nat, (run_end - addr) as nat),
                },
            },
        ]
    }
}

/// The longest NUL-free prefix: the string's bytes, terminator excluded.
pub open spec fn spec_prefix_to_nul(s: Seq<u8>) -> Seq<u8>
    decreases s.len(),
{
    if s.len() == 0 {
        s
    } else if s[0] == 0 {
        Seq::empty()
    } else {
        seq![s[0]] + spec_prefix_to_nul(s.drop_first())
    }
}

/// The function a pointer-like slot resolves to, suppressed at the
/// section's own start.
pub open spec fn spec_slot_symbol(p: &Processor, sec: SectionView, addr: usize) -> Option<
    FunctionView,
> {
    if addr != sec.start && has_key(p.index@, addr) {
        Some(first_with(p.index@, addr).1)
    } else {
        None
    }
}

/// The content of one pointer slot: the fixed-width value under the
/// image's byte order, or nothing where the bytes are not available.
pub open spec fn spec_pointer_blocks(
    p: &Processor,
    sec: SectionView,
    addr: usize,
    size: nat,
) -> Seq<BlockView> {
    let bytes = sec.spec_bytes_by_addr(addr as nat, size);
    if bytes.len() == size {
        seq![
            BlockView {
                addr,
                content: BlockContentView::Pointer {
                    value: spec_read_value(bytes, p.endianness) as u64,
                    symbol: spec_slot_symbol(p, sec, addr),
                },
            },
        ]
    } else {
        Seq::empty()
    }
}

/// The content of one global-offset-table slot: the slot's width and
/// the owning symbol, or the anonymous function where none resolves.
pub open spec fn spec_got_blocks(p: &Processor, sec: SectionView, addr: usize, size: usize) -> Seq<
    BlockView,
> {
    let symbol = match spec_slot_symbol(p, sec, addr) {
        Some(f) => f,
        None => crate::symbols::spec_default_function(),
    };
    seq![BlockView { addr, content: BlockContentView::Got { size, symbol } }]
}

/// One field of a fixed-layout record, read under the image's byte order
/// and rendered as hex.
pub open spec fn spec_record_field(
    p: &Processor,
    sec: SectionView,
    addr: usize,
    off: nat,
    width: nat,
    name: Seq<char>,
    tipe: Seq<char>,
) -> RecordFieldView {
    RecordFieldView {
        addr: (addr + off) as usize,
        name: name,
        tipe_name: tipe,
        value: spec_value_hex(
            spec_read_value(
                sec.bytes.subrange(
                    addr - sec.start + off,
                    addr - sec.start + off + width,
                ),
                p.endianness,
            ),
        ),
    }
}

/// Whether a whole record of `size` bytes is backed by file data at `addr`.
pub open spec fn spec_record_in_bounds(sec: SectionView, addr: usize, size: nat) -> bool {
    &&& sec.start <= addr
    &&& addr - sec.start + size <= sec.bytes.len()
}

/// The fields of one record kind, in declaration order.
pub open spec fn spec_record_fields(
    p: &Processor,
    sec: SectionView,
    addr: usize,
    kind: SectionKind,
) -> Seq<RecordFieldView> {
    match kind {
        SectionKind::ExceptionDirEntry => seq![
            spec_record_field(p, sec, addr, 0, 4, "begin_addr"@, "u32"@),
            spec_record_field(p, sec, addr, 4, 4, "end_addr"@, "u32"@),
            spec_record_field(p, sec, addr, 8, 4, "unwind_info"@, "u32"@),
        ],
        SectionKind::Elf32Sym => seq![
            spec_record_field(p, sec, addr, 0, 4, "st_name"@, "u32"@),
            spec_record_field(p, sec, addr, 4, 4, "st_value"@, "u32"@),
            spec_record_field(p, sec, addr, 8, 4, "st_size"@, "u32"@),
            spec_record_field(p, sec, addr, 12, 1, "st_info"@, "u8"@),
            spec_record_field(p, sec, addr, 13, 1, "st_other"@, "u8"@),
            spec_record_field(p, sec, addr, 14, 2, "st_shndx"@, "u16"@),
        ],
        SectionKind::Elf64Sym => seq![
            spec_record_field(p, sec, addr, 0, 4, "st_name"@, "u32"@),
            spec_record_field(p, sec, addr, 4, 1, "st_info"@, "u8"@),
            spec_record_field(p, sec, addr, 5, 1, "st_other"@, "u8"@),
            spec_record_field(p, sec, addr, 6, 2, "st_shndx"@, "u16"@),
            spec_record_field(p, sec, addr, 8, 8, "st_value"@, "u64"@),
            spec_record_field(p, sec, addr, 16, 8, "st_size"@, "u64"@),
        ],
        SectionKind::Elf32Dyn => seq![
            spec_record_field(p, sec, addr, 0, 4, "d_tag"@, "u32"@),
            spec_record_field(p, sec, addr, 4, 4, "d_val"@, "u32"@),
        ],
        SectionKind::Elf64Dyn => seq![
            spec_record_field(p, sec, addr, 0, 8, "d_tag"@, "u64"@),
            spec_record_field(p, sec, addr, 8, 8, "d_val"@, "u64"@),
        ],
        _ => Seq::empty(),
    }
}

/// The display name of a record kind.
pub open spec fn spec_record_ident(kind: SectionKind) -> Seq<char> {
    match kind {
        SectionKind::ExceptionDirEntry => "ExceptionDirectoryEntry"@,
        SectionKind::Elf32Sym => "Elf32Sym"@,
        SectionKind::Elf64Sym => "Elf64Sym"@,
        SectionKind::Elf32Dyn => "Elf32Dyn"@,
        SectionKind::Elf64Dyn => "Elf64Dyn"@,
        _ => ""@,
    }
}

/// The content of one structured record, or nothing where the record is
/// not fully backed by file data.
pub open spec fn spec_record_blocks(p: &Processor, sec: SectionView, addr: usize) -> Seq<
    BlockView,
> {
    if spec_record_in_bounds(sec, addr, sec.kind.spec_stride()) {
        seq![
            BlockView {
                addr,
                content: BlockContentView::DataStructure {
                    ident: spec_record_ident(sec.kind),
                    fields: spec_record_fields(p, sec, addr, sec.kind),
                },
            },
        ]
    } else {
        Seq::empty()
    }
}

/// The content block (or blocks) emitted at a boundary inside a section.
pub open spec fn spec_content_blocks(p: &Processor, sec: SectionView, addr: usize) -> Seq<
    BlockView,
> {
    match sec.kind {
        SectionKind::Code => spec_code_blocks(p, sec, addr),
        SectionKind::Ptr32 => spec_pointer_blocks(p, sec, addr, 4),
        SectionKind::Ptr64 => spec_pointer_blocks(p, sec, addr, 8),
        SectionKind::Got32 => spec_got_blocks(p, sec, addr, 4),
        SectionKind::Got64 => spec_got_blocks(p, sec, addr, 8),
        SectionKind::CString => seq![
            BlockView {
                addr,
                content: BlockContentView::CString {
                    bytes: spec_prefix_to_nul(
                        sec.spec_bytes_by_addr(addr as nat, usize::MAX as nat),
                    ),
                },
            },
        ],
        SectionKind::ExceptionDirEntry => spec_record_blocks(p, sec, addr),
        SectionKind::Elf32Sym => spec_record_blocks(p, sec, addr),
        SectionKind::Elf64Sym => spec_record_blocks(p, sec, addr),
        SectionKind::Elf32Dyn => spec_record_blocks(p, sec, addr),
        SectionKind::Elf64Dyn => spec_record_blocks(p, sec, addr),
        _ => seq![
            BlockView {
                addr,
                content: BlockContentView::Bytes {
                    bytes: sec.spec_bytes_by_addr(
                        addr as nat,
                        crate::sections::BYTES_BLOCK_SIZE as nat,
                    ),
                },
            },
        ],
    }
}

/// Everything `parse_blocks` yields at one boundary address: nothing for
/// an unmapped address or an unloaded section; otherwise the section
/// markers, then — except at a closing address — the content.
pub open spec fn spec_parse_blocks(p: &Processor, addr: usize) -> Seq<BlockView> {
    match Processor::spec_section_at(p.sections_view(), addr) {
        None => Seq::empty(),
        Some(sec) => {
            if sec.kind == SectionKind::Unloaded {
                Seq::empty()
            } else {
                let markers = spec_marker_blocks(p.sections_view(), addr);
                if addr == sec.end {
                    markers
                } else {
                    markers + spec_content_blocks(p, sec, addr)
                }
            }
        },
    }
}

pub open spec fn blocks_view(v: Seq<Block>) -> Seq<BlockView> {
    Seq::new(v.len(), |i: int| v[i]@)
}

/// Clones a token list, preserving its abstract value.
fn clone_token_vec(tokens: &Vec<Token>) -> (r: Vec<Token>)
    ensures
        Seq::new(r@.len(), |i: int| r@[i]@) == Seq::new(tokens@.len(), |i: int| tokens@[i]@),
{
    let mut out: Vec<Token> = Vec::new();
    let mut i: usize = 0;
    while i < tokens.len()
        invariant
            i <= tokens@.len(),
            out@.len() == i,
            forall|j: int| 0 <= j < i ==> out@[j]@ == tokens@[j]@,
        decreases tokens@.len() - i,
    {
        out.push(tokens[i].clone());
        i = i + 1;
    }
    proof {
        assert(Seq::new(out@.len(), |i: int| out@[i]@) =~= Seq::new(
            tokens@.len(),
            |i: int| tokens@[i]@,
        ));
    }
    out
}

impl Processor {
    /// The first section starting exactly at `addr`.
    fn find_section_starting(&self, addr: usize) -> (r: Option<&Section>)
        ensures
            match r {
                Some(sec) => spec_first_start(self.sections_view(), addr) == Some(sec@),
                None => spec_first_start(self.sections_view(), addr) is None,
            },
    {
        let mut i: usize = 0;
        proof {
            assert(self.sections_view().skip(0) =~= self.sections_view());
        }
        while i < self.sections.len()
            invariant
                i <= self.sections@.len(),
                spec_first_start(self.sections_view(), addr) == spec_first_start(
                    self.sections_view().skip(i as int),
                    addr,
                ),
            decreases self.sections@.len() - i,
        {
            proof {
                assert(self.sections_view().skip(i as int)[0] == self.sections_view()[i as int]);
            }
            if self.sections[i].start == addr {
                return Some(&self.sections[i]);
            }
            i = i + 1;
            proof {
                assert(self.sections_view().skip(i as int - 1).drop_first()
                    =~= self.sections_view().skip(i as int));
            }
        }
        proof {
            assert(self.sections_view().skip(self.sections@.len() as int).len() == 0);
        }
        None
    }

    /// The first section ending exactly at `addr`.
    fn find_section_ending(&self, addr: usize) -> (r: Option<&Section>)
        ensures
            match r {
                Some(sec) => spec_first_end(self.sections_view(), addr) == Some(sec@),
                None => spec_first_end(self.sections_view(), addr) is None,
            },
    {
        let mut i: usize = 0;
        proof {
            assert(self.sections_view().skip(0) =~= self.sections_view());
        }
        while i < self.sections.len()
            invariant
                i <= self.sections@.len(),
                spec_first_end(self.sections_view(), addr) == spec_first_end(
                    self.sections_view().skip(i as int),
                    addr,
                ),
            decreases self.sections@.len() - i,
        {
            proof {
                assert(self.sections_view().skip(i as int)[0] == self.sections_view()[i as int]);
            }
            if self.sections[i].end == addr {
                return Some(&self.sections[i]);
            }
            i = i + 1;
            proof {
                assert(self.sections_view().skip(i as int - 1).drop_first()
                    =~= self.sections_view().skip(i as int));
            }
        }
        proof {
            assert(self.sections_view().skip(self.sections@.len() as int).len() == 0);
        }
        None
    }

    /// A label over decodable code, where the index names this address.
    fn push_label(&self, addr: usize, section: &Section, blocks: &mut Vec<Block>)
        requires
            self.wf(),
        ensures
            blocks_view(final(blocks)@) == blocks_view(old(blocks)@) + spec_label_blocks(
                self,
                section@,
                addr,
            ),
    {
        let ghost pre = blocks_view(blocks@);
        if let Some(f) = self.get_symbol_by_addr(addr, section) {
            let symbol = f.clone();
            blocks.push(Block { addr, content: BlockContent::Label { symbol } });
            proof {
                assert(blocks_view(blocks@) =~= pre + spec_label_blocks(self, section@, addr));
            }
        } else {
            proof {
                assert(blocks_view(blocks@) =~= pre + spec_label_blocks(self, section@, addr));
            }
        }
    }

    /// Classifies one code boundary: an instruction, a decode error, or a
    /// raw-byte run; labeled where the index names the address.
    fn parse_code(&self, addr: usize, section: &Section, blocks: &mut Vec<Block>)
        requires
            self.wf(),
            section@.start <= addr < section@.end,
        ensures
            blocks_view(final(blocks)@) == blocks_view(old(blocks)@) + spec_code_blocks(
                self,
                section@,
                addr,
            ),
    {
        let hex_max = 3 * self.max_instruction_width + 1;
        let inst_data: Option<(usize, Vec<Token>)> = match self.instruction_by_addr(addr) {
            Some(inst) => Some((inst.width, clone_token_vec(&inst.tokens))),
            None => None,
        };
        if let Some((width, tokens)) = inst_data {
            proof {
                crate::processor::lemma_assoc_member(self.inst_view(), addr);
            }
            self.push_label(addr, section, blocks);
            let ghost mid = blocks_view(blocks@);
            let raw = section.bytes_by_addr(addr, width);
            proof {
                crate::hex::lemma_hex_bytes_len(raw@);
                assert(raw@.len() <= width);
            }
            let bytes = encode_hex_bytes_truncated(raw, hex_max, true);
            let block = Block { addr, content: BlockContent::Instruction { inst: tokens, bytes } };
            let ghost bv = block@;
            blocks.push(block);
            proof {
                let iv = spec_assoc(self.inst_view(), addr)->0;
                assert(bv.content == BlockContentView::Instruction {
                    inst: iv.tokens,
                    bytes: spec_hex_bytes_truncated(
                        section@.spec_bytes_by_addr(addr as nat, iv.width as nat),
                        (3 * self.max_instruction_width + 1) as nat,
                        true,
                    ),
                });
                assert(spec_code_blocks(self, section@, addr) =~= spec_label_blocks(
                    self,
                    section@,
                    addr,
                ) + seq![bv]);
                assert(blocks_view(blocks@) =~= mid.push(bv));
                assert(blocks_view(blocks@) =~= blocks_view(old(blocks)@) + spec_code_blocks(
                    self,
                    section@,
                    addr,
                ));
            }
            return ;
        }
        let err_data: Option<(usize, String)> = match self.error_by_addr(addr) {
            Some(err) => Some((err.size, err.kind.clone())),
            None => None,
        };
        if let Some((size, kind)) = err_data {
            proof {
                crate::processor::lemma_assoc_member(self.err_view(), addr);
            }
            self.push_label(addr, section, blocks);
            let raw = section.bytes_by_addr(addr, size);
            proof {
                crate::hex::lemma_hex_bytes_len(raw@);
                assert(raw@.len() <= size);
            }
            let bytes = encode_hex_bytes_truncated(raw, hex_max, true);
            let ghost mid = blocks_view(blocks@);
            let block = Block { addr, content: BlockContent::Error { err: kind, bytes } };
            let ghost bv = block@;
            blocks.push(block);
            proof {
                let ev = spec_assoc(self.err_view(), addr)->0;
                assert(bv.content == BlockContentView::Error {
                    err: ev.kind,
                    bytes: spec_hex_bytes_truncated(
                        section@.spec_bytes_by_addr(addr as nat, ev.size as nat),
                        (3 * self.max_instruction_width + 1) as nat,
                        true,
                    ),
                });
                assert(spec_code_blocks(self, section@, addr) =~= spec_label_blocks(
                    self,
                    section@,
                    addr,
                ) + seq![bv]);
                assert(blocks_view(blocks@) =~= mid.push(bv));
                assert(blocks_view(blocks@) =~= blocks_view(old(blocks)@) + spec_code_blocks(
                    self,
                    section@,
                    addr,
                ));
            }
            return ;
        }
        // no decodable content here: a raw-byte run up to the next
        // decodable or labeled address
        let mut baddr = addr;
        loop
            invariant_except_break
                self.wf(),
                addr <= baddr <= section@.end,
                spec_raw_run_end(self, section@, addr as nat, addr as nat) == spec_raw_run_end(
                    self,
                    section@,
                    addr as nat,
                    baddr as nat,
                ),
            ensures
                addr <= baddr <= section@.end,
                baddr == spec_raw_run_end(self, section@, addr as nat, addr as nat),
            decreases section@.end - baddr,
        {
            if baddr == section.end {
                break ;
            }
            let stop = match self.instruction_by_addr(baddr) {
                Some(_) => true,
                None => match self.error_by_addr(baddr) {
                    Some(_) => true,
                    None => match self.index.get_by_addr(baddr) {
                        Some(_) => baddr != addr,
                        None => false,
                    },
                },
            };
            if stop {
                break ;
            }
            baddr = baddr + 1;
        }
        proof {
            lemma_raw_run_past(self, section@, addr as nat, (addr + 1) as nat);
            assert(baddr > addr);
        }
        let run = section.bytes_by_addr(addr, baddr - addr);
        let bytes = vstd::slice::slice_to_vec(run);
        blocks.push(Block { addr, content: BlockContent::Bytes { bytes } });
        proof {
            assert(blocks_view(blocks@) =~= blocks_view(old(blocks)@) + spec_code_blocks(
                self,
                section@,
                addr,
            ));
        }
    }

    /// Classifies one pointer slot; a slot not fully backed by file data
    /// yields nothing rather than failing.
    fn parse_pointer(&self, addr: usize, section: &Section, size: usize, blocks: &mut Vec<Block>)
        requires
            self.wf(),
            size == 4 || size == 8,
        ensures
            blocks_view(final(blocks)@) == blocks_view(old(blocks)@) + spec_pointer_blocks(
                self,
                section@,
                addr,
                size as nat,
            ),
    {
        let raw = section.bytes_by_addr(addr, size);
        if raw.len() != size {
            proof {
                assert(blocks_view(blocks@) =~= blocks_view(old(blocks)@) + spec_pointer_blocks(
                    self,
                    section@,
                    addr,
                    size as nat,
                ));
            }
            return ;
        }
        let value = read_value(raw, 0, size, self.endianness);
        proof {
            assert(raw@.subrange(0, size as int) =~= raw@);
        }
        let symbol: Option<Function> = match self.get_symbol_by_addr(addr, section) {
            Some(f) => Some(f.clone()),
            None => None,
        };
        blocks.push(Block { addr, content: BlockContent::Pointer { value, symbol } });
        proof {
            assert(blocks_view(blocks@) =~= blocks_view(old(blocks)@) + spec_pointer_blocks(
                self,
                section@,
                addr,
                size as nat,
            ));
        }
    }

    /// Classifies one global-offset-table slot: its width and the owning
    /// symbol, or the anonymous function where none resolves.
    fn parse_got(&self, addr: usize, section: &Section, size: usize, blocks: &mut Vec<Block>)
        requires
            self.wf(),
        ensures
            blocks_view(final(blocks)@) == blocks_view(old(blocks)@) + spec_got_blocks(
                self,
                section@,
                addr,
                size,
            ),
    {
        let symbol = match self.get_symbol_by_addr(addr, section) {
            Some(f) => f.clone(),
            None => Function::default(),
        };
        blocks.push(Block { addr, content: BlockContent::Got { size, symbol } });
        proof {
            assert(blocks_view(blocks@) =~= blocks_view(old(blocks)@) + spec_got_blocks(
                self,
                section@,
                addr,
                size,
            ));
        }
    }

    /// Classifies one C string: the bytes up to the first NUL, or to the
    /// end of the available bytes where none terminates it.
    fn parse_cstring(&self, addr: usize, section: &Section, blocks: &mut Vec<Block>)
        ensures
            blocks_view(final(blocks)@) == blocks_view(old(blocks)@) + seq![
                BlockView {
                    addr,
                    content: BlockContentView::CString {
                        bytes: spec_prefix_to_nul(
                            section@.spec_bytes_by_addr(addr as nat, usize::MAX as nat),
                        ),
                    },
                },
            ],
    {
        let raw = section.bytes_by_addr(addr, usize::MAX);
        let len = raw.len();
        let mut i: usize = 0;
        proof {
            assert(raw@.skip(0) =~= raw@);
        }
        while i < len
            invariant
                i <= len,
                len == raw@.len(),
                spec_prefix_to_nul(raw@) == raw@.take(i as int) + spec_prefix_to_nul(
                    raw@.skip(i as int),
                ),
                forall|k: int| 0 <= k < i ==> raw@[k] != 0,
            ensures
                i <= len,
                len == raw@.len(),
                spec_prefix_to_nul(raw@) == raw@.take(i as int) + spec_prefix_to_nul(
                    raw@.skip(i as int),
                ),
                i == len || raw@[i as int] == 0,
            decreases len - i,
        {
            if raw[i] == 0 {
                break ;
            }
            i = i + 1;
            proof {
                assert(raw@.skip(i as int - 1).drop_first() =~= raw@.skip(i as int));
                assert(raw@.skip(i as int - 1)[0] == raw@[i as int - 1]);
                assert(seq![raw@[i - 1]] + spec_prefix_to_nul(raw@.skip(i as int))
                    =~= spec_prefix_to_nul(raw@.skip(i as int - 1)));
                assert(raw@.take(i as int) =~= raw@.take(i as int - 1) + seq![raw@[i - 1]]);
                assert(raw@.take(i as int) + spec_prefix_to_nul(raw@.skip(i as int))
                    =~= spec_prefix_to_nul(raw@));
            }
        }
        proof {
            if i < len {
                assert(raw@.skip(i as int)[0] == 0);
                assert(spec_prefix_to_nul(raw@.skip(i as int)) =~= Seq::<u8>::empty());
            } else {
                assert(raw@.skip(i as int).len() == 0);
            }
            assert(raw@.take(i as int) + Seq::<u8>::empty() =~= raw@.take(i as int));
            assert(spec_prefix_to_nul(raw@) =~= raw@.take(i as int));
        }
        let prefix = vstd::slice::slice_subrange(raw, 0, i);
        let bytes = vstd::slice::slice_to_vec(prefix);
        proof {
            assert(prefix@ =~= raw@.take(i as int));
        }
        blocks.push(Block { addr, content: BlockContent::CString { bytes } });
        proof {
            assert(blocks_view(blocks@) =~= blocks_view(old(blocks)@) + seq![
                BlockView {
                    addr,
                    content: BlockContentView::CString {
                        bytes: spec_prefix_to_nul(
                            section@.spec_bytes_by_addr(addr as nat, usize::MAX as nat),
                        ),
                    },
                },
            ]);
        }
    }

    /// Reads one record field at `addr + off` under the image's byte
    /// order, rendered as hex.
    fn read_field(
        &self,
        section: &Section,
        addr: usize,
        off: usize,
        width: usize,
        name: &'static str,
        tipe: &'static str,
    ) -> (r: RecordField)
        requires
            section@.wf(),
            section@.start <= addr,
            addr - section@.start + off + width <= section@.bytes.len(),
            width <= 8,
        ensures
            r@ == spec_record_field(
                self,
                section@,
                addr,
                off as nat,
                width as nat,
                name@,
                tipe@,
            ),
    {
        let base = addr - section.start + off;
        let v = read_value(section.bytes.as_slice(), base, width, self.endianness);
        RecordField { addr: addr + off, name, tipe_name: tipe, value: crate::hex::value_hex64(v) }
    }

    /// Classifies one structured record; a record not fully backed by
    /// file data yields nothing rather than failing.
    fn parse_datastructure(&self, addr: usize, section: &Section, blocks: &mut Vec<Block>)
        requires
            self.wf(),
            section@.wf(),
            section@.start <= addr,
            section@.kind == SectionKind::ExceptionDirEntry || section@.kind
                == SectionKind::Elf32Sym || section@.kind == SectionKind::Elf64Sym || section@.kind
                == SectionKind::Elf32Dyn || section@.kind == SectionKind::Elf64Dyn,
        ensures
            blocks_view(final(blocks)@) == blocks_view(old(blocks)@) + spec_record_blocks(
                self,
                section@,
                addr,
            ),
    {
        let size = section.kind.stride();
        let off = addr - section.start;
        if off > section.bytes.len() || section.bytes.len() - off < size {
            proof {
                assert(blocks_view(blocks@) =~= blocks_view(old(blocks)@) + spec_record_blocks(
                    self,
                    section@,
                    addr,
                ));
            }
            return ;
        }
        let mut fields: Vec<RecordField> = Vec::new();
        let ident: &'static str;
        match section.kind {
            SectionKind::ExceptionDirEntry => {
                ident = "ExceptionDirectoryEntry";
                fields.push(self.read_field(section, addr, 0, 4, "begin_addr", "u32"));
                fields.push(self.read_field(section, addr, 4, 4, "end_addr", "u32"));
                fields.push(self.read_field(section, addr, 8, 4, "unwind_info", "u32"));
            },
            SectionKind::Elf32Sym => {
                ident = "Elf32Sym";
                fields.push(self.read_field(section, addr, 0, 4, "st_name", "u32"));
                fields.push(self.read_field(section, addr, 4, 4, "st_value", "u32"));
                fields.push(self.read_field(section, addr, 8, 4, "st_size", "u32"));
                fields.push(self.read_field(section, addr, 12, 1, "st_info", "u8"));
                fields.push(self.read_field(section, addr, 13, 1, "st_other", "u8"));
                fields.push(self.read_field(section, addr, 14, 2, "st_shndx", "u16"));
            },
            SectionKind::Elf64Sym => {
                ident = "Elf64Sym";
                fields.push(self.read_field(section, addr, 0, 4, "st_name", "u32"));
                fields.push(self.read_field(section, addr, 4, 1, "st_info", "u8"));
                fields.push(self.read_field(section, addr, 5, 1, "st_other", "u8"));
                fields.push(self.read_field(section, addr, 6, 2, "st_shndx", "u16"));
                fields.push(self.read_field(section, addr, 8, 8, "st_value", "u64"));
                fields.push(self.read_field(section, addr, 16, 8, "st_size", "u64"));
            },
            SectionKind::Elf32Dyn => {
                ident = "Elf32Dyn";
                fields.push(self.read_field(section, addr, 0, 4, "d_tag", "u32"));
                fields.push(self.read_field(section, addr, 4, 4, "d_val", "u32"));
            },
            _ => {
                ident = "Elf64Dyn";
                fields.push(self.read_field(section, addr, 0, 8, "d_tag", "u64"));
                fields.push(self.read_field(section, addr, 8, 8, "d_val", "u64"));
            },
        }
        proof {
            assert(Seq::new(fields@.len(), |i: int| fields@[i]@) =~= spec_record_fields(
                self,
                section@,
                addr,
                section@.kind,
            ));
        }
        blocks.push(Block { addr, content: BlockContent::DataStructure { ident, fields } });
        proof {
            assert(blocks_view(blocks@) =~= blocks_view(old(blocks)@) + spec_record_blocks(
                self,
                section@,
                addr,
            ));
        }
    }

    /// Classifies one boundary of an unrecognized section kind: a chunk
    /// of raw bytes.
    fn parse_raw(&self, addr: usize, section: &Section, blocks: &mut Vec<Block>)
        ensures
            blocks_view(final(blocks)@) == blocks_view(old(blocks)@) + seq![
                BlockView {
                    addr,
                    content: BlockContentView::Bytes {
                        bytes: section@.spec_bytes_by_addr(
                            addr as nat,
                            crate::sections::BYTES_BLOCK_SIZE as nat,
                        ),
                    },
                },
            ],
    {
        let raw = section.bytes_by_addr(addr, crate::sections::BYTES_BLOCK_SIZE);
        let bytes = vstd::slice::slice_to_vec(raw);
        blocks.push(Block { addr, content: BlockContent::Bytes { bytes } });
        proof {
            assert(blocks_view(blocks@) =~= blocks_view(old(blocks)@) + seq![
                BlockView {
                    addr,
                    content: BlockContentView::Bytes {
                        bytes: section@.spec_bytes_by_addr(
                            addr as nat,
                            crate::sections::BYTES_BLOCK_SIZE as nat,
                        ),
                    },
                },
            ]);
        }
    }

    /// Classifies one boundary address into its renderable blocks: the
    /// section markers opening or closing here, then the content block of
    /// the section's kind. An unmapped address or an unloaded section
    /// yields nothing rather than failing.
    pub fn parse_blocks(&self, addr: usize) -> (r: Vec<Block>)
        requires
            self.wf(),
        ensures
            blocks_view(r@) == spec_parse_blocks(self, addr),
    {
        let mut blocks: Vec<Block> = Vec::new();
        let section = match self.section_by_addr(addr) {
            Some(s) => s,
            None => {
                proof {
                    assert(blocks_view(blocks@) =~= spec_parse_blocks(self, addr));
                }
                return blocks;
            },
        };
        if section.kind == SectionKind::Unloaded {
            proof {
                assert(blocks_view(blocks@) =~= spec_parse_blocks(self, addr));
            }
            return blocks;
        }
        let starting = self.find_section_starting(addr);
        let ending = self.find_section_ending(addr);
        match (starting, ending) {
            (Some(start_sec), Some(end_sec)) => {
                blocks.push(
                    Block { addr, content: BlockContent::SectionEnd { section: end_sec.clone() } },
                );
                blocks.push(
                    Block {
                        addr,
                        content: BlockContent::SectionStart { section: start_sec.clone() },
                    },
                );
                if start_sec.bytes.is_empty() {
                    blocks.push(
                        Block {
                            addr,
                            content: BlockContent::SectionEnd { section: start_sec.clone() },
                        },
                    );
                }
            },
            (Some(start_sec), None) => {
                blocks.push(
                    Block {
                        addr,
                        content: BlockContent::SectionStart { section: start_sec.clone() },
                    },
                );
            },
            (None, Some(end_sec)) => {
                blocks.push(
                    Block { addr, content: BlockContent::SectionEnd { section: end_sec.clone() } },
                );
            },
            (None, None) => {},
        }
        proof {
            assert(blocks_view(blocks@) =~= spec_marker_blocks(self.sections_view(), addr));
        }
        if addr == section.end {
            return blocks;
        }
        match section.kind {
            SectionKind::Code => self.parse_code(addr, section, &mut blocks),
            SectionKind::Ptr32 => self.parse_pointer(addr, section, 4, &mut blocks),
            SectionKind::Ptr64 => self.parse_pointer(addr, section, 8, &mut blocks),
            SectionKind::Got32 => self.parse_got(addr, section, 4, &mut blocks),
            SectionKind::Got64 => self.parse_got(addr, section, 8, &mut blocks),
            SectionKind::CString => self.parse_cstring(addr, section, &mut blocks),
            SectionKind::ExceptionDirEntry => self.parse_datastructure(addr, section, &mut blocks),
            SectionKind::Elf32Sym => self.parse_datastructure(addr, section, &mut blocks),
            SectionKind::Elf64Sym => self.parse_datastructure(addr, section, &mut blocks),
            SectionKind::Elf32Dyn => self.parse_datastructure(addr, section, &mut blocks),
            SectionKind::Elf64Dyn => self.parse_datastructure(addr, section, &mut blocks),
            SectionKind::Unloaded => {},
            SectionKind::Debug => self.parse_raw(addr, section, &mut blocks),
            SectionKind::Raw => self.parse_raw(addr, section, &mut blocks),
        }
        proof {
            assert(blocks_view(blocks@) =~= spec_parse_blocks(self, addr));
        }
        blocks
    }
}

} // verus!
