use bite::blocks::{Block, BlockContent, Theme};
use bite::endian::Endianness;
use bite::processor::{DecodeError, DecodedInstruction, Processor};
use bite::sections::{Section, SectionKind};
use bite::symbols::{Index, PdbSymbols, SchemeAttempts, SymbolRecord};
use bite::tokens::{Color, Token, TokenStream};

fn section(kind: SectionKind, start: usize, end: usize, bytes: Vec<u8>) -> Section {
    Section {
        name: ".test".to_string(),
        ident: "TEST".to_string(),
        kind,
        start,
        end,
        bytes,
    }
}

fn processor(sections: Vec<Section>, index: Index) -> Processor {
    Processor {
        sections,
        index,
        instructions: Vec::new(),
        errors: Vec::new(),
        endianness: Endianness::Little,
        max_instruction_width: 4,
    }
}

fn indexed(symbols: &[(usize, &str)]) -> Index {
    let mut index = Index::new();
    let records: Vec<SymbolRecord> = symbols
        .iter()
        .map(|(addr, name)| SymbolRecord {
            addr: *addr,
            name: name.to_string(),
            module: None,
            attempts: SchemeAttempts::none(),
        })
        .collect();
    index.parse_debug(&records, &PdbSymbols::Absent, symbols[0].0).unwrap();
    index
}

fn theme() -> Theme {
    Theme {
        keyword: Color::Purple,
        tipe: Color::Blue,
        field: Color::Magenta,
        constant: Color::Green,
        delimiter: Color::Gray40,
    }
}

fn texts(stream: &TokenStream) -> Vec<String> {
    stream.inner.iter().map(|t| t.text.as_str().to_string()).collect()
}

#[test]
fn empty_backing_bytes_degenerate_to_start_and_end() {
    let p = processor(Vec::new(), Index::new());
    let sec = section(SectionKind::Ptr32, 0x100, 0x200, Vec::new());
    let boundaries = p.compute_section_boundaries(&sec);
    assert_eq!(boundaries, vec![0x100, 0x200]);
}

#[test]
fn unloaded_and_debug_sections_keep_their_start_and_end() {
    let p = processor(Vec::new(), Index::new());
    let unloaded = section(SectionKind::Unloaded, 0x100, 0x200, Vec::new());
    assert_eq!(p.compute_section_boundaries(&unloaded), vec![0x100, 0x200]);
    let debug = section(SectionKind::Debug, 0x100, 0x300, vec![0; 0x200]);
    let mut boundaries = p.compute_section_boundaries(&debug);
    boundaries.sort_unstable();
    boundaries.dedup();
    assert_eq!(boundaries, vec![0x100, 0x200, 0x300]);
}

#[test]
fn pointer_sections_split_at_their_stride() {
    let p = processor(Vec::new(), Index::new());
    let sec = section(SectionKind::Ptr32, 0, 16, vec![0; 16]);
    let mut boundaries = p.compute_section_boundaries(&sec);
    boundaries.sort_unstable();
    boundaries.dedup();
    assert_eq!(boundaries, vec![0, 4, 8, 12, 16]);
    let sec64 = section(SectionKind::Got64, 0, 16, vec![0; 16]);
    let mut boundaries64 = p.compute_section_boundaries(&sec64);
    boundaries64.sort_unstable();
    boundaries64.dedup();
    assert_eq!(boundaries64, vec![0, 8, 16]);
}

#[test]
fn cstring_boundaries_skip_consecutive_nul_runs() {
    let p = processor(Vec::new(), Index::new());
    let bytes = b"ab\0\0cd\0".to_vec();
    let sec = section(SectionKind::CString, 0x50, 0x57, bytes);
    let boundaries = p.compute_section_boundaries(&sec);
    assert!(boundaries.contains(&0x50));
    assert!(boundaries.contains(&0x54));
    assert!(!boundaries.contains(&0x53));
    assert!(boundaries.contains(&0x57));
}

#[test]
fn code_boundaries_follow_the_decoder_and_the_symbols() {
    let mut p = processor(Vec::new(), indexed(&[(0x105, "inner")]));
    p.instructions.push((
        0x100,
        DecodedInstruction { width: 2, tokens: vec![Token::from_str("nop", Color::White)] },
    ));
    p.errors.push((0x102, DecodeError { kind: "Incomplete".to_string(), size: 1 }));
    p.sections.push(section(SectionKind::Code, 0x100, 0x108, vec![0x90; 8]));
    let boundaries = p.compute_block_boundaries();
    // strictly increasing
    for pair in boundaries.windows(2) {
        assert!(pair[0] < pair[1]);
    }
    assert_eq!(boundaries, vec![0x100, 0x102, 0x103, 0x105, 0x108]);
}

#[test]
fn every_cataloged_section_reaches_the_final_boundary_set() {
    // unloaded and debug sections still contribute their start and end
    let p = processor(
        vec![
            section(SectionKind::Unloaded, 0x10, 0x20, Vec::new()),
            section(SectionKind::Debug, 0x20, 0x30, Vec::new()),
        ],
        Index::new(),
    );
    let boundaries = p.compute_block_boundaries();
    assert_eq!(boundaries, vec![0x10, 0x20, 0x30]);
}

#[test]
fn block_boundaries_are_sorted_and_deduplicated_across_sections() {
    let p = processor(
        vec![
            section(SectionKind::Ptr32, 0x10, 0x18, vec![0; 8]),
            section(SectionKind::CString, 0x18, 0x1b, b"a\0\0".to_vec()),
        ],
        Index::new(),
    );
    let boundaries = p.compute_block_boundaries();
    assert_eq!(boundaries, vec![0x10, 0x14, 0x18, 0x1b]);
}

#[test]
fn parse_blocks_emits_end_before_start_when_sections_touch() {
    let p = processor(
        vec![
            section(SectionKind::Ptr32, 0x10, 0x18, vec![0; 8]),
            section(SectionKind::CString, 0x18, 0x1b, b"a\0\0".to_vec()),
        ],
        Index::new(),
    );
    let blocks = p.parse_blocks(0x18);
    assert_eq!(blocks.len(), 3);
    assert!(matches!(blocks[0].content, BlockContent::SectionEnd { .. }));
    assert!(matches!(blocks[1].content, BlockContent::SectionStart { .. }));
    assert!(matches!(blocks[2].content, BlockContent::CString { .. }));
}

#[test]
fn parse_blocks_closes_an_empty_section_immediately() {
    let p = processor(
        vec![
            section(SectionKind::Ptr32, 0x10, 0x18, vec![0; 8]),
            section(SectionKind::Raw, 0x18, 0x20, Vec::new()),
        ],
        Index::new(),
    );
    let blocks = p.parse_blocks(0x18);
    assert!(matches!(blocks[0].content, BlockContent::SectionEnd { .. }));
    assert!(matches!(blocks[1].content, BlockContent::SectionStart { .. }));
    assert!(matches!(blocks[2].content, BlockContent::SectionEnd { .. }));
}

#[test]
fn parse_blocks_returns_nothing_for_unmapped_or_unloaded_addresses() {
    let p = processor(vec![section(SectionKind::Unloaded, 0x10, 0x20, Vec::new())], Index::new());
    assert!(p.parse_blocks(0x10).is_empty());
    assert!(p.parse_blocks(0x999).is_empty());
}

#[test]
fn pointer_blocks_read_the_declared_endianness() {
    let bytes = vec![0x06, 0x10, 0x40, 0x00];
    let p = processor(
        vec![section(SectionKind::Ptr32, 0x10, 0x14, bytes)],
        indexed(&[(0x401006, "callee")]),
    );
    let blocks = p.parse_blocks(0x10);
    // a start marker, then the pointer
    match &blocks[1].content {
        BlockContent::Pointer { value, symbol } => {
            assert_eq!(*value, 0x401006);
            assert!(symbol.is_none());
        },
        other => panic!("expected a pointer block, got {other:?}"),
    }
}

#[test]
fn pointer_blocks_name_the_function_at_the_slot() {
    let p = processor(
        vec![section(SectionKind::Ptr64, 0x10, 0x20, vec![0; 16])],
        indexed(&[(0x18, "slot_owner")]),
    );
    let blocks = p.parse_blocks(0x18);
    match &blocks[0].content {
        BlockContent::Pointer { symbol, .. } => {
            assert_eq!(symbol.as_ref().unwrap().as_str(), "slot_owner");
        },
        other => panic!("expected a pointer block, got {other:?}"),
    }
}

#[test]
fn got_blocks_default_to_the_anonymous_function() {
    let p = processor(vec![section(SectionKind::Got32, 0x10, 0x18, vec![0; 8])], Index::new());
    let blocks = p.parse_blocks(0x14);
    match &blocks[0].content {
        BlockContent::Got { size, symbol } => {
            assert_eq!(*size, 4);
            assert_eq!(symbol.as_str(), "");
        },
        other => panic!("expected a GOT block, got {other:?}"),
    }
}

#[test]
fn got64_slots_are_eight_bytes_wide() {
    let p = processor(vec![section(SectionKind::Got64, 0x10, 0x20, vec![0; 16])], Index::new());
    let blocks = p.parse_blocks(0x18);
    match &blocks[0].content {
        BlockContent::Got { size, .. } => assert_eq!(*size, 8),
        other => panic!("expected a GOT block, got {other:?}"),
    }
}

#[test]
fn raw_byte_runs_stop_at_labeled_addresses() {
    // undecodable code with a symbol in the middle: the run breaks there,
    // and the labeled address itself yields the run that follows it
    let p = processor(
        vec![section(SectionKind::Code, 0x100, 0x108, (0..8).collect())],
        indexed(&[(0x102, "inner")]),
    );
    let at_start = p.parse_blocks(0x100);
    match &at_start[1].content {
        BlockContent::Bytes { bytes } => assert_eq!(bytes, &vec![0, 1]),
        other => panic!("expected raw bytes, got {other:?}"),
    }
    let at_label = p.parse_blocks(0x102);
    match &at_label[0].content {
        BlockContent::Bytes { bytes } => assert_eq!(bytes, &vec![2, 3, 4, 5, 6, 7]),
        other => panic!("expected raw bytes, got {other:?}"),
    }
}

#[test]
fn code_blocks_label_known_addresses_but_not_section_starts() {
    let mut p = processor(
        vec![section(SectionKind::Code, 0x100, 0x108, vec![0x90; 8])],
        indexed(&[(0x100, "at_start"), (0x104, "inner")]),
    );
    p.instructions.push((
        0x100,
        DecodedInstruction { width: 4, tokens: vec![Token::from_str("nop", Color::White)] },
    ));
    p.instructions.push((
        0x104,
        DecodedInstruction { width: 4, tokens: vec![Token::from_str("ret", Color::White)] },
    ));
    let at_start = p.parse_blocks(0x100);
    // the start marker, then the instruction: the label is suppressed
    assert!(matches!(at_start[0].content, BlockContent::SectionStart { .. }));
    assert!(matches!(at_start[1].content, BlockContent::Instruction { .. }));
    let inner = p.parse_blocks(0x104);
    assert!(matches!(inner[0].content, BlockContent::Label { .. }));
    assert!(matches!(inner[1].content, BlockContent::Instruction { .. }));
}

#[test]
fn undecodable_code_becomes_a_raw_byte_run() {
    let mut p = processor(
        vec![section(SectionKind::Code, 0x100, 0x108, (0..8).collect())],
        Index::new(),
    );
    p.instructions.push((
        0x104,
        DecodedInstruction { width: 4, tokens: vec![Token::from_str("nop", Color::White)] },
    ));
    let blocks = p.parse_blocks(0x100);
    match &blocks[1].content {
        BlockContent::Bytes { bytes } => assert_eq!(bytes, &vec![0, 1, 2, 3]),
        other => panic!("expected raw bytes, got {other:?}"),
    }
}

#[test]
fn record_blocks_read_their_fields() {
    let mut bytes = Vec::new();
    bytes.extend_from_slice(&0x11u32.to_le_bytes());
    bytes.extend_from_slice(&0x22u32.to_le_bytes());
    let p = processor(
        vec![section(SectionKind::Elf32Dyn, 0x10, 0x18, bytes)],
        Index::new(),
    );
    let blocks = p.parse_blocks(0x10);
    match &blocks[1].content {
        BlockContent::DataStructure { ident, fields } => {
            assert_eq!(*ident, "Elf32Dyn");
            assert_eq!(fields.len(), 2);
            assert_eq!(fields[0].name, "d_tag");
            assert_eq!(fields[0].value, "0x11");
            assert_eq!(fields[1].addr, 0x14);
            assert_eq!(fields[1].value, "0x22");
        },
        other => panic!("expected a record block, got {other:?}"),
    }
}

#[test]
fn row_counts_follow_the_content() {
    let cstring = Block { addr: 0, content: BlockContent::CString { bytes: vec![1, 2, 3] } };
    assert_eq!(cstring.len(), 4);
    let raw = Block { addr: 0, content: BlockContent::Bytes { bytes: vec![0; 64] } };
    assert_eq!(raw.len(), 3);
    let label = Block {
        addr: 0,
        content: BlockContent::Label { symbol: bite::symbols::Function::default() },
    };
    assert_eq!(label.len(), 2);
}

#[test]
fn instruction_rendering_pads_the_address_to_ten_digits() {
    let block = Block {
        addr: 0x3e8,
        content: BlockContent::Instruction {
            inst: vec![Token::from_str("ret", Color::White)],
            bytes: "C3 ".to_string(),
        },
    };
    let mut stream = TokenStream::new();
    block.tokenize(&mut stream, &theme());
    assert_eq!(texts(&stream), vec!["00000003E8  ", "C3 ", "ret"]);
}

#[test]
fn cstring_rendering_quotes_and_escapes() {
    let block = Block { addr: 0, content: BlockContent::CString { bytes: b"a\nb".to_vec() } };
    let mut stream = TokenStream::new();
    block.tokenize(&mut stream, &theme());
    let rendered = texts(&stream);
    assert_eq!(rendered[1], "\"a\\nb\"");
}

#[test]
fn cstring_rendering_replaces_invalid_bytes() {
    let block = Block { addr: 0, content: BlockContent::CString { bytes: vec![0x61, 0xff] } };
    let mut stream = TokenStream::new();
    block.tokenize(&mut stream, &theme());
    let rendered = texts(&stream);
    assert_eq!(rendered[1], "\"a\u{FFFD}\"");
}

#[test]
fn raw_byte_rendering_splits_rows_and_drops_the_last_newline() {
    let block = Block { addr: 0, content: BlockContent::Bytes { bytes: vec![0xab; 33] } };
    let mut stream = TokenStream::new();
    block.tokenize(&mut stream, &theme());
    let rendered = texts(&stream);
    // two rows of three tokens each, with the final newline popped
    assert_eq!(rendered.len(), 5);
    assert_eq!(rendered[2], "\n");
    assert_eq!(rendered[4], "AB ");
}

#[test]
fn section_markers_render_the_range_in_bare_hex() {
    let sec = section(SectionKind::Code, 0x400, 0x500, vec![0; 0x100]);
    let block = Block { addr: 0x400, content: BlockContent::SectionStart { section: sec } };
    let mut stream = TokenStream::new();
    block.tokenize(&mut stream, &theme());
    let rendered = texts(&stream);
    assert_eq!(rendered[0], "section started");
    assert_eq!(rendered[1], " .test ");
    assert_eq!(rendered[3], "TEST");
    assert_eq!(rendered[5], "400");
    assert_eq!(rendered[7], "500");
}

#[test]
fn pointer_rendering_names_the_target() {
    let mut index = Index::new();
    index
        .parse_debug(
            &vec![SymbolRecord {
                addr: 0x401000,
                name: "callee".to_string(),
                module: None,
                attempts: SchemeAttempts::none(),
            }],
            &PdbSymbols::Absent,
            0x401000,
        )
        .unwrap();
    let f = index.get_by_addr(0x401000).unwrap().clone();
    let block = Block {
        addr: 0x10,
        content: BlockContent::Pointer { value: 0x401000, symbol: Some(f) },
    };
    let mut stream = TokenStream::new();
    block.tokenize(&mut stream, &theme());
    let rendered = texts(&stream);
    assert_eq!(rendered[1], "0x401000");
    assert_eq!(rendered[2], " <");
    assert_eq!(rendered[3], "callee");
    assert_eq!(rendered[4], ">");
}
