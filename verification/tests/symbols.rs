use bite::symbols::{
    demangle, strip_decoration, Function, Index, ParseError, PdbSymbols, SchemeAttempts,
    SymbolRecord, TokenStream,
};
use bite::tokens::Color;

fn record(addr: usize, name: &str) -> SymbolRecord {
    SymbolRecord {
        addr,
        name: name.to_string(),
        module: None,
        attempts: SchemeAttempts::none(),
    }
}

#[test]
fn strip_decoration_removes_one_suffix() {
    assert_eq!(strip_decoration("foo$got"), "foo");
    assert_eq!(strip_decoration("foo$plt"), "foo");
    assert_eq!(strip_decoration("foo$pltgot"), "foo");
    assert_eq!(strip_decoration("foo"), "foo");
    assert_eq!(strip_decoration("got"), "got");
}

#[test]
fn demangle_falls_back_to_single_token() {
    let attempts = SchemeAttempts::none();
    let stream = demangle("plain_name", &attempts);
    let tokens = stream.tokens();
    assert_eq!(tokens.len(), 1);
    assert_eq!(tokens[0].text.as_str(), "plain_name");
    assert_eq!(tokens[0].color, Color::Magenta);
}

#[test]
fn demangle_prefers_the_first_accepting_scheme() {
    // legacy Rust rejected the name, Itanium accepted it
    let mut itanium = TokenStream::new("_ZN4core3fmt5writeE");
    itanium.push("core", Color::Purple);
    itanium.push("::", Color::Gray40);
    itanium.push("fmt::write", Color::Magenta);
    let attempts = SchemeAttempts {
        legacy_rust: None,
        itanium: Some(itanium),
        rust_v0: None,
        msvc: None,
    };
    let stream = demangle("_ZN4core3fmt5writeE", &attempts);
    let tokens = stream.tokens();
    assert_eq!(tokens.len(), 3);
    assert_eq!(tokens[0].text.as_str(), "core");
    assert_eq!(stream.joined(), "core::fmt::write");
}

#[test]
fn demangle_strips_before_falling_back() {
    let attempts = SchemeAttempts::none();
    let stream = demangle("memcpy$plt", &attempts);
    assert_eq!(stream.inner(), "memcpy");
    assert_eq!(stream.joined(), "memcpy");
}

#[test]
fn parse_debug_keeps_the_first_entry_per_address() {
    let mut index = Index::new();
    let native = vec![record(0x1000, "first_name"), record(0x1000, "second_name")];
    index
        .parse_debug(&native, &PdbSymbols::Absent, 0x2000)
        .unwrap();
    // one entry per address: the duplicate collapsed, plus the entry point
    assert_eq!(index.len(), 2);
    let found = index.get_by_addr(0x1000).unwrap();
    assert_eq!(found.as_str(), "first_name");
}

#[test]
fn parse_debug_names_the_entry_point() {
    let mut index = Index::new();
    index
        .parse_debug(&Vec::new(), &PdbSymbols::Absent, 0x40_0000)
        .unwrap();
    assert_eq!(index.len(), 1);
    let entry = index.get_by_addr(0x40_0000).unwrap();
    assert_eq!(entry.as_str(), "entry");
}

#[test]
fn parse_debug_symbol_wins_over_entry_point_at_one_address() {
    let mut index = Index::new();
    let native = vec![record(0x500, "my_start")];
    index.parse_debug(&native, &PdbSymbols::Absent, 0x500).unwrap();
    assert_eq!(index.len(), 1);
    assert_eq!(index.get_by_addr(0x500).unwrap().as_str(), "my_start");
}

#[test]
fn parse_debug_rejects_a_malformed_debug_file() {
    let mut index = Index::new();
    let result = index.parse_debug(&Vec::new(), &PdbSymbols::Malformed, 0);
    assert_eq!(result, Err(ParseError::DebugInfo));
    assert!(index.is_empty());
}

#[test]
fn parse_debug_merges_debug_file_symbols() {
    let mut index = Index::new();
    let native = vec![record(0x100, "native_one")];
    let pdb = PdbSymbols::Loaded(vec![record(0x200, "debug_two")]);
    index.parse_debug(&native, &pdb, 0x300).unwrap();
    assert_eq!(index.len(), 3);
    assert_eq!(index.get_by_addr(0x200).unwrap().as_str(), "debug_two");
}

#[test]
fn parse_imports_appends_and_sorts() {
    let mut index = Index::new();
    index
        .parse_debug(&vec![record(0x300, "later")], &PdbSymbols::Absent, 0x400)
        .unwrap();
    index.parse_imports(&vec![record(0x100, "earlier")]);
    assert_eq!(index.len(), 3);
    let entries = index.iter();
    assert_eq!(entries[0].0, 0x100);
    assert_eq!(entries[1].0, 0x300);
    assert_eq!(entries[2].0, 0x400);
}

#[test]
fn parse_imports_does_not_displace_debug_symbols() {
    let mut index = Index::new();
    index
        .parse_debug(&vec![record(0x100, "from_debug")], &PdbSymbols::Absent, 0x900)
        .unwrap();
    index.parse_imports(&vec![record(0x100, "from_import")]);
    assert_eq!(index.get_by_addr(0x100).unwrap().as_str(), "from_debug");
}

#[test]
fn get_by_addr_misses_unknown_addresses() {
    let mut index = Index::new();
    index
        .parse_debug(&vec![record(0x10, "a"), record(0x30, "b")], &PdbSymbols::Absent, 0x20)
        .unwrap();
    assert!(index.get_by_addr(0x11).is_none());
    assert!(index.get_by_addr(0x30).is_some());
}

#[test]
fn get_by_name_finds_the_demangled_text() {
    let mut index = Index::new();
    index
        .parse_debug(&vec![record(0x10, "alpha"), record(0x20, "beta")], &PdbSymbols::Absent, 0x30)
        .unwrap();
    let (addr, f) = index.get_by_name("beta").unwrap();
    assert_eq!(addr, 0x20);
    assert_eq!(f.as_str(), "beta");
    assert!(index.get_by_name("gamma").is_none());
}

#[test]
fn label_counts_seven_named_of_ten() {
    let mut index = Index::new();
    let native = vec![
        record(1, ".Llocal"),
        record(2, "str.literal"),
        record(3, ""),
        record(4, "real_one"),
        record(5, "real_two"),
        record(6, "real_three"),
        record(7, "real_four"),
        record(8, "real_five"),
        record(9, "real_six"),
        record(10, "real_seven"),
    ];
    index.parse_debug(&native, &PdbSymbols::Absent, 4).unwrap();
    assert_eq!(index.len(), 10);
    index.label();
    assert_eq!(index.named_len(), 7);
    assert!(index.get_by_addr(1).unwrap().intrinsic());
    assert!(!index.get_by_addr(4).unwrap().intrinsic());
}

#[test]
fn label_marks_the_synthetic_prefixes() {
    let mut index = Index::new();
    let native = vec![
        record(1, "GCC_except_table12"),
        record(2, "anon.1234"),
        record(3, "named"),
    ];
    index.parse_debug(&native, &PdbSymbols::Absent, 3).unwrap();
    index.label();
    assert_eq!(index.named_len(), 1);
    assert!(index.get_by_addr(1).unwrap().intrinsic());
    assert!(index.get_by_addr(2).unwrap().intrinsic());
    assert!(!index.get_by_addr(3).unwrap().intrinsic());
}

#[test]
fn default_function_is_anonymous() {
    let f = Function::default();
    assert_eq!(f.as_str(), "");
    assert!(f.module().is_none());
    assert!(!f.intrinsic());
}

#[test]
fn getters_report_the_sorted_entries() {
    let mut index = Index::new();
    assert!(index.is_empty());
    index
        .parse_debug(
            &vec![record(0x30, "later"), record(0x10, "earlier")],
            &PdbSymbols::Absent,
            0x20,
        )
        .unwrap();
    assert!(!index.is_empty());
    assert_eq!(index.len(), 3);
    let names: Vec<String> =
        index.symbols().iter().map(|f| f.as_str().to_string()).collect();
    assert_eq!(names, vec!["earlier".to_string(), "entry".to_string(), "later".to_string()]);
}

#[test]
fn insert_appends_without_sorting() {
    let mut index = Index::new();
    index.insert(0x20, Function::default());
    index.insert(0x10, Function::default());
    assert_eq!(index.len(), 2);
    assert_eq!(index.iter()[0].0, 0x20);
    assert_eq!(index.iter()[1].0, 0x10);
}
