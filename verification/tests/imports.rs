use bite::endian::{read_be, read_le, read_value, Endianness};
use bite::symbols::ParseError;
use bite::hex::{addr_hex, encode_hex_bytes_truncated, min_hex, value_hex};
use bite::image::{RawReloc, SectionData};
use bite::imports::{
    collect_imports, filter_named, import_record, resolve_elf_reloc, resolve_pe_descriptor,
    PeDescriptorData, PeThunkEntry, RawImport, RELOC_COPY, RELOC_GLOB_DAT, RELOC_JUMP_SLOT,
};
use bite::symbols::SchemeAttempts;

fn jump_slot(offset: u64) -> RawReloc {
    RawReloc { offset, absolute: false, elf_kind: Some(RELOC_JUMP_SLOT), symbol: Some(0) }
}

#[test]
fn jump_slot_reads_the_cell_and_backs_up_past_the_stub() {
    // the GOT cell at 0x2000 holds 0x401006, six bytes past the callee
    let sections = vec![SectionData {
        address: 0x2000,
        size: 8,
        data: Some(vec![0x06, 0x10, 0x40, 0x00, 0x00, 0x00, 0x00, 0x00]),
    }];
    let resolved = resolve_elf_reloc(&jump_slot(0x2000), &sections, true, true);
    assert_eq!(resolved, Some(0x401000));
}

#[test]
fn jump_slot_32bit_cells_are_four_bytes() {
    let sections = vec![SectionData {
        address: 0x2000,
        size: 4,
        data: Some(vec![0x06, 0x10, 0x40, 0x00]),
    }];
    let resolved = resolve_elf_reloc(&jump_slot(0x2000), &sections, false, true);
    assert_eq!(resolved, Some(0x401000));
}

#[test]
fn direct_relocation_kinds_use_their_own_offset() {
    let sections = vec![SectionData { address: 0, size: 0x10000, data: None }];
    let glob = RawReloc {
        offset: 0x5500,
        absolute: false,
        elf_kind: Some(RELOC_GLOB_DAT),
        symbol: Some(1),
    };
    assert_eq!(resolve_elf_reloc(&glob, &sections, true, true), Some(0x5500));
    let copy = RawReloc {
        offset: 0x66,
        absolute: false,
        elf_kind: Some(RELOC_COPY),
        symbol: Some(1),
    };
    assert_eq!(resolve_elf_reloc(&copy, &sections, true, true), Some(0x66));
    let absolute = RawReloc { offset: 0x77, absolute: true, elf_kind: Some(1), symbol: Some(1) };
    assert_eq!(resolve_elf_reloc(&absolute, &sections, true, true), Some(0x77));
}

#[test]
fn relocations_without_a_containing_section_are_skipped() {
    let sections: Vec<SectionData> = Vec::new();
    let absolute = RawReloc { offset: 0x77, absolute: true, elf_kind: Some(1), symbol: Some(1) };
    assert_eq!(resolve_elf_reloc(&absolute, &sections, true, true), None);
    let glob = RawReloc {
        offset: 0x5500,
        absolute: false,
        elf_kind: Some(RELOC_GLOB_DAT),
        symbol: Some(1),
    };
    assert_eq!(resolve_elf_reloc(&glob, &sections, true, true), None);
}

#[test]
fn unknown_relocation_kinds_are_skipped() {
    let sections = vec![SectionData { address: 0, size: 0x10000, data: None }];
    let other = RawReloc { offset: 0x10, absolute: false, elf_kind: Some(8), symbol: Some(0) };
    assert_eq!(resolve_elf_reloc(&other, &sections, true, true), None);
}

#[test]
fn jump_slot_without_backing_data_is_skipped() {
    let missing = vec![SectionData { address: 0x2000, size: 8, data: None }];
    assert_eq!(resolve_elf_reloc(&jump_slot(0x2000), &missing, true, true), None);
    let short = vec![SectionData { address: 0x2000, size: 8, data: Some(vec![1, 2, 3]) }];
    assert_eq!(resolve_elf_reloc(&jump_slot(0x2000), &short, true, true), None);
    let elsewhere = vec![SectionData { address: 0x9000, size: 8, data: Some(vec![0; 8]) }];
    assert_eq!(resolve_elf_reloc(&jump_slot(0x2000), &elsewhere, true, true), None);
}

fn named_entry(hint: u16, name: &str) -> PeThunkEntry {
    PeThunkEntry { ordinal: false, hint, name: Some(name.to_string()) }
}

#[test]
fn bound_first_thunk_path_resolves_to_slot_rva_plus_base() {
    // first_thunk differs from the original list: the bound path
    let descriptor = PeDescriptorData {
        module: Some("KERNEL32.dll".to_string()),
        original_first_thunk: 0x4000,
        first_thunk: 0x3050,
        entries: vec![named_entry(7, "CreateFileW")],
    };
    let imports = resolve_pe_descriptor(&descriptor, true, 0x1_4000_0000);
    assert_eq!(imports.len(), 1);
    assert_eq!(imports[0].addr, 0x1_4000_3050);
    assert_eq!(imports[0].name, "CreateFileW");
    assert_eq!(imports[0].module.as_deref(), Some("KERNEL32.dll"));
}

#[test]
fn bound_path_advances_one_slot_per_entry() {
    let descriptor = PeDescriptorData {
        module: None,
        original_first_thunk: 0x4000,
        first_thunk: 0x3050,
        entries: vec![
            named_entry(1, "first"),
            PeThunkEntry { ordinal: true, hint: 0, name: None },
            named_entry(2, "third"),
        ],
    };
    let imports = resolve_pe_descriptor(&descriptor, true, 0x1_4000_0000);
    // the ordinal entry is skipped but still advances the slot cursor
    assert_eq!(imports.len(), 2);
    assert_eq!(imports[0].addr, 0x1_4000_3050);
    assert_eq!(imports[1].addr, 0x1_4000_3060);
    let imports32 = resolve_pe_descriptor(&descriptor, false, 0x40_0000);
    assert_eq!(imports32[1].addr, 0x40_3058);
}

#[test]
fn hint_path_resolves_to_hint_plus_base() {
    // first_thunk of zero falls back to the original list: the hint path
    let descriptor = PeDescriptorData {
        module: None,
        original_first_thunk: 0x4000,
        first_thunk: 0,
        entries: vec![named_entry(0x20, "GetLastError")],
    };
    let imports = resolve_pe_descriptor(&descriptor, true, 0x1_4000_0000);
    assert_eq!(imports.len(), 1);
    assert_eq!(imports[0].addr, 0x1_4000_0020);
}

#[test]
fn unreadable_names_are_skipped_one_by_one() {
    let descriptor = PeDescriptorData {
        module: None,
        original_first_thunk: 0,
        first_thunk: 0x100,
        entries: vec![
            PeThunkEntry { ordinal: false, hint: 0, name: None },
            named_entry(9, "kept"),
        ],
    };
    let imports = resolve_pe_descriptor(&descriptor, true, 0);
    assert_eq!(imports.len(), 1);
    assert_eq!(imports[0].name, "kept");
}

#[test]
fn module_names_lose_a_leading_dll_marker() {
    let descriptor = PeDescriptorData {
        module: Some(".dllkernel".to_string()),
        original_first_thunk: 0,
        first_thunk: 0x10,
        entries: vec![named_entry(0, "f")],
    };
    let imports = resolve_pe_descriptor(&descriptor, true, 0);
    assert_eq!(imports[0].module.as_deref(), Some("kernel"));
}

#[test]
fn import_records_carry_the_module_token() {
    let import = RawImport {
        addr: 0x1000,
        name: "CreateFileW".to_string(),
        module: Some("KERNEL32.dll".to_string()),
    };
    let record = import_record(&import, SchemeAttempts::none());
    assert_eq!(record.addr, 0x1000);
    assert_eq!(record.name, "CreateFileW");
    assert_eq!(record.module.as_ref().unwrap().text.as_str(), "KERNEL32.dll");
}

#[test]
fn filter_named_drops_unreadable_names() {
    let raw = vec![
        (0x10u64, Some("a".to_string())),
        (0x20u64, None),
        (0x30u64, Some("b".to_string())),
    ];
    let named = filter_named(&raw);
    assert_eq!(named.len(), 2);
    assert_eq!(named[0], (0x10, "a".to_string()));
    assert_eq!(named[1], (0x30, "b".to_string()));
}

#[test]
fn little_and_big_endian_reads() {
    let bytes = [0x06, 0x10, 0x40, 0x00];
    assert_eq!(read_le(&bytes, 0, 4), 0x0040_1006);
    assert_eq!(read_be(&bytes, 0, 4), 0x0610_4000);
    assert_eq!(read_value(&bytes, 1, 2, Endianness::Little), 0x4010);
    assert_eq!(read_value(&bytes, 1, 2, Endianness::Big), 0x1040);
}

#[test]
fn address_hex_is_ten_uppercase_digits() {
    assert_eq!(addr_hex(0x3e8), "00000003E8");
    assert_eq!(addr_hex(0), "0000000000");
    assert_eq!(addr_hex(0x1_2345_6789_AB), "123456789AB");
}

#[test]
fn value_hex_is_minimal_lowercase() {
    assert_eq!(value_hex(255), "0xff");
    assert_eq!(value_hex(0), "0x0");
    assert_eq!(min_hex(0x2f), "2f");
}

#[test]
fn hex_dumps_pad_and_truncate_to_the_column() {
    assert_eq!(encode_hex_bytes_truncated(&[0xab, 0xcd], 7, true), "AB CD  ");
    assert_eq!(encode_hex_bytes_truncated(&[0xab, 0xcd], 7, false), "AB CD ");
    assert_eq!(encode_hex_bytes_truncated(&[1, 2, 3], 8, false), "01 02 ..");
    assert_eq!(encode_hex_bytes_truncated(&[1, 2, 3], 11, true), "01 02 03   ");
}

/// A minimal 64-bit little-endian ELF image: the header alone.
fn minimal_elf() -> Vec<u8> {
    let mut header = vec![0u8; 64];
    header[0..4].copy_from_slice(&[0x7f, b'E', b'L', b'F']);
    header[4] = 2; // 64-bit
    header[5] = 1; // little-endian
    header[6] = 1; // version
    header[16] = 2; // executable
    header[18] = 0x3e; // x86-64
    header[20] = 1; // file version
    header[24..32].copy_from_slice(&0x401000u64.to_le_bytes()); // entry
    header[52..54].copy_from_slice(&64u16.to_le_bytes()); // header size
    header[54..56].copy_from_slice(&56u16.to_le_bytes()); // phentsize
    header[58..60].copy_from_slice(&64u16.to_le_bytes()); // shentsize
    header
}

#[test]
fn an_image_without_relocations_has_no_imports() {
    let elf = minimal_elf();
    let imports = collect_imports(&elf).expect("dispatch succeeds");
    assert!(imports.is_empty());
}

#[test]
fn an_image_without_a_symbol_table_has_no_native_symbols() {
    let elf = minimal_elf();
    let symbols = bite::imports::collect_native_symbols(&elf).expect("a minimal image parses");
    assert!(symbols.is_empty());
}

#[test]
fn an_unparseable_image_fails_import_resolution() {
    let garbage = vec![0u8; 16];
    assert!(bite::imports::collect_native_symbols(&garbage).is_none());
    match collect_imports(&garbage) {
        Err(err) => assert_eq!(err, ParseError::ImportTable),
        Ok(_) => panic!("an unparseable image must not resolve"),
    }
}
