use std::collections::BTreeMap;

use riscv_elf_parse::bytes::Endian;
use riscv_elf_parse::dump::dump_entries;
use riscv_elf_parse::elf32::Elf32;
use riscv_elf_parse::header::ElfError;
use riscv_elf_parse::image::build_image;
use riscv_elf_parse::memory::Memory;
use riscv_elf_parse::opcode::{Instruction, Opcode};
use riscv_elf_parse::symbols::collect_symbols;
use riscv_elf_parse::tables::{ProgramEntry, SectionEntry};

fn load(offset: u32, vaddr: u32, size: u32) -> ProgramEntry {
    ProgramEntry { seg_type: 1, virtual_addr: vaddr, offset, file_size: size }
}

fn put16(b: &mut [u8], off: usize, v: u16) {
    b[off..off + 2].copy_from_slice(&v.to_le_bytes());
}

fn put32(b: &mut [u8], off: usize, v: u32) {
    b[off..off + 4].copy_from_slice(&v.to_le_bytes());
}

/// A little-endian file: one LOAD segment and one executable section over
/// the 8 payload bytes that follow the tables.
fn small_file(payload: &[u8; 8]) -> Vec<u8> {
    let ph = 0x34usize;
    let sh = ph + 32;
    let data = sh + 40;
    let mut b = vec![0u8; data];
    b[0..4].copy_from_slice(&[0x7f, b'E', b'L', b'F']);
    b[4] = 1;
    b[5] = 1;
    b[0x12] = 0xf3;
    put32(&mut b, 0x1c, ph as u32);
    put32(&mut b, 0x20, sh as u32);
    put16(&mut b, 0x2a, 32);
    put16(&mut b, 0x2c, 1);
    put16(&mut b, 0x2e, 40);
    put16(&mut b, 0x30, 1);
    put32(&mut b, ph, 1);
    put32(&mut b, ph + 4, data as u32);
    put32(&mut b, ph + 8, 0x1000);
    put32(&mut b, ph + 0x10, 8);
    put32(&mut b, sh + 8, 0x6);
    put32(&mut b, sh + 0x10, data as u32);
    put32(&mut b, sh + 0x14, 8);
    b.extend_from_slice(payload);
    b
}

#[test]
fn words_are_reversed_not_the_whole_segment() {
    let b = [1u8, 2, 3, 4, 5, 6, 7, 8];
    let m = build_image(&vec![load(0, 0x1000, 8)], &b, Endian::Big).unwrap();
    let got: Vec<(u64, u8)> = m.into_iter().collect();
    assert_eq!(
        got,
        vec![(0x1000, 4), (0x1001, 3), (0x1002, 2), (0x1003, 1), (0x1004, 8), (0x1005, 7), (0x1006, 6), (0x1007, 5)]
    );
}

#[test]
fn little_layout_passes_bytes_through() {
    let b = [1u8, 2, 3, 4, 5, 6, 7, 8];
    let m = build_image(&vec![load(0, 0x1000, 8)], &b, Endian::Little).unwrap();
    let got: Vec<u8> = m.values().copied().collect();
    assert_eq!(got, vec![1, 2, 3, 4, 5, 6, 7, 8]);
}

#[test]
fn later_segment_wins_on_overlap() {
    let b = [0x11u8, 0x11, 0x11, 0x11, 0x22, 0x22, 0x22, 0x22];
    let m = build_image(&vec![load(0, 0x2000, 4), load(4, 0x2000, 4)], &b, Endian::Little).unwrap();
    assert_eq!(m.get(&0x2000), Some(&0x22));
    assert_eq!(m.len(), 4);
}

#[test]
fn partial_words_and_other_segments_are_dropped() {
    let b = [1u8, 2, 3, 4, 5, 6, 7];
    let note = ProgramEntry { seg_type: 4, virtual_addr: 0x5000, offset: 0, file_size: 4 };
    let m = build_image(&vec![load(0, 0x1000, 7), note], &b, Endian::Little).unwrap();
    assert_eq!(m.len(), 4);
    assert_eq!(m.get(&0x1004), None);
    assert_eq!(m.get(&0x5000), None);
}

#[test]
fn segment_past_the_buffer_is_truncated() {
    let b = [0u8; 8];
    assert_eq!(
        build_image(&vec![load(4, 0x1000, 8)], &b, Endian::Little),
        Err(ElfError::TruncatedEntry { offset: 4 })
    );
}

#[test]
fn dump_of_known_image() {
    let b = [1u8, 2, 3, 4, 0xa5, 0x0f, 0xff, 0x00];
    let bytes = build_image(&vec![load(0, 0x1000, 8)], &b, Endian::Big).unwrap();
    let mem = Memory { bytes, symbols: Default::default() };
    assert_eq!(
        mem.dump(),
        "Address 0x00001000:     0x04030201\nAddress 0x00001004:     0x00ff0fa5\n"
    );
}

#[test]
fn dump_of_empty_image_is_one_newline() {
    let mem = Memory { bytes: BTreeMap::new(), symbols: Default::default() };
    assert_eq!(mem.dump(), "\n");
    assert_eq!(mem.entries(), vec![]);
}

#[test]
fn dump_widens_large_addresses() {
    let e = vec![(0x1_2345_6789u64, 0xabu8), (0x1_2345_678a, 0x01)];
    assert_eq!(dump_entries(&e), "Address 0x123456789:     0xab01\n");
}

#[test]
fn memory_from_file_builds_image() {
    let f = small_file(&[0x13, 0, 0, 0, 0x33, 0, 0, 0]);
    let mem = Memory::new_from_file(&f, false).unwrap();
    assert_eq!(mem.entries(), vec![
        (0x1000, 0x13), (0x1001, 0), (0x1002, 0), (0x1003, 0),
        (0x1004, 0x33), (0x1005, 0), (0x1006, 0), (0x1007, 0),
    ]);
    assert!(mem.symbols.is_empty());
    let swapped = Memory::new_from_file(&f, true).unwrap();
    assert_eq!(swapped.dump(), "Address 0x00001000:     0x00000013\nAddress 0x00001004:     0x00000033\n");
}

#[test]
fn memory_from_bad_file_fails() {
    assert!(matches!(Memory::new_from_file(&vec![0x7f, b'E'], false), Err(ElfError::MalformedHeader { .. })));
}

#[test]
fn elf32_classifies_executable_sections() {
    let f = small_file(&[0x13, 0, 0, 0, 0x63, 0, 0, 0]);
    let elf = Elf32::new(f.clone()).unwrap();
    let off = (f.len() - 8) as u32;
    assert_eq!(elf.executable_sections(), Ok(vec![(off, 8)]));
    assert_eq!(
        elf.instructions(),
        &vec![Instruction::new(Opcode::OpImm, off as u64), Instruction::new(Opcode::Branch, off as u64 + 4)]
    );
    assert!(elf.header().is_riscv());
    assert_eq!(elf.bytes(), &f);
}

#[test]
fn symbols_need_alloc_flag_and_name() {
    let secs = vec![
        SectionEntry { index: 0, flags: 0x0, offset: 0, size: 0 },
        SectionEntry { index: 1, flags: 0x6, offset: 0, size: 0 },
    ];
    let recs = vec![
        (0x100u64, 1u16, "start".to_string()),
        (0x104, 1, String::new()),
        (0x108, 0, "data".to_string()),
        (0x10c, 9, "lost".to_string()),
        (0x100, 1, "entry".to_string()),
    ];
    let m = collect_symbols(&recs, &secs);
    assert_eq!(m.len(), 1);
    assert_eq!(m.get(&0x100).map(|s| s.as_str()), Some("entry"));
}

/// A little-endian file with a text section, a symbol table and its
/// string table, and no program headers.
fn file_with_symbols() -> Vec<u8> {
    let sh = 0x34usize;
    let text = sh + 4 * 40;
    let symtab = text + 8;
    let strtab = symtab + 4 * 16;
    let names = b"\0_start\0far\0";
    let mut b = vec![0u8; strtab];
    b[0..4].copy_from_slice(&[0x7f, b'E', b'L', b'F']);
    b[4] = 1;
    b[5] = 1;
    b[6] = 1;
    put16(&mut b, 0x12, 0xf3);
    put32(&mut b, 0x14, 1);
    put32(&mut b, 0x20, sh as u32);
    put16(&mut b, 0x28, 0x34);
    put16(&mut b, 0x2e, 40);
    put16(&mut b, 0x30, 4);
    // section 1: .text, executable and allocated
    put32(&mut b, sh + 40 + 4, 1);
    put32(&mut b, sh + 40 + 8, 0x6);
    put32(&mut b, sh + 40 + 0x10, text as u32);
    put32(&mut b, sh + 40 + 0x14, 8);
    // section 2: .symtab, linked to section 3
    put32(&mut b, sh + 80 + 4, 2);
    put32(&mut b, sh + 80 + 0x10, symtab as u32);
    put32(&mut b, sh + 80 + 0x14, 4 * 16);
    put32(&mut b, sh + 80 + 0x18, 3);
    put32(&mut b, sh + 80 + 0x24, 16);
    // section 3: .strtab
    put32(&mut b, sh + 120 + 4, 3);
    put32(&mut b, sh + 120 + 0x10, strtab as u32);
    put32(&mut b, sh + 120 + 0x14, names.len() as u32);
    // symbols: null; _start in .text; far in section 0; unnamed in .text
    let syms: [(u32, u32, u16); 3] = [(1, 0x1000, 1), (8, 0x2000, 0), (0, 0x3000, 1)];
    for (i, (name, value, shndx)) in syms.iter().enumerate() {
        let a = symtab + 16 * (i + 1);
        put32(&mut b, a, *name);
        put32(&mut b, a + 4, *value);
        put16(&mut b, a + 14, *shndx);
    }
    b.extend_from_slice(names);
    b
}

#[test]
fn symbols_are_read_from_the_symbol_table() {
    let f = file_with_symbols();
    let mem = Memory::new_from_file(&f, false).unwrap();
    assert!(mem.bytes.is_empty());
    assert_eq!(mem.symbols.len(), 1);
    assert_eq!(mem.symbols.get(&0x1000).map(|s| s.as_str()), Some("_start"));
}
