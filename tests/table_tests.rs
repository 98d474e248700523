use riscv_elf_parse::bytes::Endian;
use riscv_elf_parse::header::{read_header, ElfError};
use riscv_elf_parse::tables::{executable_spans, read_programs, read_sections, SectionEntry};

fn put16(b: &mut [u8], off: usize, v: u16) {
    b[off..off + 2].copy_from_slice(&v.to_le_bytes());
}

fn put32(b: &mut [u8], off: usize, v: u32) {
    b[off..off + 4].copy_from_slice(&v.to_le_bytes());
}

/// A little-endian file with the given section (flags, offset, size) and
/// program (type, offset, vaddr, filesz) entries, and no payload.
fn file(secs: &[(u32, u32, u32)], progs: &[(u32, u32, u32, u32)]) -> Vec<u8> {
    let ph = 0x34usize;
    let sh = ph + 32 * progs.len();
    let mut b = vec![0u8; sh + 40 * secs.len()];
    b[0..4].copy_from_slice(&[0x7f, b'E', b'L', b'F']);
    b[4] = 1;
    b[5] = 1;
    put32(&mut b, 0x1c, ph as u32);
    put32(&mut b, 0x20, sh as u32);
    put16(&mut b, 0x2a, 32);
    put16(&mut b, 0x2c, progs.len() as u16);
    put16(&mut b, 0x2e, 40);
    put16(&mut b, 0x30, secs.len() as u16);
    for (i, p) in progs.iter().enumerate() {
        let a = ph + 32 * i;
        put32(&mut b, a, p.0);
        put32(&mut b, a + 4, p.1);
        put32(&mut b, a + 8, p.2);
        put32(&mut b, a + 0x10, p.3);
    }
    for (i, s) in secs.iter().enumerate() {
        let a = sh + 40 * i;
        put32(&mut b, a + 8, s.0);
        put32(&mut b, a + 0x10, s.1);
        put32(&mut b, a + 0x14, s.2);
    }
    b
}

#[test]
fn executable_flag_selects_sections() {
    let b = file(&[(0x0, 0x100, 8), (0x4, 0x200, 16), (0x6, 0x300, 4), (0x2, 0x400, 4)], &[]);
    let h = read_header(&b).unwrap();
    let secs = read_sections(&b, &h).unwrap();
    assert_eq!(secs.len(), 4);
    assert_eq!(secs[1], SectionEntry { index: 1, flags: 0x4, offset: 0x200, size: 16 });
    assert_eq!(executable_spans(&secs), vec![(0x200, 16), (0x300, 4)]);
}

#[test]
fn no_executable_section_gives_no_span() {
    let secs = vec![SectionEntry { index: 0, flags: 0x3, offset: 0, size: 4 }];
    assert_eq!(executable_spans(&secs), Vec::<(u32, u32)>::new());
    assert_eq!(executable_spans(&Vec::new()), Vec::<(u32, u32)>::new());
}

#[test]
fn program_entries_are_decoded_in_order() {
    let b = file(&[], &[(1, 0x80, 0x1000, 8), (4, 0x90, 0x2000, 12)]);
    let h = read_header(&b).unwrap();
    let ps = read_programs(&b, &h).unwrap();
    assert_eq!(ps.len(), 2);
    assert_eq!((ps[0].seg_type, ps[0].offset, ps[0].virtual_addr, ps[0].file_size), (1, 0x80, 0x1000, 8));
    assert_eq!((ps[1].seg_type, ps[1].offset, ps[1].virtual_addr, ps[1].file_size), (4, 0x90, 0x2000, 12));
    assert_eq!(h.endian, Endian::Little);
}

#[test]
fn truncated_section_entry_is_reported() {
    let mut b = file(&[(0x4, 0, 0), (0x4, 0, 0)], &[]);
    let last = b.len() - 40;
    b.truncate(last + 0x17);
    let h = read_header(&b).unwrap();
    assert_eq!(read_sections(&b, &h), Err(ElfError::TruncatedEntry { offset: last as u64 }));
}

#[test]
fn truncated_program_entry_is_reported() {
    let mut b = file(&[], &[(1, 0, 0, 0)]);
    b.truncate(0x34 + 0x13);
    let h = read_header(&b).unwrap();
    assert_eq!(read_programs(&b, &h), Err(ElfError::TruncatedEntry { offset: 0x34 }));
}
