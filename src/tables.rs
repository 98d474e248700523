//! Walking the section-header and program-header tables.

use vstd::prelude::*;
use crate::bytes::{Endian, read_u32, u32_at};
use crate::header::{ElfError, FileHeader};

verus! {

/// Offsets of the fields read from a section-header entry.
pub const SH_FLAGS: u64 = 0x8;
pub const SH_OFFSET: u64 = 0x10;
pub const SH_SIZE: u64 = 0x14;
/// Bytes of a section-header entry that must lie inside the buffer.
pub const SH_READ_LEN: u64 = 0x18;

/// Offsets of the fields read from a program-header entry.
pub const PH_TYPE: u64 = 0x0;
pub const PH_OFFSET: u64 = 0x4;
pub const PH_VADDR: u64 = 0x8;
pub const PH_FILESZ: u64 = 0x10;
/// Bytes of a program-header entry that must lie inside the buffer.
pub const PH_READ_LEN: u64 = 0x14;

/// Segment type of a loadable segment.
pub const PT_LOAD: u32 = 1;

/// One entry of the section-header table.
#[derive(Clone, Copy, Debug, PartialEq, Eq, Structural)]
pub struct SectionEntry {
    pub index: u16,
    pub flags: u32,
    pub offset: u32,
    pub size: u32,
}

/// One entry of the program-header table.
#[derive(Clone, Copy, Debug, PartialEq, Eq, Structural)]
pub struct ProgramEntry {
    pub seg_type: u32,
    pub virtual_addr: u32,
    pub offset: u32,
    pub file_size: u32,
}

/// Address of entry `i` of a table at `off` whose entries are `size` bytes.
pub open spec fn entry_addr(off: u32, i: int, size: u16) -> int {
    off as int + i * size as int
}

pub open spec fn section_at(b: Seq<u8>, h: FileHeader, i: int) -> SectionEntry {
    let a = entry_addr(h.section_header_offset, i, h.section_header_entry_size);
    SectionEntry {
        index: i as u16,
        flags: u32_at(b, a + SH_FLAGS, h.endian) as u32,
        offset: u32_at(b, a + SH_OFFSET, h.endian) as u32,
        size: u32_at(b, a + SH_SIZE, h.endian) as u32,
    }
}

pub open spec fn program_at(b: Seq<u8>, h: FileHeader, i: int) -> ProgramEntry {
    let a = entry_addr(h.program_header_offset, i, h.program_header_entry_size);
    ProgramEntry {
        seg_type: u32_at(b, a + PH_TYPE, h.endian) as u32,
        virtual_addr: u32_at(b, a + PH_VADDR, h.endian) as u32,
        offset: u32_at(b, a + PH_OFFSET, h.endian) as u32,
        file_size: u32_at(b, a + PH_FILESZ, h.endian) as u32,
    }
}

/// The first `n` section entries, or the error at the first one that does
/// not fit in the buffer.
pub open spec fn sections_upto(b: Seq<u8>, h: FileHeader, n: nat) -> Result<Seq<SectionEntry>, ElfError>
    decreases n,
{
    if n == 0 {
        Ok(Seq::empty())
    } else {
        match sections_upto(b, h, (n - 1) as nat) {
            Err(e) => Err(e),
            Ok(s) => {
                let a = entry_addr(h.section_header_offset, n - 1, h.section_header_entry_size);
                if a + SH_READ_LEN <= b.len() {
                    Ok(s.push(section_at(b, h, n - 1)))
                } else {
                    Err(ElfError::TruncatedEntry { offset: a as u64 })
                }
            },
        }
    }
}

/// The first `n` program entries, or the error at the first one that does
/// not fit in the buffer.
pub open spec fn programs_upto(b: Seq<u8>, h: FileHeader, n: nat) -> Result<Seq<ProgramEntry>, ElfError>
    decreases n,
{
    if n == 0 {
        Ok(Seq::empty())
    } else {
        match programs_upto(b, h, (n - 1) as nat) {
            Err(e) => Err(e),
            Ok(s) => {
                let a = entry_addr(h.program_header_offset, n - 1, h.program_header_entry_size);
                if a + PH_READ_LEN <= b.len() {
                    Ok(s.push(program_at(b, h, n - 1)))
                } else {
                    Err(ElfError::TruncatedEntry { offset: a as u64 })
                }
            },
        }
    }
}

pub open spec fn sections_spec(b: Seq<u8>, h: FileHeader) -> Result<Seq<SectionEntry>, ElfError> {
    sections_upto(b, h, h.section_header_entry_amt as nat)
}

pub open spec fn programs_spec(b: Seq<u8>, h: FileHeader) -> Result<Seq<ProgramEntry>, ElfError> {
    programs_upto(b, h, h.program_header_entry_amt as nat)
}

/// Once the walk has failed at some entry, every longer walk fails the same way.
proof fn lemma_sections_error_persists(b: Seq<u8>, h: FileHeader, k: nat, n: nat)
    requires
        k <= n,
        sections_upto(b, h, k) is Err,
    ensures
        sections_upto(b, h, n) == sections_upto(b, h, k),
    decreases n - k,
{
    if k < n {
        lemma_sections_error_persists(b, h, k, (n - 1) as nat);
    }
}

/// Once the walk has failed at some entry, every longer walk fails the same way.
proof fn lemma_programs_error_persists(b: Seq<u8>, h: FileHeader, k: nat, n: nat)
    requires
        k <= n,
        programs_upto(b, h, k) is Err,
    ensures
        programs_upto(b, h, n) == programs_upto(b, h, k),
    decreases n - k,
{
    if k < n {
        lemma_programs_error_persists(b, h, k, (n - 1) as nat);
    }
}

/// Address of entry `i` of a table, which fits in 64 bits.
fn entry_address(off: u32, i: u16, size: u16) -> (r: u64)
    ensures
        r as int == entry_addr(off, i as int, size),
        r < 0x2_0000_0000,
{
    assert((i as int) * (size as int) <= 0xffff * 0xffff) by (nonlinear_arith)
        requires
            0 <= i <= 0xffff,
            0 <= size <= 0xffff,
    ;
    let prod: u64 = i as u64 * size as u64;
    off as u64 + prod
}

/// Decodes every entry of the section-header table, in index order.
pub fn read_sections(b: &[u8], h: &FileHeader) -> (r: Result<Vec<SectionEntry>, ElfError>)
    ensures
        match (r, sections_spec(b@, *h)) {
            (Ok(v), Ok(s)) => v@ == s,
            (Err(e), Err(f)) => e == f,
            _ => false,
        },
{
    let mut out: Vec<SectionEntry> = Vec::new();
    let n = h.section_header_entry_amt;
    let mut i: u16 = 0;
    while i < n
        invariant
            i <= n,
            n == h.section_header_entry_amt,
            sections_upto(b@, *h, i as nat) == Ok::<Seq<SectionEntry>, ElfError>(out@),
        decreases n - i,
    {
        let a = entry_address(h.section_header_offset, i, h.section_header_entry_size);
        if a + SH_READ_LEN > b.len() as u64 {
            proof {
                lemma_sections_error_persists(b@, *h, (i + 1) as nat, n as nat);
            }
            return Err(ElfError::TruncatedEntry { offset: a });
        }
        let at = a as usize;
        out.push(SectionEntry {
            index: i,
            flags: read_u32(b, at + SH_FLAGS as usize, h.endian),
            offset: read_u32(b, at + SH_OFFSET as usize, h.endian),
            size: read_u32(b, at + SH_SIZE as usize, h.endian),
        });
        i = i + 1;
    }
    Ok(out)
}

/// Decodes every entry of the program-header table, in index order.
pub fn read_programs(b: &[u8], h: &FileHeader) -> (r: Result<Vec<ProgramEntry>, ElfError>)
    ensures
        match (r, programs_spec(b@, *h)) {
            (Ok(v), Ok(s)) => v@ == s,
            (Err(e), Err(f)) => e == f,
            _ => false,
        },
{
    let mut out: Vec<ProgramEntry> = Vec::new();
    let n = h.program_header_entry_amt;
    let mut i: u16 = 0;
    while i < n
        invariant
            i <= n,
            n == h.program_header_entry_amt,
            programs_upto(b@, *h, i as nat) == Ok::<Seq<ProgramEntry>, ElfError>(out@),
        decreases n - i,
    {
        let a = entry_address(h.program_header_offset, i, h.program_header_entry_size);
        if a + PH_READ_LEN > b.len() as u64 {
            proof {
                lemma_programs_error_persists(b@, *h, (i + 1) as nat, n as nat);
            }
            return Err(ElfError::TruncatedEntry { offset: a });
        }
        let at = a as usize;
        out.push(ProgramEntry {
            seg_type: read_u32(b, at + PH_TYPE as usize, h.endian),
            virtual_addr: read_u32(b, at + PH_VADDR as usize, h.endian),
            offset: read_u32(b, at + PH_OFFSET as usize, h.endian),
            file_size: read_u32(b, at + PH_FILESZ as usize, h.endian),
        });
        i = i + 1;
    }
    Ok(out)
}

/// Whether section flags carry the executable-instructions bit (bit 2).
pub open spec fn is_exec(flags: u32) -> bool {
    (flags >> 2u32) & 1u32 == 1u32
}

/// The (offset, size) of each executable section of `s`, in order.
pub open spec fn spans_spec(s: Seq<SectionEntry>) -> Seq<(u32, u32)>
    decreases s.len(),
{
    if s.len() == 0 {
        Seq::empty()
    } else {
        let rest = spans_spec(s.drop_last());
        let e = s.last();
        if is_exec(e.flags) {
            rest.push((e.offset, e.size))
        } else {
            rest
        }
    }
}

/// The (offset, size) spans of the executable sections, in index order.
pub fn executable_spans(sections: &Vec<SectionEntry>) -> (r: Vec<(u32, u32)>)
    ensures
        r@ == spans_spec(sections@),
{
    let mut out: Vec<(u32, u32)> = Vec::new();
    let mut i: usize = 0;
    while i < sections.len()
        invariant
            i <= sections@.len(),
            out@ == spans_spec(sections@.take(i as int)),
        decreases sections@.len() - i,
    {
        let e = sections[i];
        proof {
            assert(sections@.take(i as int + 1).drop_last() == sections@.take(i as int));
        }
        if (e.flags >> 2u32) & 1u32 == 1u32 {
            out.push((e.offset, e.size));
        }
        i = i + 1;
    }
    proof {
        assert(sections@.take(sections@.len() as int) == sections@);
    }
    out
}

/// A section is among the executable spans exactly when its flags have
/// bit 2 set: with one more section, the spans grow by its (offset, size)
/// if and only if that bit is set.
pub proof fn lemma_span_membership(s: Seq<SectionEntry>, e: SectionEntry)
    ensures
        is_exec(e.flags) ==> spans_spec(s.push(e)) == spans_spec(s).push((e.offset, e.size)),
        !is_exec(e.flags) ==> spans_spec(s.push(e)) == spans_spec(s),
{
    assert(s.push(e).drop_last() == s);
}

} // verus!
