//! The fixed-offset ELF32 file header.

use vstd::prelude::*;
use crate::bytes::{Endian, read_u16, read_u32, u16_at, u32_at};

verus! {

/// Offsets of the ELF32 file-header fields.
pub const MAGIC_LEN: usize = 4;
pub const BITNESS_OFFSET: usize = 0x4;
pub const ENDIAN_OFFSET: usize = 0x5;
pub const MACHINE_OFFSET: usize = 0x12;
pub const ENTRY_OFFSET: usize = 0x18;
pub const PH_OFFSET_OFFSET: usize = 0x1c;
pub const SH_OFFSET_OFFSET: usize = 0x20;
pub const PH_ENTRY_SIZE_OFFSET: usize = 0x2a;
pub const PH_ENTRY_COUNT_OFFSET: usize = 0x2c;
pub const SH_ENTRY_SIZE_OFFSET: usize = 0x2e;
pub const SH_ENTRY_COUNT_OFFSET: usize = 0x30;
/// Length of the whole ELF32 file header.
pub const HEADER_LEN: usize = 0x34;
/// Machine byte that marks RISC-V code.
pub const RISCV_MACHINE: u8 = 0xf3;

/// What is wrong with a header that cannot be decoded.
#[derive(Clone, Copy, Debug, PartialEq, Eq, Structural)]
pub enum HeaderFault {
    /// The first four bytes are not `7F 'E' 'L' 'F'`, or the buffer is shorter.
    InvalidMagic,
    /// The bitness byte is neither 1 (32-bit) nor 2 (64-bit).
    InvalidBitnessFlag,
    /// The endianness byte is neither 1 (little) nor 2 (big).
    InvalidEndiannessFlag,
    /// The bitness byte says 64-bit, which this decoder does not handle.
    Unsupported64Bit,
}

/// A decoding failure, with the offset in the buffer where it was found.
/// Every loadable segment of an ELF32 file is a plain byte range of the
/// file, so segment data needs no failure of its own.
#[derive(Clone, Copy, Debug, PartialEq, Eq, Structural)]
pub enum ElfError {
    MalformedHeader { fault: HeaderFault, offset: u64 },
    /// A header, table entry or segment would reach past the end of the buffer.
    TruncatedEntry { offset: u64 },
}

/// The decoded ELF32 file header.
#[derive(Clone, Copy, Debug, PartialEq, Eq, Structural)]
pub struct FileHeader {
    pub endian: Endian,
    pub machine: u8,
    pub entry_point: u32,
    pub program_header_offset: u32,
    pub section_header_offset: u32,
    pub program_header_entry_size: u16,
    pub program_header_entry_amt: u16,
    pub section_header_entry_size: u16,
    pub section_header_entry_amt: u16,
}

pub open spec fn magic_ok(b: Seq<u8>) -> bool {
    b.len() >= 4 && b[0] == 0x7f && b[1] == 0x45 && b[2] == 0x4c && b[3] == 0x46
}

/// The byte order that the endianness byte `f` names, if any.
pub open spec fn endian_of_flag(f: u8) -> Option<Endian> {
    if f == 1 {
        Some(Endian::Little)
    } else if f == 2 {
        Some(Endian::Big)
    } else {
        None
    }
}

/// The header fields of `b`, all read in byte order `e`.
pub open spec fn header_fields(b: Seq<u8>, e: Endian) -> FileHeader {
    FileHeader {
        endian: e,
        machine: b[MACHINE_OFFSET as int],
        entry_point: u32_at(b, ENTRY_OFFSET as int, e) as u32,
        program_header_offset: u32_at(b, PH_OFFSET_OFFSET as int, e) as u32,
        section_header_offset: u32_at(b, SH_OFFSET_OFFSET as int, e) as u32,
        program_header_entry_size: u16_at(b, PH_ENTRY_SIZE_OFFSET as int, e) as u16,
        program_header_entry_amt: u16_at(b, PH_ENTRY_COUNT_OFFSET as int, e) as u16,
        section_header_entry_size: u16_at(b, SH_ENTRY_SIZE_OFFSET as int, e) as u16,
        section_header_entry_amt: u16_at(b, SH_ENTRY_COUNT_OFFSET as int, e) as u16,
    }
}

/// What decoding the header of `b` gives: the checks in order, then the fields.
pub open spec fn header_spec(b: Seq<u8>) -> Result<FileHeader, ElfError> {
    if !magic_ok(b) {
        Err(ElfError::MalformedHeader { fault: HeaderFault::InvalidMagic, offset: 0 })
    } else if b.len() <= BITNESS_OFFSET || (b[BITNESS_OFFSET as int] != 1
        && b[BITNESS_OFFSET as int] != 2) {
        Err(ElfError::MalformedHeader { fault: HeaderFault::InvalidBitnessFlag, offset: BITNESS_OFFSET as u64 })
    } else if b.len() <= ENDIAN_OFFSET || endian_of_flag(b[ENDIAN_OFFSET as int]) is None {
        Err(ElfError::MalformedHeader { fault: HeaderFault::InvalidEndiannessFlag, offset: ENDIAN_OFFSET as u64 })
    } else if b[BITNESS_OFFSET as int] == 2 {
        Err(ElfError::MalformedHeader { fault: HeaderFault::Unsupported64Bit, offset: BITNESS_OFFSET as u64 })
    } else if b.len() < HEADER_LEN {
        Err(ElfError::TruncatedEntry { offset: 0 })
    } else {
        Ok(header_fields(b, endian_of_flag(b[ENDIAN_OFFSET as int])->0))
    }
}

/// Reads the bitness byte: `false` for 32-bit, `true` for 64-bit.
pub fn is64bit(b: &[u8]) -> (r: Result<bool, ElfError>)
    ensures
        b@.len() > BITNESS_OFFSET && b@[BITNESS_OFFSET as int] == 1 ==> r == Ok::<bool, ElfError>(false),
        b@.len() > BITNESS_OFFSET && b@[BITNESS_OFFSET as int] == 2 ==> r == Ok::<bool, ElfError>(true),
        !(b@.len() > BITNESS_OFFSET && (b@[BITNESS_OFFSET as int] == 1 || b@[BITNESS_OFFSET as int] == 2))
            ==> r == Err::<bool, ElfError>(ElfError::MalformedHeader {
                fault: HeaderFault::InvalidBitnessFlag,
                offset: BITNESS_OFFSET as u64,
            }),
{
    if b.len() > BITNESS_OFFSET && b[BITNESS_OFFSET] == 1 {
        Ok(false)
    } else if b.len() > BITNESS_OFFSET && b[BITNESS_OFFSET] == 2 {
        Ok(true)
    } else {
        Err(ElfError::MalformedHeader { fault: HeaderFault::InvalidBitnessFlag, offset: BITNESS_OFFSET as u64 })
    }
}

/// Decodes the ELF32 file header of `b`.
pub fn read_header(b: &[u8]) -> (r: Result<FileHeader, ElfError>)
    ensures
        r == header_spec(b@),
{
    if b.len() < MAGIC_LEN || b[0] != 0x7f || b[1] != 0x45 || b[2] != 0x4c || b[3] != 0x46 {
        return Err(ElfError::MalformedHeader { fault: HeaderFault::InvalidMagic, offset: 0 });
    }
    if b.len() <= BITNESS_OFFSET || (b[BITNESS_OFFSET] != 1 && b[BITNESS_OFFSET] != 2) {
        return Err(
            ElfError::MalformedHeader { fault: HeaderFault::InvalidBitnessFlag, offset: BITNESS_OFFSET as u64 },
        );
    }
    let endian = if b.len() <= ENDIAN_OFFSET {
        return Err(
            ElfError::MalformedHeader { fault: HeaderFault::InvalidEndiannessFlag, offset: ENDIAN_OFFSET as u64 },
        );
    } else if b[ENDIAN_OFFSET] == 1 {
        Endian::Little
    } else if b[ENDIAN_OFFSET] == 2 {
        Endian::Big
    } else {
        return Err(
            ElfError::MalformedHeader { fault: HeaderFault::InvalidEndiannessFlag, offset: ENDIAN_OFFSET as u64 },
        );
    };
    if b[BITNESS_OFFSET] == 2 {
        return Err(
            ElfError::MalformedHeader { fault: HeaderFault::Unsupported64Bit, offset: BITNESS_OFFSET as u64 },
        );
    }
    if b.len() < HEADER_LEN {
        return Err(ElfError::TruncatedEntry { offset: 0 });
    }
    Ok(FileHeader {
        endian,
        machine: b[MACHINE_OFFSET],
        entry_point: read_u32(b, ENTRY_OFFSET, endian),
        program_header_offset: read_u32(b, PH_OFFSET_OFFSET, endian),
        section_header_offset: read_u32(b, SH_OFFSET_OFFSET, endian),
        program_header_entry_size: read_u16(b, PH_ENTRY_SIZE_OFFSET, endian),
        program_header_entry_amt: read_u16(b, PH_ENTRY_COUNT_OFFSET, endian),
        section_header_entry_size: read_u16(b, SH_ENTRY_SIZE_OFFSET, endian),
        section_header_entry_amt: read_u16(b, SH_ENTRY_COUNT_OFFSET, endian),
    })
}

impl FileHeader {
    /// Whether the machine byte marks RISC-V code; advisory only.
    pub fn is_riscv(&self) -> (r: bool)
        ensures
            r == (self.machine == RISCV_MACHINE),
    {
        self.machine == RISCV_MACHINE
    }

    /// Whether multi-byte fields are little-endian.
    pub fn is_le(&self) -> (r: bool)
        ensures
            r == (self.endian == Endian::Little),
    {
        match self.endian {
            Endian::Little => true,
            Endian::Big => false,
        }
    }
}

/// A full-length header with the ELF magic, bitness byte 1 and a valid
/// endianness byte is accepted; whatever is accepted has the magic and says
/// 32-bit; a bitness byte of 2 is always refused.
pub proof fn lemma_header_bitness(b: Seq<u8>)
    ensures
        magic_ok(b) && b.len() >= HEADER_LEN && b[BITNESS_OFFSET as int] == 1
            && endian_of_flag(b[ENDIAN_OFFSET as int]) is Some ==> header_spec(b) is Ok,
        header_spec(b) is Ok ==> magic_ok(b) && b[BITNESS_OFFSET as int] == 1,
        b.len() > BITNESS_OFFSET && b[BITNESS_OFFSET as int] == 2 ==> header_spec(b) is Err,
{
}

/// Every buffer shorter than the magic is refused as a malformed header.
pub proof fn lemma_short_buffer_refused(b: Seq<u8>)
    requires
        b.len() < MAGIC_LEN,
    ensures
        header_spec(b) == Err::<FileHeader, ElfError>(
            ElfError::MalformedHeader { fault: HeaderFault::InvalidMagic, offset: 0 },
        ),
{
}

} // verus!
