//! A decoded ELF32 file: its header and its classified instructions.

use vstd::prelude::*;
use crate::header::{ElfError, FileHeader, header_spec, read_header};
use crate::opcode::{Instruction, classify, classify_spec};
use crate::tables::{executable_spans, read_sections, sections_spec, spans_spec};

verus! {

/// The executable spans of the file `b` with header `h`.
pub open spec fn exec_spans_spec(b: Seq<u8>, h: FileHeader) -> Result<Seq<(u32, u32)>, ElfError> {
    match sections_spec(b, h) {
        Err(e) => Err(e),
        Ok(s) => Ok(spans_spec(s)),
    }
}

/// The instructions of the executable sections of the file `b` with header `h`.
pub open spec fn instructions_spec(b: Seq<u8>, h: FileHeader) -> Result<Seq<Instruction>, ElfError> {
    match exec_spans_spec(b, h) {
        Err(e) => Err(e),
        Ok(spans) => classify_spec(b, spans, h.endian),
    }
}

/// A decoded ELF32 file.
pub struct Elf32 {
    bytes: Vec<u8>,
    header: FileHeader,
    instructions: Vec<Instruction>,
}

impl Elf32 {
    pub closed spec fn spec_bytes(&self) -> Seq<u8> {
        self.bytes@
    }

    pub closed spec fn spec_header(&self) -> FileHeader {
        self.header
    }

    pub closed spec fn spec_instructions(&self) -> Seq<Instruction> {
        self.instructions@
    }

    /// Decodes the header of `bytes` and classifies every word of its
    /// executable sections.
    pub fn new(bytes: Vec<u8>) -> (r: Result<Elf32, ElfError>)
        ensures
            match r {
                Ok(elf) => {
                    &&& elf.spec_bytes() == bytes@
                    &&& header_spec(bytes@) == Ok::<FileHeader, ElfError>(elf.spec_header())
                    &&& instructions_spec(bytes@, elf.spec_header()) == Ok::<
                        Seq<Instruction>,
                        ElfError,
                    >(elf.spec_instructions())
                },
                Err(e) => match header_spec(bytes@) {
                    Err(f) => e == f,
                    Ok(h) => instructions_spec(bytes@, h) == Err::<Seq<Instruction>, ElfError>(e),
                },
            },
    {
        let header = read_header(bytes.as_slice())?;
        let sections = read_sections(bytes.as_slice(), &header)?;
        let spans = executable_spans(&sections);
        let instructions = classify(bytes.as_slice(), &spans, header.endian)?;
        Ok(Elf32 { bytes, header, instructions })
    }

    /// The (file offset, size) of each executable section, in index order.
    pub fn executable_sections(&self) -> (r: Result<Vec<(u32, u32)>, ElfError>)
        ensures
            match (r, exec_spans_spec(self.spec_bytes(), self.spec_header())) {
                (Ok(v), Ok(s)) => v@ == s,
                (Err(x), Err(y)) => x == y,
                _ => false,
            },
    {
        let sections = read_sections(self.bytes.as_slice(), &self.header)?;
        Ok(executable_spans(&sections))
    }

    pub fn header(&self) -> (r: FileHeader)
        ensures
            r == self.spec_header(),
    {
        self.header
    }

    pub fn instructions(&self) -> (r: &Vec<Instruction>)
        ensures
            r@ == self.spec_instructions(),
    {
        &self.instructions
    }

    pub fn bytes(&self) -> (r: &Vec<u8>)
        ensures
            r@ == self.spec_bytes(),
    {
        &self.bytes
    }
}

} // verus!
