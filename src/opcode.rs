//! Classification of RISC-V instruction words by their 7-bit opcode field.

use vstd::prelude::*;
use crate::bytes::{Endian, read_u32, u32_at};
use crate::header::ElfError;

verus! {

/// The opcode classes of the RV32I base instruction set.
#[derive(Clone, Copy, Debug, PartialEq, Eq, Structural)]
pub enum Opcode {
    Lui,
    Auipc,
    Jal,
    Jalr,
    Branch,
    Load,
    Store,
    OpImm,
    Op,
    Fence,
    System,
    /// A 7-bit pattern that the base set does not assign.
    Unrecognized,
}

/// The class of a 7-bit opcode field.
pub open spec fn opcode_spec(bits: u8) -> Opcode {
    if bits == 0b0110111 {
        Opcode::Lui
    } else if bits == 0b0010111 {
        Opcode::Auipc
    } else if bits == 0b1101111 {
        Opcode::Jal
    } else if bits == 0b1100111 {
        Opcode::Jalr
    } else if bits == 0b1100011 {
        Opcode::Branch
    } else if bits == 0b0000011 {
        Opcode::Load
    } else if bits == 0b0100011 {
        Opcode::Store
    } else if bits == 0b0010011 {
        Opcode::OpImm
    } else if bits == 0b0110011 {
        Opcode::Op
    } else if bits == 0b0001111 {
        Opcode::Fence
    } else if bits == 0b1110011 {
        Opcode::System
    } else {
        Opcode::Unrecognized
    }
}

/// Maps a 7-bit opcode field to its class; any other value, and any value
/// with bit 7 set, is `Unrecognized`.
pub fn bits_to_opcode(bits: u8) -> (r: Opcode)
    ensures
        r == opcode_spec(bits),
{
    match bits {
        0b0110111 => Opcode::Lui,
        0b0010111 => Opcode::Auipc,
        0b1101111 => Opcode::Jal,
        0b1100111 => Opcode::Jalr,
        0b1100011 => Opcode::Branch,
        0b0000011 => Opcode::Load,
        0b0100011 => Opcode::Store,
        0b0010011 => Opcode::OpImm,
        0b0110011 => Opcode::Op,
        0b0001111 => Opcode::Fence,
        0b1110011 => Opcode::System,
        _ => Opcode::Unrecognized,
    }
}

/// A classified instruction word and its byte offset in the file.
#[derive(Clone, Copy, Debug, PartialEq, Eq, Structural)]
pub struct Instruction {
    pub opcode: Opcode,
    pub offset: u64,
}

impl Instruction {
    pub fn new(opcode: Opcode, offset: u64) -> (r: Instruction)
        ensures
            r == (Instruction { opcode, offset }),
    {
        Instruction { opcode, offset }
    }
}

/// The instruction of the word at `off`, read in byte order `e`.
pub open spec fn instruction_at(b: Seq<u8>, off: int, e: Endian) -> Instruction {
    Instruction { opcode: opcode_spec((u32_at(b, off, e) % 128) as u8), offset: off as u64 }
}

/// The instructions of the first `k` complete words of the span at `off`.
pub open spec fn span_words(b: Seq<u8>, off: int, k: nat, e: Endian) -> Seq<Instruction> {
    Seq::new(k, |w: int| instruction_at(b, off + 4 * w, e))
}

/// The instructions of the spans, span by span and word by word; the
/// error for the first span that reaches past the buffer.
pub open spec fn classify_spec(b: Seq<u8>, spans: Seq<(u32, u32)>, e: Endian) -> Result<
    Seq<Instruction>,
    ElfError,
>
    decreases spans.len(),
{
    if spans.len() == 0 {
        Ok(Seq::empty())
    } else {
        match classify_spec(b, spans.drop_last(), e) {
            Err(err) => Err(err),
            Ok(s) => {
                let (off, size) = spans.last();
                if off as int + size as int > b.len() {
                    Err(ElfError::TruncatedEntry { offset: off as u64 })
                } else {
                    Ok(s + span_words(b, off as int, (size / 4) as nat, e))
                }
            },
        }
    }
}

proof fn lemma_classify_error_persists(b: Seq<u8>, spans: Seq<(u32, u32)>, k: int, e: Endian)
    requires
        0 <= k <= spans.len(),
        classify_spec(b, spans.take(k), e) is Err,
    ensures
        classify_spec(b, spans, e) == classify_spec(b, spans.take(k), e),
    decreases spans.len() - k,
{
    if k < spans.len() {
        assert(spans.drop_last().take(k) == spans.take(k));
        lemma_classify_error_persists(b, spans.drop_last(), k, e);
    } else {
        assert(spans.take(k) == spans);
    }
}

/// Classifies every complete 4-byte word of each span, in span order and
/// then word order; trailing bytes that do not form a word are skipped.
pub fn classify(b: &[u8], spans: &Vec<(u32, u32)>, e: Endian) -> (r: Result<Vec<Instruction>, ElfError>)
    ensures
        match (r, classify_spec(b@, spans@, e)) {
            (Ok(v), Ok(s)) => v@ == s,
            (Err(x), Err(y)) => x == y,
            _ => false,
        },
{
    let mut out: Vec<Instruction> = Vec::new();
    let mut si: usize = 0;
    while si < spans.len()
        invariant
            si <= spans@.len(),
            classify_spec(b@, spans@.take(si as int), e) == Ok::<Seq<Instruction>, ElfError>(out@),
        decreases spans@.len() - si,
    {
        let (off, size) = spans[si];
        proof {
            assert(spans@.take(si as int + 1).drop_last() == spans@.take(si as int));
        }
        if off as u64 + size as u64 > b.len() as u64 {
            proof {
                lemma_classify_error_persists(b@, spans@, si as int + 1, e);
            }
            return Err(ElfError::TruncatedEntry { offset: off as u64 });
        }
        let ghost before = out@;
        assert(b@.len() == b.len());
        let words: u32 = size / 4;
        let mut w: u32 = 0;
        while w < words
            invariant
                w <= words,
                words == size / 4,
                off as int + size as int <= b@.len() <= usize::MAX,
                out@ == before + span_words(b@, off as int, w as nat, e),
            decreases words - w,
        {
            assert(4 * (w as int) + 4 <= size as int);
            let at: u64 = off as u64 + 4 * (w as u64);
            assert(at + 4 <= b@.len() <= usize::MAX);
            let word = read_u32(b, at as usize, e);
            assert((word & 0x7f) == word % 128 && (word & 0x7f) < 128) by (bit_vector);
            let bits: u8 = (word & 0x7f) as u8;
            out.push(Instruction::new(bits_to_opcode(bits), at));
            proof {
                assert(span_words(b@, off as int, (w + 1) as nat, e) =~= span_words(
                    b@,
                    off as int,
                    w as nat,
                    e,
                ).push(instruction_at(b@, at as int, e)));
                assert(out@ =~= before + span_words(b@, off as int, (w + 1) as nat, e));
            }
            w = w + 1;
        }
        si = si + 1;
    }
    proof {
        assert(spans@.take(spans@.len() as int) == spans@);
    }
    Ok(out)
}

/// Every one of the 128 opcode fields has a class, and the classes of the
/// base set are exactly their assigned patterns.
pub proof fn lemma_opcode_table(bits: u8)
    requires
        bits < 128,
    ensures
        opcode_spec(bits) == Opcode::Op <==> bits == 0b0110011,
        opcode_spec(bits) == Opcode::Branch <==> bits == 0b1100011,
        opcode_spec(0b1111111) == Opcode::Unrecognized,
{
}

} // verus!
