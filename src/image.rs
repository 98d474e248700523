//! The flat memory image built from the loadable segments.

use vstd::prelude::*;
use std::collections::BTreeMap;
use crate::bytes::Endian;
use crate::header::ElfError;
use crate::tables::{ProgramEntry, PT_LOAD};

verus! {

/// Offset within the segment data of the byte that lands at offset `k` of
/// the segment in the image. Each 4-byte group is read as a little-endian
/// word; `Big` writes it back most significant byte first, `Little` as it was.
pub open spec fn source_index(k: int, target: Endian) -> int {
    match target {
        Endian::Little => k,
        Endian::Big => k - k % 4 + (3 - k % 4),
    }
}

/// `m` with the first `k` bytes of the segment whose data starts at `off`
/// in `b` placed from address `vaddr` on.
pub open spec fn place_prefix(
    m: Map<u64, u8>,
    b: Seq<u8>,
    off: int,
    vaddr: int,
    k: int,
    target: Endian,
) -> Map<u64, u8> {
    Map::new(
        |a: u64| m.contains_key(a) || (vaddr <= a < vaddr + k),
        |a: u64|
            if vaddr <= a < vaddr + k {
                b[off + source_index(a - vaddr, target)]
            } else {
                m[a]
            },
    )
}

/// Bytes of a segment of `size` bytes that form whole words.
pub open spec fn whole_words(size: u32) -> int {
    4 * (size / 4) as int
}

/// `m` with the whole words of segment `p` placed; trailing bytes dropped.
pub open spec fn place_segment(m: Map<u64, u8>, b: Seq<u8>, p: ProgramEntry, target: Endian) -> Map<
    u64,
    u8,
> {
    place_prefix(m, b, p.offset as int, p.virtual_addr as int, whole_words(p.file_size), target)
}

/// The image of the loadable entries of `ps`, later entries overwriting
/// earlier ones; the error for the first loadable entry whose data reaches
/// past the buffer.
pub open spec fn image_spec(ps: Seq<ProgramEntry>, b: Seq<u8>, target: Endian) -> Result<
    Map<u64, u8>,
    ElfError,
>
    decreases ps.len(),
{
    if ps.len() == 0 {
        Ok(Map::empty())
    } else {
        match image_spec(ps.drop_last(), b, target) {
            Err(e) => Err(e),
            Ok(m) => {
                let p = ps.last();
                if p.seg_type != PT_LOAD {
                    Ok(m)
                } else if p.offset as int + p.file_size as int > b.len() {
                    Err(ElfError::TruncatedEntry { offset: p.offset as u64 })
                } else {
                    Ok(place_segment(m, b, p, target))
                }
            },
        }
    }
}

/// Places the whole words of segment `p` into `m`.
fn place_words(m: &mut BTreeMap<u64, u8>, b: &[u8], p: ProgramEntry, target: Endian)
    requires
        p.offset as int + p.file_size as int <= b@.len(),
    ensures
        final(m)@ == place_segment(old(m)@, b@, p, target),
{
    let ghost m0 = old(m)@;
    assert(b@.len() == b.len());
    let words: u32 = p.file_size / 4;
    let mut i: u32 = 0;
    while i < words
        invariant
            i <= words,
            words == p.file_size / 4,
            p.offset as int + p.file_size as int <= b@.len() <= usize::MAX,
            m@ == place_prefix(m0, b@, p.offset as int, p.virtual_addr as int, 4 * i, target),
        decreases words - i,
    {
        assert(4 * (i as int) + 4 <= p.file_size as int);
        let mut j: u32 = 0;
        while j < 4
            invariant
                i < words,
                j <= 4,
                4 * (i as int) + 4 <= p.file_size as int,
                p.offset as int + p.file_size as int <= b@.len() <= usize::MAX,
                m@ == place_prefix(m0, b@, p.offset as int, p.virtual_addr as int, 4 * i + j, target),
            decreases 4 - j,
        {
            let k: u32 = 4 * i + j;
            let src: u32 = match target {
                Endian::Little => k,
                Endian::Big => 4 * i + (3 - j),
            };
            let byte = b[p.offset as usize + src as usize];
            let addr: u64 = p.virtual_addr as u64 + k as u64;
            m.insert(addr, byte);
            proof {
                assert(k as int % 4 == j as int);
                assert(source_index(k as int, target) == src as int);
                assert(m@ =~= place_prefix(
                    m0,
                    b@,
                    p.offset as int,
                    p.virtual_addr as int,
                    4 * i + j + 1,
                    target,
                ));
            }
            j = j + 1;
        }
        i = i + 1;
    }
}

/// Builds the memory image of the loadable entries of `ps` from the file
/// bytes `b`; other entry types are ignored.
pub fn build_image(ps: &Vec<ProgramEntry>, b: &[u8], target: Endian) -> (r: Result<BTreeMap<u64, u8>, ElfError>)
    ensures
        match (r, image_spec(ps@, b@, target)) {
            (Ok(m), Ok(s)) => m@ == s,
            (Err(x), Err(y)) => x == y,
            _ => false,
        },
{
    let mut m: BTreeMap<u64, u8> = BTreeMap::new();
    let mut i: usize = 0;
    while i < ps.len()
        invariant
            i <= ps@.len(),
            image_spec(ps@.take(i as int), b@, target) == Ok::<Map<u64, u8>, ElfError>(m@),
        decreases ps@.len() - i,
    {
        let p = ps[i];
        proof {
            assert(ps@.take(i as int + 1).drop_last() == ps@.take(i as int));
        }
        if p.seg_type == PT_LOAD {
            if p.offset as u64 + p.file_size as u64 > b.len() as u64 {
                proof {
                    lemma_image_error_persists(ps@, b@, target, i as int + 1);
                }
                return Err(ElfError::TruncatedEntry { offset: p.offset as u64 });
            }
            place_words(&mut m, b, p, target);
        }
        i = i + 1;
    }
    proof {
        assert(ps@.take(ps@.len() as int) == ps@);
    }
    Ok(m)
}

proof fn lemma_image_error_persists(ps: Seq<ProgramEntry>, b: Seq<u8>, target: Endian, k: int)
    requires
        0 <= k <= ps.len(),
        image_spec(ps.take(k), b, target) is Err,
    ensures
        image_spec(ps, b, target) == image_spec(ps.take(k), b, target),
    decreases ps.len() - k,
{
    if k < ps.len() {
        assert(ps.drop_last().take(k) == ps.take(k));
        lemma_image_error_persists(ps.drop_last(), b, target, k);
    } else {
        assert(ps.take(k) == ps);
    }
}

/// The layout is a per-word transform: byte `j` of word `i` comes from
/// byte `3 - j` of the same word for `Big`, and from byte `j` for `Little`.
pub proof fn lemma_word_layout(i: int, j: int)
    requires
        0 <= i,
        0 <= j < 4,
    ensures
        source_index(4 * i + j, Endian::Big) == 4 * i + 3 - j,
        source_index(4 * i + j, Endian::Little) == 4 * i + j,
{
    assert((4 * i + j) % 4 == j);
}

/// Later loadable segments win: once a loadable entry is appended, each
/// address that its whole words cover holds its byte, and every other
/// address keeps what the earlier entries gave it.
pub proof fn lemma_last_write_wins(
    ps: Seq<ProgramEntry>,
    p: ProgramEntry,
    b: Seq<u8>,
    target: Endian,
    a: u64,
)
    requires
        image_spec(ps, b, target) is Ok,
        p.seg_type == PT_LOAD,
        p.offset as int + p.file_size as int <= b.len(),
    ensures
        ({
            let m0 = image_spec(ps, b, target)->Ok_0;
            let m = image_spec(ps.push(p), b, target)->Ok_0;
            let start = p.virtual_addr as int;
            &&& image_spec(ps.push(p), b, target) is Ok
            &&& start <= a < start + whole_words(p.file_size) ==> m.contains_key(a) && m[a]
                == b[p.offset as int + source_index(a - start, target)]
            &&& !(start <= a < start + whole_words(p.file_size)) ==> (m.contains_key(a)
                == m0.contains_key(a) && (m0.contains_key(a) ==> m[a] == m0[a]))
        }),
{
    assert(ps.push(p).drop_last() == ps);
}

} // verus!
