//! The textual dump of a memory image: one line per group of four bytes.

use vstd::prelude::*;
use vstd::string::StringExecFns;
use vstd::std_specs::iter::IteratorSpec;
use vstd::std_specs::cmp::OrdSpec;
use std::collections::BTreeMap;

verus! {

/// The lowercase hexadecimal digit of `d`.
pub open spec fn hex_digit(d: int) -> Seq<char> {
    if d == 0 { "0"@ } else if d == 1 { "1"@ } else if d == 2 { "2"@ } else if d == 3 { "3"@ }
    else if d == 4 { "4"@ } else if d == 5 { "5"@ } else if d == 6 { "6"@ } else if d == 7 { "7"@ }
    else if d == 8 { "8"@ } else if d == 9 { "9"@ } else if d == 10 { "a"@ } else if d == 11 { "b"@ }
    else if d == 12 { "c"@ } else if d == 13 { "d"@ } else if d == 14 { "e"@ } else { "f"@ }
}

/// `n` in lowercase hexadecimal, zero-padded to at least `width` digits.
pub open spec fn hex_min(n: nat, width: nat) -> Seq<char>
    decreases n + width,
{
    if n < 16 && width <= 1 {
        hex_digit(n as int)
    } else {
        hex_min(n / 16, if width > 0 { (width - 1) as nat } else { 0 }) + hex_digit(n as int % 16)
    }
}

/// What comes before byte `i` of the listing, whose address is `a`.
pub open spec fn line_prefix(i: int, a: u64) -> Seq<char> {
    if i % 4 == 0 {
        (if i != 0 { "\n"@ } else { ""@ }) + "Address 0x"@ + hex_min(a as nat, 8) + ":     0x"@
    } else {
        ""@
    }
}

/// The text of the listing `e` of (address, byte) pairs, without the final newline.
pub open spec fn dump_body(e: Seq<(u64, u8)>) -> Seq<char>
    decreases e.len(),
{
    if e.len() == 0 {
        Seq::empty()
    } else {
        let i = e.len() - 1;
        dump_body(e.drop_last()) + line_prefix(i, e[i].0) + hex_min(e[i].1 as nat, 2)
    }
}

/// The dump of the listing `e`.
pub open spec fn dump_spec(e: Seq<(u64, u8)>) -> Seq<char> {
    dump_body(e) + "\n"@
}

/// `e` lists the entries of `m` by increasing address.
pub open spec fn is_listing(e: Seq<(u64, u8)>, m: Map<u64, u8>) -> bool {
    &&& forall|i: int, j: int| 0 <= i < j < e.len() ==> e[i].0 < e[j].0
    &&& forall|i: int| 0 <= i < e.len() ==> m.contains_key(#[trigger] e[i].0) && m[e[i].0] == e[i].1
    &&& forall|a: u64| #[trigger] m.contains_key(a) ==> exists|i: int| 0 <= i < e.len() && e[i].0 == a
}

/// The listing of `m` by increasing address.
pub open spec fn listing_of(m: Map<u64, u8>) -> Seq<(u64, u8)> {
    choose|e: Seq<(u64, u8)>| is_listing(e, m)
}

/// A map has exactly one listing by increasing address.
pub proof fn lemma_listing_unique(e1: Seq<(u64, u8)>, e2: Seq<(u64, u8)>, m: Map<u64, u8>)
    requires
        is_listing(e1, m),
        is_listing(e2, m),
    ensures
        e1 == e2,
    decreases e1.len(),
{
    if e1.len() == 0 {
        if e2.len() > 0 {
            assert(m.contains_key(e2[0].0));
        }
        assert(e1 =~= e2);
    } else {
        if e2.len() == 0 {
            assert(m.contains_key(e1[0].0));
        }
        let k1 = e1.last().0;
        let k2 = e2.last().0;
        assert(m.contains_key(k1) && m.contains_key(k2));
        let i2 = choose|i: int| 0 <= i < e2.len() && e2[i].0 == k1;
        let i1 = choose|i: int| 0 <= i < e1.len() && e1[i].0 == k2;
        assert(k1 == k2) by {
            if k1 < k2 {
                assert(i1 == e1.len() - 1 || e1[i1].0 < k1);
            } else if k2 < k1 {
                assert(i2 == e2.len() - 1 || e2[i2].0 < k2);
            }
        }
        let m2 = m.remove(k1);
        let d1 = e1.drop_last();
        let d2 = e2.drop_last();
        assert forall|a: u64| #[trigger] m2.contains_key(a) implies exists|i: int|
            0 <= i < d1.len() && d1[i].0 == a by {
            let i = choose|i: int| 0 <= i < e1.len() && e1[i].0 == a;
            assert(d1[i].0 == a);
        }
        assert forall|a: u64| #[trigger] m2.contains_key(a) implies exists|i: int|
            0 <= i < d2.len() && d2[i].0 == a by {
            let i = choose|i: int| 0 <= i < e2.len() && e2[i].0 == a;
            assert(d2[i].0 == a);
        }
        assert forall|i: int| 0 <= i < d1.len() implies m2.contains_key(#[trigger] d1[i].0)
            && m2[d1[i].0] == d1[i].1 by {
            assert(e1[i].0 < k1);
        }
        assert forall|i: int| 0 <= i < d2.len() implies m2.contains_key(#[trigger] d2[i].0)
            && m2[d2[i].0] == d2[i].1 by {
            assert(e2[i].0 < k2);
        }
        lemma_listing_unique(d1, d2, m2);
        assert(m[e1[e1.len() - 1].0] == e1[e1.len() - 1].1);
        assert(m[e2[e2.len() - 1].0] == e2[e2.len() - 1].1);
        assert(e1 =~= d1.push(e1.last()));
        assert(e2 =~= d2.push(e2.last()));
    }
}

fn digit_str(d: u64) -> (r: &'static str)
    requires
        d < 16,
    ensures
        r@ == hex_digit(d as int),
{
    match d {
        0 => "0",
        1 => "1",
        2 => "2",
        3 => "3",
        4 => "4",
        5 => "5",
        6 => "6",
        7 => "7",
        8 => "8",
        9 => "9",
        10 => "a",
        11 => "b",
        12 => "c",
        13 => "d",
        14 => "e",
        _ => "f",
    }
}

/// Appends `n` in lowercase hexadecimal, zero-padded to `width` digits.
fn append_hex(s: &mut String, n: u64, width: u64)
    ensures
        final(s)@ == old(s)@ + hex_min(n as nat, width as nat),
    decreases n + width,
{
    if n < 16 && width <= 1 {
        s.append(digit_str(n));
    } else {
        let w = if width > 0 { width - 1 } else { 0 };
        append_hex(s, n / 16, w);
        s.append(digit_str(n % 16));
        proof {
            assert(old(s)@ + hex_min(n as nat / 16, w as nat) + hex_digit(n as int % 16) == old(s)@
                + hex_min(n as nat, width as nat));
        }
    }
}

/// The dump of a listing: for each group of four entries a line
/// `Address 0x%08x:     0x` followed by the four bytes as two lowercase
/// hex digits each; the text ends with a newline.
pub fn dump_entries(e: &Vec<(u64, u8)>) -> (r: String)
    ensures
        r@ == dump_spec(e@),
{
    let mut s = String::new();
    let mut i: usize = 0;
    while i < e.len()
        invariant
            i <= e@.len(),
            s@ == dump_body(e@.take(i as int)),
        decreases e@.len() - i,
    {
        let (a, v) = e[i];
        proof {
            assert(e@.take(i as int + 1).drop_last() == e@.take(i as int));
        }
        let ghost s0 = s@;
        proof {
            reveal_strlit("");
        }
        if i % 4 == 0 {
            if i != 0 {
                s.append("\n");
            }
            s.append("Address 0x");
            append_hex(&mut s, a, 8);
            s.append(":     0x");
        }
        assert(s@ =~= s0 + line_prefix(i as int, a));
        let ghost s1 = s@;
        append_hex(&mut s, v as u64, 2);
        proof {
            assert(s@ =~= s1 + hex_min(v as nat, 2));
            assert(dump_body(e@.take(i as int + 1)) == dump_body(e@.take(i as int)) + line_prefix(
                i as int,
                a,
            ) + hex_min(v as nat, 2));
        }
        i = i + 1;
    }
    proof {
        assert(e@.take(e@.len() as int) == e@);
    }
    s.append("\n");
    s
}

/// The entries of `m` by increasing address.
pub fn listing(m: &BTreeMap<u64, u8>) -> (r: Vec<(u64, u8)>)
    ensures
        is_listing(r@, m@),
        r@ == listing_of(m@),
{
    broadcast use vstd::laws_cmp::group_laws_cmp;
    let mut out: Vec<(u64, u8)> = Vec::new();
    let iter = m.iter();
    let ghost rem = iter.remaining();
    for kv in it: iter
        invariant
            it.seq() == rem,
            out@.len() == it.index(),
            forall|i: int| 0 <= i < out@.len() ==> out@[i] == (*it.seq()[i].0, *it.seq()[i].1),
    {
        out.push((*kv.0, *kv.1));
    }
    proof {
        assert(vstd::laws_cmp::obeys_cmp::<u64>());
        assert(vstd::std_specs::btree::key_obeys_cmp_spec::<u64>());
        let keys = rem.map_values(|kv: (&u64, &u8)| *kv.0);
        assert(vstd::std_specs::btree::increasing_seq(keys));
        vstd::std_specs::btree::axiom_increasing_seq_meaning(keys);
        assert forall|i: int, j: int| 0 <= i < j < out@.len() implies out@[i].0 < out@[j].0 by {
            assert(keys[i] == out@[i].0 && keys[j] == out@[j].0);
            assert(keys[i].cmp_spec(&keys[j]) is Less);
        }
        assert forall|a: u64| #[trigger] m@.contains_key(a) implies exists|i: int|
            0 <= i < out@.len() && out@[i].0 == a by {
            assert(rem.contains((&a, &m@[a])));
            let i = choose|i: int| 0 <= i < rem.len() && rem[i] == (&a, &m@[a]);
            assert(out@[i].0 == a);
        }
        assert(is_listing(out@, m@));
        lemma_listing_unique(out@, listing_of(m@), m@);
    }
    out
}

} // verus!
