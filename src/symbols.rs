//! The symbol table: addresses of named symbols whose section occupies
//! memory at run time.

use vstd::prelude::*;
use std::collections::HashMap;
use crate::tables::SectionEntry;

verus! {

/// Section flag bit of a section that occupies memory at run time.
pub const SHF_ALLOC: u32 = 0x2;

/// The (value, section index, name) of each entry of the symbol table of
/// the file `data`, in table order; `None` when the file has no symbol
/// table or a part of it cannot be parsed.
pub uninterp spec fn symbol_records_of(data: Seq<u8>) -> Option<Seq<(u64, u16, Seq<char>)>>;

pub open spec fn records_view(v: Seq<(u64, u16, String)>) -> Seq<(u64, u16, Seq<char>)> {
    v.map_values(|r: (u64, u16, String)| (r.0, r.1, r.2@))
}

/// Relies on the elf crate (`ElfBytes::minimal_parse`,
/// `ElfBytes::find_common_data`, `StringTable::get`) to list the symbol
/// table's entries with their names; the result depends on the bytes alone.
#[verifier::external_body]
fn read_symbol_records(data: &[u8]) -> (r: Option<Vec<(u64, u16, String)>>)
    ensures
        match r {
            Some(v) => symbol_records_of(data@) == Some(records_view(v@)),
            None => symbol_records_of(data@) is None,
        },
{
    let file = elf::ElfBytes::<elf::endian::AnyEndian>::minimal_parse(data).ok()?;
    let common = file.find_common_data().ok()?;
    let strtab = common.symtab_strs?;
    common.symtab?.iter().map(|s| {
        Some((s.st_value, s.st_shndx, strtab.get(s.st_name as usize).ok()?.to_string()))
    }).collect()
}

/// Flags of the section a symbol belongs to: that of index `idx`, or of
/// section 0 when `idx` names no section.
pub open spec fn owning_flags(secs: Seq<SectionEntry>, idx: u16) -> Option<u32> {
    if (idx as int) < secs.len() {
        Some(secs[idx as int].flags)
    } else if secs.len() > 0 {
        Some(secs[0].flags)
    } else {
        None
    }
}

/// Whether a symbol record is kept: named, in a section that occupies memory.
pub open spec fn keeps(secs: Seq<SectionEntry>, rec: (u64, u16, Seq<char>)) -> bool {
    match owning_flags(secs, rec.1) {
        Some(f) => f & SHF_ALLOC == SHF_ALLOC && rec.2.len() > 0,
        None => false,
    }
}

/// The address-to-name map of the kept records, later records winning.
pub open spec fn symbol_map(recs: Seq<(u64, u16, Seq<char>)>, secs: Seq<SectionEntry>) -> Map<
    u64,
    Seq<char>,
>
    decreases recs.len(),
{
    if recs.len() == 0 {
        Map::empty()
    } else {
        let m = symbol_map(recs.drop_last(), secs);
        let r = recs.last();
        if keeps(secs, r) {
            m.insert(r.0, r.2)
        } else {
            m
        }
    }
}

pub open spec fn names_view(m: Map<u64, String>) -> Map<u64, Seq<char>> {
    m.map_values(|s: String| s@)
}

/// Collects the named symbols whose owning section occupies memory.
pub fn collect_symbols(recs: &Vec<(u64, u16, String)>, secs: &Vec<SectionEntry>) -> (r: HashMap<
    u64,
    String,
>)
    ensures
        names_view(r@) == symbol_map(records_view(recs@), secs@),
{
    let mut out: HashMap<u64, String> = HashMap::new();
    let mut i: usize = 0;
    proof {
        assert(names_view(out@) =~= Map::empty());
    }
    while i < recs.len()
        invariant
            i <= recs@.len(),
            names_view(out@) == symbol_map(records_view(recs@.take(i as int)), secs@),
        decreases recs@.len() - i,
    {
        let (value, idx, name) = &recs[i];
        proof {
            assert(records_view(recs@.take(i as int + 1)).drop_last() =~= records_view(
                recs@.take(i as int),
            ));
            assert(records_view(recs@.take(i as int + 1)).last() == (*value, *idx, name@));
        }
        let flags: Option<u32> = if (*idx as usize) < secs.len() {
            Some(secs[*idx as usize].flags)
        } else if secs.len() > 0 {
            Some(secs[0].flags)
        } else {
            None
        };
        let keep = match flags {
            Some(f) => f & SHF_ALLOC == SHF_ALLOC && !name.as_str().is_empty(),
            None => false,
        };
        if keep {
            let ghost before = out@;
            out.insert(*value, name.clone());
            proof {
                assert(names_view(out@) =~= names_view(before).insert(*value, name@));
            }
        }
        i = i + 1;
    }
    proof {
        assert(recs@.take(recs@.len() as int) == recs@);
    }
    out
}

/// The symbol map of the file `data`, read with its decoded sections
/// `secs`; empty when the file has no readable symbol table.
pub fn get_symbols(data: &[u8], secs: &Vec<SectionEntry>) -> (r: HashMap<u64, String>)
    ensures
        match symbol_records_of(data@) {
            Some(recs) => names_view(r@) == symbol_map(recs, secs@),
            None => r@ == Map::<u64, String>::empty(),
        },
{
    match read_symbol_records(data) {
        Some(recs) => collect_symbols(&recs, secs),
        None => HashMap::new(),
    }
}

} // verus!
