//! The memory image of an ELF32 file, with its symbol table.

use vstd::prelude::*;
use std::collections::{BTreeMap, HashMap};
use crate::bytes::Endian;
use crate::dump::{dump_entries, dump_spec, listing, listing_of};
use crate::header::{ElfError, header_spec, read_header};
use crate::image::{build_image, image_spec};
use crate::symbols::{get_symbols, names_view, symbol_map, symbol_records_of};
use crate::tables::{programs_spec, read_programs, read_sections, sections_spec};

verus! {

/// Loadable bytes by address, and symbol names by address.
pub struct Memory {
    pub bytes: BTreeMap<u64, u8>,
    pub symbols: HashMap<u64, String>,
}

/// Byte order in which the image lays out each 4-byte word: with `le` set,
/// each little-endian word is written most significant byte first.
pub open spec fn layout_of(le: bool) -> Endian {
    if le {
        Endian::Big
    } else {
        Endian::Little
    }
}

/// The memory image of the file `b`, or the first decoding failure.
pub open spec fn memory_spec(b: Seq<u8>, le: bool) -> Result<Map<u64, u8>, ElfError> {
    match header_spec(b) {
        Err(e) => Err(e),
        Ok(h) => match programs_spec(b, h) {
            Err(e) => Err(e),
            Ok(ps) => image_spec(ps, b, layout_of(le)),
        },
    }
}

/// The symbols of the file `b`: those of its symbol table whose owning
/// section occupies memory; none when the sections or the table cannot be read.
pub open spec fn symbols_spec(b: Seq<u8>, m: Map<u64, String>) -> bool {
    match header_spec(b) {
        Ok(h) => match (sections_spec(b, h), symbol_records_of(b)) {
            (Ok(secs), Some(recs)) => names_view(m) == symbol_map(recs, secs),
            _ => m == Map::<u64, String>::empty(),
        },
        Err(_) => m == Map::<u64, String>::empty(),
    }
}

impl Memory {
    /// Decodes the file `elf_file` and builds the image of its loadable
    /// segments, together with its symbol table.
    pub fn new_from_file(elf_file: &Vec<u8>, le: bool) -> (r: Result<Memory, ElfError>)
        ensures
            match (r, memory_spec(elf_file@, le)) {
                (Ok(mem), Ok(m)) => mem.bytes@ == m && symbols_spec(elf_file@, mem.symbols@),
                (Err(x), Err(y)) => x == y,
                _ => false,
            },
    {
        let b = elf_file.as_slice();
        let h = read_header(b)?;
        let ps = read_programs(b, &h)?;
        let target = if le { Endian::Big } else { Endian::Little };
        let bytes = build_image(&ps, b, target)?;
        let symbols = match read_sections(b, &h) {
            Ok(secs) => get_symbols(b, &secs),
            Err(_) => HashMap::new(),
        };
        Ok(Memory { bytes, symbols })
    }

    /// The image's entries by increasing address.
    pub fn entries(&self) -> (r: Vec<(u64, u8)>)
        ensures
            r@ == listing_of(self.bytes@),
    {
        listing(&self.bytes)
    }

    /// The textual dump of the image: one `Address 0x%08x:     0x` line per
    /// group of four bytes by increasing address, each byte as two hex digits.
    pub fn dump(&self) -> (r: String)
        ensures
            r@ == dump_spec(listing_of(self.bytes@)),
    {
        let e = self.entries();
        dump_entries(&e)
    }
}

} // verus!
