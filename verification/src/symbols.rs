//! The tables that name the symbol behind a slot: the indirect symbol table,
//! the symbol table and the string table.

use vstd::prelude::*;
use vstd::slice::slice_subrange;
use crate::bytes::{in_bounds, le_u32, read_u32};
use crate::constants::{INDIRECT_SYMBOL_ABS, INDIRECT_SYMBOL_LOCAL};
use crate::macho::{Dysymtab, Symtab, Width};

verus! {

/// The two table commands of an image.
#[derive(Clone, Copy, Debug, PartialEq, Eq, Structural)]
pub struct Tables {
    /// The symbol table command.
    pub symtab: Symtab,
    /// The dynamic symbol table command.
    pub dysymtab: Dysymtab,
}

/// Entry `position` of the indirect symbol table, if the table has that many
/// entries and the entry lies inside the image.
pub open spec fn indirect_index(image: Seq<u8>, dysymtab: Dysymtab, position: int) -> Option<u32> {
    if 0 <= position < dysymtab.nindirectsyms && in_bounds(
        image.len() as int,
        dysymtab.indirectsymoff + 4 * position,
        4,
    ) {
        Some(le_u32(image, dysymtab.indirectsymoff + 4 * position))
    } else {
        None
    }
}

/// Reads entry `position` of the indirect symbol table.
pub fn read_indirect_index(image: &[u8], dysymtab: &Dysymtab, position: u64) -> (r: Option<u32>)
    ensures
        r == indirect_index(image@, *dysymtab, position as int),
{
    if position >= dysymtab.nindirectsyms as u64 {
        return None;
    }
    let at: u64 = dysymtab.indirectsymoff as u64 + 4 * position;
    if at > image.len() as u64 {
        return None;
    }
    read_u32(image, at as usize)
}

/// Whether an entry of the indirect symbol table stands for a local or an
/// absolute symbol, or for one that is both. Such an entry names no symbol.
pub open spec fn is_special_index(index: u32) -> bool {
    index == INDIRECT_SYMBOL_ABS || index == INDIRECT_SYMBOL_LOCAL || index == 0xc000_0000u32
}

/// Tells whether an entry of the indirect symbol table names no symbol.
pub fn names_no_symbol(index: u32) -> (r: bool)
    ensures
        r == is_special_index(index),
{
    assert(INDIRECT_SYMBOL_ABS | INDIRECT_SYMBOL_LOCAL == 0xc000_0000u32) by (bit_vector);
    index == INDIRECT_SYMBOL_ABS || index == INDIRECT_SYMBOL_LOCAL || index == (INDIRECT_SYMBOL_ABS
        | INDIRECT_SYMBOL_LOCAL)
}

/// Offset in the image of the entry `index` of the symbol table.
pub open spec fn nlist_offset(width: Width, symtab: Symtab, index: u32) -> int {
    match width {
        Width::Bits32 => symtab.symoff + index * 12,
        Width::Bits64 => symtab.symoff + index * 16,
    }
}

/// Offset in the image at which the name of symbol `index` starts: the symbol
/// table has that many entries, the entry lies inside the image, and the
/// offset that it holds lies inside the string table.
pub open spec fn name_offset(image: Seq<u8>, width: Width, symtab: Symtab, index: u32) -> Option<
    int,
> {
    let at = nlist_offset(width, symtab, index);
    if index < symtab.nsyms && in_bounds(image.len() as int, at, width.nlist_len()) && le_u32(
        image,
        at,
    ) < symtab.strsize {
        Some(symtab.stroff + le_u32(image, at))
    } else {
        None
    }
}

/// Finds where the name of symbol `index` starts.
pub fn read_name_offset(image: &[u8], width: Width, symtab: &Symtab, index: u32) -> (r: Option<
    u64,
>)
    ensures
        r matches Some(v) ==> name_offset(image@, width, *symtab, index) == Some(v as int),
        r is None ==> name_offset(image@, width, *symtab, index) is None,
{
    if index >= symtab.nsyms {
        return None;
    }
    let at: u64 = match width {
        Width::Bits32 => symtab.symoff as u64 + index as u64 * 12,
        Width::Bits64 => symtab.symoff as u64 + index as u64 * 16,
    };
    let total: u64 = image.len() as u64;
    if at > total || total - at < width.nlist_size() as u64 {
        return None;
    }
    match read_u32(image, at as usize) {
        Some(n_strx) => {
            if n_strx < symtab.strsize {
                Some(symtab.stroff as u64 + n_strx as u64)
            } else {
                None
            }
        },
        None => None,
    }
}

/// Where the string table ends: at the length that the symbol table command
/// gives it, or at the end of the image if that comes first.
pub open spec fn strings_end(image: Seq<u8>, symtab: Symtab) -> int {
    if symtab.stroff + symtab.strsize <= image.len() {
        symtab.stroff + symtab.strsize
    } else {
        image.len() as int
    }
}

/// The first offset from `at` on that holds a zero byte, or `limit` if there
/// is none before it.
pub open spec fn nul_from(image: Seq<u8>, at: int, limit: int) -> int
    decreases limit - at,
{
    if at >= limit {
        limit
    } else if image[at] == 0 {
        at
    } else {
        nul_from(image, at + 1, limit)
    }
}

/// The zero-terminated string that starts at `start`, without its
/// terminator, if it ends before `limit`.
pub open spec fn c_string(image: Seq<u8>, start: int, limit: int) -> Option<Seq<u8>> {
    if 0 <= start && nul_from(image, start, limit) < limit && limit <= image.len() {
        Some(image.subrange(start, nul_from(image, start, limit)))
    } else {
        None
    }
}

/// What `nul_from` finds: no zero byte lies before it, and it is a zero byte
/// itself unless it is the limit.
pub proof fn nul_from_is_the_first_zero(image: Seq<u8>, at: int, limit: int)
    requires
        at <= limit,
    ensures
        at <= nul_from(image, at, limit) <= limit,
        forall|i: int| at <= i < nul_from(image, at, limit) ==> image[i] != 0,
        nul_from(image, at, limit) < limit ==> image[nul_from(image, at, limit)] == 0,
    decreases limit - at,
{
    if at < limit && image[at] != 0 {
        nul_from_is_the_first_zero(image, at + 1, limit);
    }
}

/// A search that has found no zero byte between `start` and `at` goes on
/// from `at` as it would have from `start`.
proof fn lemma_nul_from_skip(image: Seq<u8>, start: int, at: int, limit: int)
    requires
        start <= at <= limit,
        forall|i: int| start <= i < at ==> image[i] != 0,
    ensures
        nul_from(image, start, limit) == nul_from(image, at, limit),
    decreases at - start,
{
    if start < at {
        lemma_nul_from_skip(image, start + 1, at, limit);
    }
}

/// Reads the zero-terminated string at `start`: answers with the offset of
/// its terminator.
pub fn find_nul(image: &[u8], start: usize, limit: usize) -> (r: Option<usize>)
    requires
        start <= limit <= image@.len(),
    ensures
        r matches Some(end) ==> start <= end < limit && end == nul_from(
            image@,
            start as int,
            limit as int,
        ),
        r is None ==> nul_from(image@, start as int, limit as int) == limit,
{
    let mut at: usize = start;
    while at < limit
        invariant
            start <= at <= limit <= image@.len(),
            forall|i: int| start <= i < at ==> image@[i] != 0,
        decreases limit - at,
    {
        if image[at] == 0 {
            proof {
                lemma_nul_from_skip(image@, start as int, at as int, limit as int);
            }
            return Some(at);
        }
        at += 1;
    }
    proof {
        lemma_nul_from_skip(image@, start as int, at as int, limit as int);
    }
    None
}

/// The name that a slot is bound to, as the rebindings give names: without
/// the underscore that every symbol of the image starts with.
///
/// `position` is the slot's entry in the indirect symbol table. There is no
/// name where the entry lies outside the table, where it names no symbol,
/// where the symbol table or the string table do not hold what it points to,
/// where the name is not terminated inside the string table, and where the
/// name is one byte long or empty.
pub open spec fn bound_name(image: Seq<u8>, width: Width, tables: Tables, position: int) -> Option<
    Seq<u8>,
> {
    match indirect_index(image, tables.dysymtab, position) {
        None => None,
        Some(index) => if is_special_index(index) {
            None
        } else {
            match name_offset(image, width, tables.symtab, index) {
                None => None,
                Some(start) => match c_string(image, start, strings_end(image, tables.symtab)) {
                    None => None,
                    Some(name) => if name.len() <= 1 {
                        None
                    } else {
                        Some(name.skip(1))
                    },
                },
            }
        },
    }
}

/// Resolves the name that a slot is bound to.
pub fn read_bound_name<'a>(image: &'a [u8], width: Width, tables: &Tables, position: u64) -> (r:
    Option<&'a [u8]>)
    ensures
        r matches Some(name) ==> bound_name(image@, width, *tables, position as int) == Some(
            name@,
        ),
        r is None ==> bound_name(image@, width, *tables, position as int) is None,
{
    let index: u32 = match read_indirect_index(image, &tables.dysymtab, position) {
        Some(index) => index,
        None => {
            return None;
        },
    };
    if names_no_symbol(index) {
        return None;
    }
    let start: u64 = match read_name_offset(image, width, &tables.symtab, index) {
        Some(start) => start,
        None => {
            return None;
        },
    };
    let total: u64 = image.len() as u64;
    let table_end: u64 = tables.symtab.stroff as u64 + tables.symtab.strsize as u64;
    let limit: u64 = if table_end <= total {
        table_end
    } else {
        total
    };
    if start > limit {
        proof {
            assert(nul_from(image@, start as int, limit as int) == limit);
        }
        return None;
    }
    match find_nul(image, start as usize, limit as usize) {
        None => None,
        Some(end) => {
            if end - start as usize <= 1 {
                None
            } else {
                let name = slice_subrange(image, start as usize + 1, end);
                proof {
                    assert(image@.subrange(start as int, end as int).skip(1) =~= name@);
                }
                Some(name)
            }
        },
    }
}

} // verus!
