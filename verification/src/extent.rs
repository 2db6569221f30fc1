//! How much of an image a walk reads.
//!
//! The loader hands out the address of an image's header and no length. The
//! header tells how long the load commands are, and the load commands tell
//! where the tables end. A host can so cut the slice that it hands to the
//! walk in three steps, and nothing behind the end of that slice has any
//! part in the plan.

use vstd::prelude::*;
use crate::macho::{
    command_at, commands, commands_end, commands_from, header_of, load_commands, read_header,
    LoadCommand, Width,
};
use crate::registry::Rebinding;
use crate::segment::{section_of, segment_name, segment_of, Section, Segment};
use crate::symbols::{
    bound_name, c_string, indirect_index, name_offset, nul_from, nul_from_is_the_first_zero,
    strings_end, Tables,
};
use crate::walker::{
    commands_plan, image_plan, read_tables, scan_commands, scan_of, sections_plan, slot_base,
    slot_count, slots_plan, tables_of,
};

verus! {

/// How many bytes the header and the load commands take together, by what
/// the header says.
pub open spec fn commands_extent_of(image: Seq<u8>, width: Width) -> Option<int> {
    match header_of(image, width) {
        Some(header) => Some(width.header_len() + header.sizeofcmds),
        None => None,
    }
}

/// Tells how long the image has to be to hold its load commands. `image`
/// has to hold the header.
pub fn commands_extent(image: &[u8], width: Width) -> (r: Option<u64>)
    ensures
        r matches Some(n) ==> commands_extent_of(image@, width) == Some(n as int),
        r is None ==> commands_extent_of(image@, width) is None,
{
    match read_header(image, width) {
        Some(header) => Some(width.header_size() as u64 + header.sizeofcmds as u64),
        None => None,
    }
}

/// Where the last of the three tables ends: the symbol table, the string
/// table and the indirect symbol table.
pub open spec fn tables_extent(width: Width, tables: Tables) -> int {
    let symbols = match width {
        Width::Bits32 => tables.symtab.symoff + 12 * tables.symtab.nsyms,
        Width::Bits64 => tables.symtab.symoff + 16 * tables.symtab.nsyms,
    };
    let strings = tables.symtab.stroff + tables.symtab.strsize;
    let indirect = tables.dysymtab.indirectsymoff + 4 * tables.dysymtab.nindirectsyms;
    if symbols >= strings && symbols >= indirect {
        symbols
    } else if strings >= indirect {
        strings
    } else {
        indirect
    }
}

/// How long an image is from its header to the end of all that a walk
/// reads: the load commands and the three tables. There is no such length
/// where the image has no indirectly bound symbols.
pub open spec fn image_extent_of(image: Seq<u8>, width: Width) -> Option<int> {
    let cmds = commands(image, width);
    match (
        commands_extent_of(image, width),
        tables_of(image, scan_of(image, width, cmds, cmds.len() as int)),
    ) {
        (Some(n), Some(tables)) => if n >= tables_extent(width, tables) {
            Some(n)
        } else {
            Some(tables_extent(width, tables))
        },
        _ => None,
    }
}

/// Tells how long the image has to be for a walk. `image` has to hold the
/// header and the load commands.
pub fn image_extent(image: &[u8], width: Width) -> (r: Option<u64>)
    ensures
        r matches Some(n) ==> image_extent_of(image@, width) == Some(n as int),
        r is None ==> image_extent_of(image@, width) is None,
{
    let cmds = load_commands(image, width);
    let scan = scan_commands(image, width, &cmds);
    match (commands_extent(image, width), read_tables(image, &scan)) {
        (Some(n), Some(tables)) => {
            let symbols: u64 = match width {
                Width::Bits32 => tables.symtab.symoff as u64 + 12 * tables.symtab.nsyms as u64,
                Width::Bits64 => tables.symtab.symoff as u64 + 16 * tables.symtab.nsyms as u64,
            };
            let strings: u64 = tables.symtab.stroff as u64 + tables.symtab.strsize as u64;
            let indirect: u64 = tables.dysymtab.indirectsymoff as u64 + 4
                * tables.dysymtab.nindirectsyms as u64;
            let last: u64 = if symbols >= strings && symbols >= indirect {
                symbols
            } else if strings >= indirect {
                strings
            } else {
                indirect
            };
            if n >= last {
                Some(n)
            } else {
                Some(last)
            }
        },
        _ => None,
    }
}

/// Whether two images are at least `n` bytes long and hold the same in
/// their first `n` bytes.
pub open spec fn agree(a: Seq<u8>, b: Seq<u8>, n: int) -> bool {
    &&& n <= a.len()
    &&& n <= b.len()
    &&& forall|i: int| 0 <= i < n ==> a[i] == b[i]
}

proof fn lemma_commands_from_agree(
    a: Seq<u8>,
    b: Seq<u8>,
    end: int,
    at: int,
    count: nat,
    n: int,
)
    requires
        agree(a, b, n),
        end <= n,
    ensures
        commands_from(a, end, at, count) == commands_from(b, end, at, count),
    decreases count,
{
    if count > 0 {
        assert(command_at(a, end, at) == command_at(b, end, at));
        match command_at(a, end, at) {
            Some(c) => {
                lemma_commands_from_agree(a, b, end, at + c.cmdsize, (count - 1) as nat, n);
            },
            None => {},
        }
    }
}

proof fn lemma_commands_within(image: Seq<u8>, end: int, at: int, count: nat, i: int)
    requires
        image.len() <= usize::MAX,
        0 <= i < commands_from(image, end, at, count).len(),
    ensures
        commands_from(image, end, at, count)[i].at + commands_from(
            image,
            end,
            at,
            count,
        )[i].cmdsize <= end,
    decreases count,
{
    if count > 0 {
        match command_at(image, end, at) {
            Some(c) => {
                if i > 0 {
                    lemma_commands_within(image, end, at + c.cmdsize, (count - 1) as nat, i - 1);
                }
            },
            None => {},
        }
    }
}

/// Whether every command of a list ends no later than `end`.
spec fn all_within(cmds: Seq<LoadCommand>, end: int) -> bool {
    forall|i: int| 0 <= i < cmds.len() ==> (#[trigger] cmds[i]).at + cmds[i].cmdsize <= end
}

proof fn lemma_segment_agree(a: Seq<u8>, b: Seq<u8>, width: Width, c: LoadCommand, n: int)
    requires
        agree(a, b, n),
        c.at + c.cmdsize <= n,
    ensures
        segment_of(a, width, c) == segment_of(b, width, c),
        segment_of(a, width, c) is Some ==> segment_name(a, c.at as int)
            == segment_name(b, c.at as int),
{
    if segment_of(a, width, c) is Some {
        assert(segment_name(a, c.at as int) =~= segment_name(
            b,
            c.at as int,
        ));
    }
}

proof fn lemma_scan_agree(
    a: Seq<u8>,
    b: Seq<u8>,
    width: Width,
    cmds: Seq<LoadCommand>,
    count: int,
    n: int,
)
    requires
        agree(a, b, n),
        all_within(cmds, n),
        0 <= count <= cmds.len(),
    ensures
        scan_of(a, width, cmds, count) == scan_of(b, width, cmds, count),
        scan_of(a, width, cmds, count).symtab matches Some(c) ==> c.at + c.cmdsize <= n,
        scan_of(a, width, cmds, count).dysymtab matches Some(c) ==> c.at + c.cmdsize <= n,
    decreases count,
{
    if count > 0 {
        lemma_scan_agree(a, b, width, cmds, count - 1, n);
        lemma_segment_agree(a, b, width, cmds[count - 1], n);
    }
}

proof fn lemma_commands_agree(a: Seq<u8>, b: Seq<u8>, width: Width, n: int)
    requires
        a.len() <= usize::MAX,
        agree(a, b, n),
        commands_extent_of(a, width) matches Some(m) && m <= n,
    ensures
        commands_extent_of(b, width) == commands_extent_of(a, width),
        commands(a, width) == commands(b, width),
        all_within(commands(a, width), commands_extent_of(a, width)->0),
{
    let header = header_of(a, width)->0;
    assert(header_of(b, width) == Some(header));
    let end = commands_end(a, width, header);
    assert(end == commands_end(b, width, header));
    lemma_commands_from_agree(a, b, end, width.header_len(), header.ncmds as nat, n);
    let cmds = commands(a, width);
    assert forall|i: int| 0 <= i < cmds.len() implies (#[trigger] cmds[i]).at + cmds[i].cmdsize
        <= end by {
        lemma_commands_within(a, end, width.header_len(), header.ncmds as nat, i);
    }
}

proof fn lemma_tables_agree(a: Seq<u8>, b: Seq<u8>, width: Width, n: int)
    requires
        a.len() <= usize::MAX,
        agree(a, b, n),
        commands_extent_of(a, width) matches Some(m) && m <= n,
    ensures
        commands(a, width) == commands(b, width),
        all_within(commands(a, width), n),
        tables_of(a, scan_of(a, width, commands(a, width), commands(a, width).len() as int))
            == tables_of(
            b,
            scan_of(b, width, commands(b, width), commands(b, width).len() as int),
        ),
{
    lemma_commands_agree(a, b, width, n);
    let cmds = commands(a, width);
    lemma_scan_agree(a, b, width, cmds, cmds.len() as int, n);
}

/// How long the load commands are is read from the header alone: two images
/// that hold the same header announce the same length.
pub proof fn commands_extent_reads_the_header(a: Seq<u8>, b: Seq<u8>, width: Width)
    requires
        agree(a, b, width.header_len()),
    ensures
        commands_extent_of(a, width) == commands_extent_of(b, width),
{
}

/// Where the tables end is read from the header and the load commands
/// alone: two images that hold the same up to the end of the load commands
/// have the same extent, or neither has one.
pub proof fn image_extent_reads_the_commands(a: Seq<u8>, b: Seq<u8>, width: Width, n: int)
    requires
        a.len() <= usize::MAX,
        agree(a, b, n),
        commands_extent_of(a, width) == Some(n),
    ensures
        image_extent_of(a, width) == image_extent_of(b, width),
{
    lemma_tables_agree(a, b, width, n);
}

proof fn lemma_nul_agree(a: Seq<u8>, b: Seq<u8>, at: int, limit: int, n: int)
    requires
        agree(a, b, n),
        0 <= at,
        limit <= n,
    ensures
        nul_from(a, at, limit) == nul_from(b, at, limit),
    decreases limit - at,
{
    if at < limit && a[at] != 0 {
        lemma_nul_agree(a, b, at + 1, limit, n);
    }
}

proof fn lemma_bound_name_agree(
    a: Seq<u8>,
    b: Seq<u8>,
    width: Width,
    tables: Tables,
    position: int,
    n: int,
)
    requires
        agree(a, b, n),
        tables_extent(width, tables) <= n,
    ensures
        bound_name(a, width, tables, position) == bound_name(b, width, tables, position),
{
    let in_a = indirect_index(a, tables.dysymtab, position);
    assert(in_a == indirect_index(b, tables.dysymtab, position));
    match in_a {
        Some(index) => {
            let start_a = name_offset(a, width, tables.symtab, index);
            assert(start_a == name_offset(b, width, tables.symtab, index));
            match start_a {
                Some(start) => {
                    let limit = strings_end(a, tables.symtab);
                    assert(limit == strings_end(b, tables.symtab));
                    lemma_nul_agree(a, b, start, limit, n);
                    nul_from_is_the_first_zero(a, start, limit);
                    if c_string(a, start, limit) is Some {
                        assert(a.subrange(start, nul_from(a, start, limit)) =~= b.subrange(
                            start,
                            nul_from(b, start, limit),
                        ));
                    }
                },
                None => {},
            }
        },
        None => {},
    }
}

proof fn lemma_slots_plan_agree(
    a: Seq<u8>,
    b: Seq<u8>,
    width: Width,
    tables: Tables,
    bindings: Seq<Rebinding>,
    section: Section,
    base: int,
    count: int,
    n: int,
)
    requires
        agree(a, b, n),
        tables_extent(width, tables) <= n,
    ensures
        slots_plan(a, width, tables, bindings, section, base, count) == slots_plan(
            b,
            width,
            tables,
            bindings,
            section,
            base,
            count,
        ),
    decreases count,
{
    if count > 0 {
        lemma_slots_plan_agree(a, b, width, tables, bindings, section, base, count - 1, n);
        lemma_bound_name_agree(a, b, width, tables, section.reserved1 + (count - 1), n);
    }
}

proof fn lemma_sections_plan_agree(
    a: Seq<u8>,
    b: Seq<u8>,
    width: Width,
    tables: Tables,
    bindings: Seq<Rebinding>,
    segment: Segment,
    slide: i64,
    count: int,
    n: int,
)
    requires
        a.len() <= usize::MAX,
        b.len() <= usize::MAX,
        agree(a, b, n),
        tables_extent(width, tables) <= n,
        segment.at + segment.cmdsize <= n,
    ensures
        sections_plan(a, width, tables, bindings, segment, slide, count) == sections_plan(
            b,
            width,
            tables,
            bindings,
            segment,
            slide,
            count,
        ),
    decreases count,
{
    if count > 0 {
        lemma_sections_plan_agree(a, b, width, tables, bindings, segment, slide, count - 1, n);
        assert(section_of(a, width, segment, count - 1) == section_of(
            b,
            width,
            segment,
            count - 1,
        ));
        match section_of(a, width, segment, count - 1) {
            Some(section) => {
                match slot_base(width, section, slide) {
                    Some(base) => {
                        lemma_slots_plan_agree(
                            a,
                            b,
                            width,
                            tables,
                            bindings,
                            section,
                            base,
                            slot_count(width, section),
                            n,
                        );
                    },
                    None => {},
                }
            },
            None => {},
        }
    }
}

proof fn lemma_commands_plan_agree(
    a: Seq<u8>,
    b: Seq<u8>,
    width: Width,
    tables: Tables,
    bindings: Seq<Rebinding>,
    cmds: Seq<LoadCommand>,
    slide: i64,
    count: int,
    n: int,
)
    requires
        a.len() <= usize::MAX,
        b.len() <= usize::MAX,
        agree(a, b, n),
        tables_extent(width, tables) <= n,
        all_within(cmds, n),
        0 <= count <= cmds.len(),
    ensures
        commands_plan(a, width, tables, bindings, cmds, slide, count) == commands_plan(
            b,
            width,
            tables,
            bindings,
            cmds,
            slide,
            count,
        ),
    decreases count,
{
    if count > 0 {
        lemma_commands_plan_agree(a, b, width, tables, bindings, cmds, slide, count - 1, n);
        lemma_segment_agree(a, b, width, cmds[count - 1], n);
        match segment_of(a, width, cmds[count - 1]) {
            Some(segment) => {
                lemma_sections_plan_agree(
                    a,
                    b,
                    width,
                    tables,
                    bindings,
                    segment,
                    slide,
                    segment.nsects as int,
                    n,
                );
            },
            None => {},
        }
    }
}

/// A walk reads nothing behind the extent of the image: two images that hold
/// the same up to there have the same plan, however long they are and
/// whatever follows.
pub proof fn plan_reads_the_extent(
    a: Seq<u8>,
    b: Seq<u8>,
    width: Width,
    bindings: Seq<Rebinding>,
    slide: i64,
    n: int,
)
    requires
        a.len() <= usize::MAX,
        b.len() <= usize::MAX,
        agree(a, b, n),
        image_extent_of(a, width) == Some(n),
    ensures
        image_plan(a, width, bindings, slide) == image_plan(b, width, bindings, slide),
{
    lemma_tables_agree(a, b, width, n);
    let cmds = commands(a, width);
    let tables = tables_of(a, scan_of(a, width, cmds, cmds.len() as int))->0;
    lemma_commands_plan_agree(a, b, width, tables, bindings, cmds, slide, cmds.len() as int, n);
}

} // verus!
