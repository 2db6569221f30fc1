//! The walk over one image: which slots the rebindings apply to.
//!
//! A first pass over the load commands finds the symbol table and the
//! dynamic symbol table. A second pass visits the sections of symbol
//! pointers in the data segments and resolves the name behind every slot.
//! The result is a plan: one patch for each slot that a rebinding applies
//! to, in the order of the sections and, inside a section, of the slots.

use vstd::prelude::*;
use crate::constants::{
    lc_dysymtab, lc_symtab, seg_data, seg_data_const, seg_data_const_name, seg_data_name,
    seg_linkedit, seg_linkedit_name, LC_DYSYMTAB, LC_SYMTAB,
};
use crate::macho::{
    commands, dysymtab_at, load_commands, name_matches, read_dysymtab, read_symtab, symtab_at,
    LoadCommand, Width, DYSYMTAB_COMMAND_LEN, SYMTAB_COMMAND_LEN,
};
use crate::registry::{find_binding, first_match, first_match_is_the_first, Rebinding};
use crate::segment::{
    holds_symbol_pointers, is_symbol_pointer_section, read_section, read_segment, section_of,
    segment_name, segment_named, segment_of, Section, Segment,
};
use crate::symbols::{bound_name, read_bound_name, Tables};

verus! {

/// Whether a load command is a segment whose name agrees with `reference`.
pub open spec fn is_segment_named(
    image: Seq<u8>,
    width: Width,
    c: LoadCommand,
    reference: Seq<u8>,
) -> bool {
    segment_of(image, width, c) is Some && name_matches(
        segment_name(image, c.at as int),
        reference,
    )
}

/// Whether a load command is a segment that may hold symbol pointers: one
/// whose name agrees with `__DATA` or with `__DATA_CONST`.
pub open spec fn is_data_segment(image: Seq<u8>, width: Width, c: LoadCommand) -> bool {
    is_segment_named(image, width, c, seg_data_name()) || is_segment_named(
        image,
        width,
        c,
        seg_data_const_name(),
    )
}

/// What the first pass over the load commands records.
#[derive(Clone, Copy, Debug, PartialEq, Eq, Structural)]
pub struct Scan {
    /// The symbol table command, if there is one.
    pub symtab: Option<LoadCommand>,
    /// The dynamic symbol table command, if there is one.
    pub dysymtab: Option<LoadCommand>,
    /// The segment command of `__LINKEDIT`, if there is one. Nothing of the
    /// walk depends on it.
    pub linkedit: Option<LoadCommand>,
}

/// What the first pass has recorded after the first `count` commands: of
/// each kind the last command seen.
pub open spec fn scan_of(image: Seq<u8>, width: Width, cmds: Seq<LoadCommand>, count: int) -> Scan
    decreases count,
{
    if count <= 0 {
        Scan { symtab: None, dysymtab: None, linkedit: None }
    } else {
        let before = scan_of(image, width, cmds, count - 1);
        let c = cmds[count - 1];
        if is_segment_named(image, width, c, seg_linkedit_name()) {
            Scan { linkedit: Some(c), ..before }
        } else if c.cmd == width.segment_command() {
            before
        } else if c.cmd == LC_SYMTAB {
            Scan { symtab: Some(c), ..before }
        } else if c.cmd == LC_DYSYMTAB {
            Scan { dysymtab: Some(c), ..before }
        } else {
            before
        }
    }
}

/// The first pass over the load commands.
pub fn scan_commands(image: &[u8], width: Width, cmds: &Vec<LoadCommand>) -> (r: Scan)
    ensures
        r == scan_of(image@, width, cmds@, cmds@.len() as int),
{
    let mut scan = Scan { symtab: None, dysymtab: None, linkedit: None };
    let mut i: usize = 0;
    while i < cmds.len()
        invariant
            i <= cmds@.len(),
            scan == scan_of(image@, width, cmds@, i as int),
        decreases cmds.len() - i,
    {
        let c = cmds[i];
        if c.cmd == width.segment_cmd() {
            match read_segment(image, width, &c) {
                Some(segment) => {
                    if segment_named(image, &segment, seg_linkedit()) {
                        scan.linkedit = Some(c);
                    }
                },
                None => {},
            }
        } else if c.cmd == lc_symtab() {
            scan.symtab = Some(c);
        } else if c.cmd == lc_dysymtab() {
            scan.dysymtab = Some(c);
        }
        i += 1;
    }
    scan
}

/// The tables of an image that has indirectly bound symbols: both table
/// commands are there, each is long enough to hold what it is read for, and
/// the indirect symbol table is not empty.
pub open spec fn tables_of(image: Seq<u8>, scan: Scan) -> Option<Tables> {
    match (scan.symtab, scan.dysymtab) {
        (Some(s), Some(d)) => if s.cmdsize >= SYMTAB_COMMAND_LEN && d.cmdsize
            >= DYSYMTAB_COMMAND_LEN {
            match (symtab_at(image, s.at as int), dysymtab_at(image, d.at as int)) {
                (Some(symtab), Some(dysymtab)) => if dysymtab.nindirectsyms == 0 {
                    None
                } else {
                    Some(Tables { symtab, dysymtab })
                },
                _ => None,
            }
        } else {
            None
        },
        _ => None,
    }
}

/// Reads the two table commands that the first pass has found.
pub fn read_tables(image: &[u8], scan: &Scan) -> (r: Option<Tables>)
    ensures
        r == tables_of(image@, *scan),
{
    match (scan.symtab, scan.dysymtab) {
        (Some(s), Some(d)) => {
            if (s.cmdsize as usize) < SYMTAB_COMMAND_LEN || (d.cmdsize as usize)
                < DYSYMTAB_COMMAND_LEN {
                return None;
            }
            match (read_symtab(image, s.at), read_dysymtab(image, d.at)) {
                (Some(symtab), Some(dysymtab)) => {
                    if dysymtab.nindirectsyms == 0 {
                        None
                    } else {
                        Some(Tables { symtab, dysymtab })
                    }
                },
                _ => None,
            }
        },
        _ => None,
    }
}

/// One slot that a rebinding applies to.
#[derive(Clone, Copy, Debug, PartialEq, Eq, Structural)]
pub struct SlotPatch {
    /// Offset in the image of the header of the section that holds the slot.
    pub section_at: usize,
    /// Number of the slot in its section.
    pub index: u64,
    /// Address of the slot in memory.
    pub address: u64,
    /// Address of the section's contents in memory: where the range starts
    /// that has to be writable for the store.
    pub window_base: u64,
    /// Length of the section's contents in bytes.
    pub window_size: u64,
    /// Which rebinding applies: its place in the list of rebindings.
    pub binding: usize,
    /// The address to store in the slot: what that rebinding puts in the
    /// symbol's place.
    pub replacement: u64,
}

/// Where the contents of a section lie in memory once the image has slid by
/// `slide`, if they lie inside the address space.
pub open spec fn slot_base(width: Width, section: Section, slide: i64) -> Option<int> {
    if 0 <= section.addr + slide && section.addr + slide + section.size <= width.address_limit() {
        Some(section.addr + slide)
    } else {
        None
    }
}

/// Address of slot `k` in a section whose contents start at `base`.
pub open spec fn slot_address(width: Width, base: int, k: int) -> int {
    match width {
        Width::Bits32 => base + 4 * k,
        Width::Bits64 => base + 8 * k,
    }
}

/// Number of slots in a section: a rest that is shorter than a pointer is no
/// slot.
pub open spec fn slot_count(width: Width, section: Section) -> int {
    match width {
        Width::Bits32 => section.size as int / 4,
        Width::Bits64 => section.size as int / 8,
    }
}

/// The patch for slot `k` of a section, if the slot is bound to a name that
/// a rebinding carries. The first such rebinding applies.
pub open spec fn slot_patch(
    image: Seq<u8>,
    width: Width,
    tables: Tables,
    bindings: Seq<Rebinding>,
    section: Section,
    base: int,
    k: int,
) -> Option<SlotPatch> {
    match bound_name(image, width, tables, section.reserved1 + k) {
        None => None,
        Some(name) => match first_match(bindings, name) {
            None => None,
            Some(b) => Some(
                SlotPatch {
                    section_at: section.at,
                    index: k as u64,
                    address: slot_address(width, base, k) as u64,
                    window_base: base as u64,
                    window_size: section.size,
                    binding: b as usize,
                    replacement: bindings[b].replacement,
                },
            ),
        },
    }
}

/// The patches for the first `count` slots of a section, in the order of the
/// slots.
pub open spec fn slots_plan(
    image: Seq<u8>,
    width: Width,
    tables: Tables,
    bindings: Seq<Rebinding>,
    section: Section,
    base: int,
    count: int,
) -> Seq<SlotPatch>
    decreases count,
{
    if count <= 0 {
        Seq::empty()
    } else {
        let before = slots_plan(image, width, tables, bindings, section, base, count - 1);
        match slot_patch(image, width, tables, bindings, section, base, count - 1) {
            Some(p) => before.push(p),
            None => before,
        }
    }
}

/// The patches for a section: none unless it holds symbol pointers and lies
/// inside the address space.
pub open spec fn section_plan(
    image: Seq<u8>,
    width: Width,
    tables: Tables,
    bindings: Seq<Rebinding>,
    section: Section,
    slide: i64,
) -> Seq<SlotPatch> {
    match slot_base(width, section, slide) {
        Some(base) => if holds_symbol_pointers(section.flags) {
            slots_plan(image, width, tables, bindings, section, base, slot_count(width, section))
        } else {
            Seq::empty()
        },
        None => Seq::empty(),
    }
}

/// The patches for the first `count` sections of a segment, in the order of
/// the sections.
pub open spec fn sections_plan(
    image: Seq<u8>,
    width: Width,
    tables: Tables,
    bindings: Seq<Rebinding>,
    segment: Segment,
    slide: i64,
    count: int,
) -> Seq<SlotPatch>
    decreases count,
{
    if count <= 0 {
        Seq::empty()
    } else {
        let before = sections_plan(image, width, tables, bindings, segment, slide, count - 1);
        match section_of(image, width, segment, count - 1) {
            Some(section) => before + section_plan(image, width, tables, bindings, section, slide),
            None => before,
        }
    }
}

/// The patches for a segment.
pub open spec fn segment_plan(
    image: Seq<u8>,
    width: Width,
    tables: Tables,
    bindings: Seq<Rebinding>,
    segment: Segment,
    slide: i64,
) -> Seq<SlotPatch> {
    sections_plan(image, width, tables, bindings, segment, slide, segment.nsects as int)
}

/// The patches for the first `count` load commands, in the order of the
/// commands: those of the data segments among them.
pub open spec fn commands_plan(
    image: Seq<u8>,
    width: Width,
    tables: Tables,
    bindings: Seq<Rebinding>,
    cmds: Seq<LoadCommand>,
    slide: i64,
    count: int,
) -> Seq<SlotPatch>
    decreases count,
{
    if count <= 0 {
        Seq::empty()
    } else {
        let before = commands_plan(image, width, tables, bindings, cmds, slide, count - 1);
        match segment_of(image, width, cmds[count - 1]) {
            Some(segment) => if is_data_segment(image, width, cmds[count - 1]) {
                before + segment_plan(image, width, tables, bindings, segment, slide)
            } else {
                before
            },
            None => before,
        }
    }
}

/// The plan for an image: nothing where the image has no indirectly bound
/// symbols, else the patches of all its data segments.
pub open spec fn image_plan(image: Seq<u8>, width: Width, bindings: Seq<Rebinding>, slide: i64) -> Seq<
    SlotPatch,
> {
    let cmds = commands(image, width);
    match tables_of(image, scan_of(image, width, cmds, cmds.len() as int)) {
        None => Seq::empty(),
        Some(tables) => commands_plan(
            image,
            width,
            tables,
            bindings,
            cmds,
            slide,
            cmds.len() as int,
        ),
    }
}

/// Slots whose entries lie behind the end of the indirect symbol table are
/// bound to no name, so they add nothing to the plan.
proof fn lemma_slots_plan_past_table(
    image: Seq<u8>,
    width: Width,
    tables: Tables,
    bindings: Seq<Rebinding>,
    section: Section,
    base: int,
    from: int,
    count: int,
)
    requires
        0 <= from <= count,
        section.reserved1 + from >= tables.dysymtab.nindirectsyms,
    ensures
        slots_plan(image, width, tables, bindings, section, base, count) == slots_plan(
            image,
            width,
            tables,
            bindings,
            section,
            base,
            from,
        ),
    decreases count,
{
    if count > from {
        lemma_slots_plan_past_table(image, width, tables, bindings, section, base, from, count - 1);
    }
}

/// Sections whose headers would lie behind the end of the segment command
/// are no sections, so they add nothing to the plan.
proof fn lemma_sections_plan_past_command(
    image: Seq<u8>,
    width: Width,
    tables: Tables,
    bindings: Seq<Rebinding>,
    segment: Segment,
    slide: i64,
    from: int,
    count: int,
)
    requires
        0 <= from <= count,
        segment.cmdsize < width.segment_len() + (from + 1) * width.section_len(),
    ensures
        sections_plan(image, width, tables, bindings, segment, slide, count) == sections_plan(
            image,
            width,
            tables,
            bindings,
            segment,
            slide,
            from,
        ),
    decreases count,
{
    if count > from {
        lemma_sections_plan_past_command(
            image,
            width,
            tables,
            bindings,
            segment,
            slide,
            from,
            count - 1,
        );
    }
}

/// Resolves the slots of one section and adds a patch to the plan for each
/// slot that a rebinding applies to.
pub fn bind_section(
    image: &[u8],
    width: Width,
    section: &Section,
    tables: &Tables,
    slide: i64,
    bindings: &Vec<Rebinding>,
    plan: &mut Vec<SlotPatch>,
)
    ensures
        final(plan)@ == old(plan)@ + section_plan(
            image@,
            width,
            *tables,
            bindings@,
            *section,
            slide,
        ),
{
    let ghost before = plan@;
    assert(before + Seq::<SlotPatch>::empty() =~= before);
    if !is_symbol_pointer_section(section.flags) {
        return;
    }
    let start: i128 = section.addr as i128 + slide as i128;
    let limit: i128 = match width {
        Width::Bits32 => 0x1_0000_0000,
        Width::Bits64 => 0x1_0000_0000_0000_0000,
    };
    if start < 0 || start + section.size as i128 > limit {
        return;
    }
    let count: u64 = match width {
        Width::Bits32 => section.size / 4,
        Width::Bits64 => section.size / 8,
    };
    let in_table: u64 = if section.reserved1 < tables.dysymtab.nindirectsyms {
        (tables.dysymtab.nindirectsyms - section.reserved1) as u64
    } else {
        0
    };
    let bound: u64 = if count < in_table {
        count
    } else {
        in_table
    };
    if bound == 0 {
        proof {
            if count > 0 {
                lemma_slots_plan_past_table(
                    image@,
                    width,
                    *tables,
                    bindings@,
                    *section,
                    start as int,
                    0,
                    count as int,
                );
            }
        }
        return;
    }
    let base: u64 = start as u64;
    let mut k: u64 = 0;
    while k < bound
        invariant
            k <= bound <= count,
            bound <= 0xffff_ffff,
            count == slot_count(width, *section),
            base == start == section.addr + slide,
            start + section.size <= width.address_limit(),
            plan@ == before + slots_plan(
                image@,
                width,
                *tables,
                bindings@,
                *section,
                start as int,
                k as int,
            ),
        decreases bound - k,
    {
        let ghost so_far = slots_plan(
            image@,
            width,
            *tables,
            bindings@,
            *section,
            start as int,
            k as int,
        );
        match read_bound_name(image, width, tables, section.reserved1 as u64 + k) {
            Some(name) => match find_binding(bindings, name) {
                Some(binding) => {
                    let address: u64 = match width {
                        Width::Bits32 => base + 4 * k,
                        Width::Bits64 => base + 8 * k,
                    };
                    let patch = SlotPatch {
                        section_at: section.at,
                        index: k,
                        address,
                        window_base: base,
                        window_size: section.size,
                        binding,
                        replacement: bindings[binding].replacement,
                    };
                    proof {
                        first_match_is_the_first(
                            bindings@,
                            name@,
                            bindings@.len() as int,
                        );
                        assert(slot_patch(
                            image@,
                            width,
                            *tables,
                            bindings@,
                            *section,
                            start as int,
                            k as int,
                        ) == Some(patch));
                        assert(before + so_far.push(patch) =~= (before + so_far).push(patch));
                    }
                    plan.push(patch);
                },
                None => {},
            },
            None => {},
        }
        k += 1;
    }
    proof {
        if bound < count {
            lemma_slots_plan_past_table(
                image@,
                width,
                *tables,
                bindings@,
                *section,
                start as int,
                bound as int,
                count as int,
            );
        }
    }
}

/// Visits the sections of a segment and adds to the plan a patch for every
/// slot of theirs that a rebinding applies to.
pub fn bind_symbols(
    image: &[u8],
    width: Width,
    segment: &Segment,
    tables: &Tables,
    slide: i64,
    bindings: &Vec<Rebinding>,
    plan: &mut Vec<SlotPatch>,
)
    ensures
        final(plan)@ == old(plan)@ + segment_plan(
            image@,
            width,
            *tables,
            bindings@,
            *segment,
            slide,
        ),
{
    let ghost before = plan@;
    let head: usize = width.segment_size();
    let each: usize = width.section_size();
    let room: u32 = if segment.cmdsize as usize >= head {
        ((segment.cmdsize as usize - head) / each) as u32
    } else {
        0
    };
    let bound: u32 = if segment.nsects < room {
        segment.nsects
    } else {
        room
    };
    assert(before + Seq::<SlotPatch>::empty() =~= before);
    let mut j: u32 = 0;
    while j < bound
        invariant
            j <= bound,
            plan@ == before + sections_plan(
                image@,
                width,
                *tables,
                bindings@,
                *segment,
                slide,
                j as int,
            ),
        decreases bound - j,
    {
        let ghost so_far = sections_plan(
            image@,
            width,
            *tables,
            bindings@,
            *segment,
            slide,
            j as int,
        );
        match read_section(image, width, segment, j) {
            Some(section) => {
                bind_section(image, width, &section, tables, slide, bindings, plan);
                proof {
                    let added = section_plan(image@, width, *tables, bindings@, section, slide);
                    assert((before + so_far) + added =~= before + (so_far + added));
                }
            },
            None => {},
        }
        j += 1;
    }
    proof {
        if bound < segment.nsects {
            lemma_sections_plan_past_command(
                image@,
                width,
                *tables,
                bindings@,
                *segment,
                slide,
                bound as int,
                segment.nsects as int,
            );
        }
    }
}

/// Walks one image: finds its tables, visits its data segments and answers
/// with the plan, the patches in the order in which the slots are to be
/// rewritten. `image` starts at the image's header and `slide` is what the
/// loader has added to the addresses that the image names.
pub fn rebind_for_image(image: &[u8], width: Width, slide: i64, bindings: &Vec<Rebinding>) -> (plan:
    Vec<SlotPatch>)
    ensures
        plan@ == image_plan(image@, width, bindings@, slide),
{
    let mut plan: Vec<SlotPatch> = Vec::new();
    let cmds = load_commands(image, width);
    let scan = scan_commands(image, width, &cmds);
    let tables = match read_tables(image, &scan) {
        Some(tables) => tables,
        None => {
            return plan;
        },
    };
    let mut i: usize = 0;
    while i < cmds.len()
        invariant
            i <= cmds@.len(),
            plan@ == commands_plan(image@, width, tables, bindings@, cmds@, slide, i as int),
        decreases cmds.len() - i,
    {
        let c = cmds[i];
        match read_segment(image, width, &c) {
            Some(segment) => {
                if segment_named(image, &segment, seg_data()) || segment_named(
                    image,
                    &segment,
                    seg_data_const(),
                ) {
                    bind_symbols(image, width, &segment, &tables, slide, bindings, &mut plan);
                }
            },
            None => {},
        }
        i += 1;
    }
    plan
}

} // verus!
