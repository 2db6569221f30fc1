//! The order of a plan.
//!
//! A walk visits the load commands as they lie in the image, the sections of
//! a segment as they follow its command, and the slots of a section from the
//! first to the last. The patches of a plan come in that order, and a host
//! that carries the plan out rewrites the slots in that order.

use vstd::prelude::*;
use crate::macho::{
    command_at, commands, commands_end, commands_from, header_of, LoadCommand, Width,
};
use crate::registry::Rebinding;
use crate::segment::{section_of, section_offset, segment_of, Section, Segment};
use crate::symbols::Tables;
use crate::walker::{
    commands_plan, image_plan, scan_of, sections_plan, slot_base, slot_count, slots_plan,
    tables_of, SlotPatch,
};

verus! {

/// Whether the slot of `p` is visited before the slot of `q`: it lies in a
/// section whose header comes earlier in the image, or in the same section
/// and is an earlier slot of it.
pub open spec fn visited_before(p: SlotPatch, q: SlotPatch) -> bool {
    p.section_at < q.section_at || (p.section_at == q.section_at && p.index < q.index)
}

proof fn lemma_slots_plan_member(
    image: Seq<u8>,
    width: Width,
    tables: Tables,
    bindings: Seq<Rebinding>,
    section: Section,
    base: int,
    count: int,
    i: int,
)
    requires
        count <= u64::MAX,
        0 <= i < slots_plan(image, width, tables, bindings, section, base, count).len(),
    ensures
        slots_plan(image, width, tables, bindings, section, base, count)[i].section_at
            == section.at,
        slots_plan(image, width, tables, bindings, section, base, count)[i].index < count,
    decreases count,
{
    if count > 0 {
        let before = slots_plan(image, width, tables, bindings, section, base, count - 1);
        if i < before.len() {
            lemma_slots_plan_member(image, width, tables, bindings, section, base, count - 1, i);
        }
    }
}

proof fn lemma_slots_plan_ordered(
    image: Seq<u8>,
    width: Width,
    tables: Tables,
    bindings: Seq<Rebinding>,
    section: Section,
    base: int,
    count: int,
    i: int,
    j: int,
)
    requires
        count <= u64::MAX,
        0 <= i < j < slots_plan(image, width, tables, bindings, section, base, count).len(),
    ensures
        visited_before(
            slots_plan(image, width, tables, bindings, section, base, count)[i],
            slots_plan(image, width, tables, bindings, section, base, count)[j],
        ),
    decreases count,
{
    if count > 0 {
        let before = slots_plan(image, width, tables, bindings, section, base, count - 1);
        if j < before.len() {
            lemma_slots_plan_ordered(
                image,
                width,
                tables,
                bindings,
                section,
                base,
                count - 1,
                i,
                j,
            );
        } else {
            lemma_slots_plan_member(image, width, tables, bindings, section, base, count - 1, i);
            lemma_slots_plan_member(image, width, tables, bindings, section, base, count, j);
        }
    }
}

proof fn lemma_sections_plan_member(
    image: Seq<u8>,
    width: Width,
    tables: Tables,
    bindings: Seq<Rebinding>,
    segment: Segment,
    slide: i64,
    count: int,
    i: int,
)
    requires
        0 <= i < sections_plan(image, width, tables, bindings, segment, slide, count).len(),
    ensures
        segment.at <= sections_plan(
            image,
            width,
            tables,
            bindings,
            segment,
            slide,
            count,
        )[i].section_at < section_offset(width, segment, count),
        sections_plan(image, width, tables, bindings, segment, slide, count)[i].section_at
            < segment.at + segment.cmdsize,
    decreases count,
{
    if count > 0 {
        let before = sections_plan(image, width, tables, bindings, segment, slide, count - 1);
        if i < before.len() {
            lemma_sections_plan_member(
                image,
                width,
                tables,
                bindings,
                segment,
                slide,
                count - 1,
                i,
            );
        } else {
            let section = section_of(image, width, segment, count - 1)->0;
            let base = slot_base(width, section, slide)->0;
            lemma_slots_plan_member(
                image,
                width,
                tables,
                bindings,
                section,
                base,
                slot_count(width, section),
                i - before.len(),
            );
        }
    }
}

proof fn lemma_sections_plan_ordered(
    image: Seq<u8>,
    width: Width,
    tables: Tables,
    bindings: Seq<Rebinding>,
    segment: Segment,
    slide: i64,
    count: int,
    i: int,
    j: int,
)
    requires
        0 <= i < j < sections_plan(image, width, tables, bindings, segment, slide, count).len(),
    ensures
        visited_before(
            sections_plan(image, width, tables, bindings, segment, slide, count)[i],
            sections_plan(image, width, tables, bindings, segment, slide, count)[j],
        ),
    decreases count,
{
    if count > 0 {
        let before = sections_plan(image, width, tables, bindings, segment, slide, count - 1);
        if j < before.len() {
            lemma_sections_plan_ordered(
                image,
                width,
                tables,
                bindings,
                segment,
                slide,
                count - 1,
                i,
                j,
            );
        } else {
            let section = section_of(image, width, segment, count - 1)->0;
            let base = slot_base(width, section, slide)->0;
            let slots = slot_count(width, section);
            lemma_slots_plan_member(
                image,
                width,
                tables,
                bindings,
                section,
                base,
                slots,
                j - before.len(),
            );
            if i < before.len() {
                lemma_sections_plan_member(
                    image,
                    width,
                    tables,
                    bindings,
                    segment,
                    slide,
                    count - 1,
                    i,
                );
            } else {
                lemma_slots_plan_ordered(
                    image,
                    width,
                    tables,
                    bindings,
                    section,
                    base,
                    slots,
                    i - before.len(),
                    j - before.len(),
                );
            }
        }
    }
}

/// Whether every command of a list starts where the one before it ends, or
/// later.
spec fn in_a_row(cmds: Seq<LoadCommand>) -> bool {
    forall|i: int, j: int|
        0 <= i < j < cmds.len() ==> (#[trigger] cmds[i]).at + cmds[i].cmdsize <= (
        #[trigger] cmds[j]).at
}

proof fn lemma_commands_in_a_row(image: Seq<u8>, end: int, at: int, count: nat)
    requires
        image.len() <= usize::MAX,
    ensures
        in_a_row(commands_from(image, end, at, count)),
        forall|i: int|
            0 <= i < commands_from(image, end, at, count).len() ==> at <= (
            #[trigger] commands_from(image, end, at, count)[i]).at,
    decreases count,
{
    if count > 0 {
        match command_at(image, end, at) {
            Some(c) => {
                lemma_commands_in_a_row(image, end, at + c.cmdsize, (count - 1) as nat);
            },
            None => {},
        }
    }
}

proof fn lemma_commands_plan_member(
    image: Seq<u8>,
    width: Width,
    tables: Tables,
    bindings: Seq<Rebinding>,
    cmds: Seq<LoadCommand>,
    slide: i64,
    count: int,
    i: int,
)
    requires
        in_a_row(cmds),
        count <= cmds.len(),
        0 <= i < commands_plan(image, width, tables, bindings, cmds, slide, count).len(),
    ensures
        count > 0,
        commands_plan(image, width, tables, bindings, cmds, slide, count)[i].section_at < cmds[count
            - 1].at + cmds[count - 1].cmdsize,
    decreases count,
{
    if count > 0 {
        let before = commands_plan(image, width, tables, bindings, cmds, slide, count - 1);
        if i < before.len() {
            lemma_commands_plan_member(image, width, tables, bindings, cmds, slide, count - 1, i);
            assert(cmds[count - 2].at + cmds[count - 2].cmdsize <= cmds[count - 1].at);
        } else {
            let segment = segment_of(image, width, cmds[count - 1])->0;
            lemma_sections_plan_member(
                image,
                width,
                tables,
                bindings,
                segment,
                slide,
                segment.nsects as int,
                i - before.len(),
            );
        }
    }
}

proof fn lemma_commands_plan_ordered(
    image: Seq<u8>,
    width: Width,
    tables: Tables,
    bindings: Seq<Rebinding>,
    cmds: Seq<LoadCommand>,
    slide: i64,
    count: int,
    i: int,
    j: int,
)
    requires
        in_a_row(cmds),
        count <= cmds.len(),
        0 <= i < j < commands_plan(image, width, tables, bindings, cmds, slide, count).len(),
    ensures
        visited_before(
            commands_plan(image, width, tables, bindings, cmds, slide, count)[i],
            commands_plan(image, width, tables, bindings, cmds, slide, count)[j],
        ),
    decreases count,
{
    if count > 0 {
        let before = commands_plan(image, width, tables, bindings, cmds, slide, count - 1);
        if j < before.len() {
            lemma_commands_plan_ordered(
                image,
                width,
                tables,
                bindings,
                cmds,
                slide,
                count - 1,
                i,
                j,
            );
        } else {
            let segment = segment_of(image, width, cmds[count - 1])->0;
            lemma_sections_plan_member(
                image,
                width,
                tables,
                bindings,
                segment,
                slide,
                segment.nsects as int,
                j - before.len(),
            );
            if i < before.len() {
                lemma_commands_plan_member(
                    image,
                    width,
                    tables,
                    bindings,
                    cmds,
                    slide,
                    count - 1,
                    i,
                );
                assert(cmds[count - 2].at + cmds[count - 2].cmdsize <= cmds[count - 1].at);
            } else {
                lemma_sections_plan_ordered(
                    image,
                    width,
                    tables,
                    bindings,
                    segment,
                    slide,
                    segment.nsects as int,
                    i - before.len(),
                    j - before.len(),
                );
            }
        }
    }
}

/// The patches of a plan come in the order in which a walk visits the
/// slots: section by section as the section headers lie in the image, and
/// inside a section slot by slot. So no slot is planned for twice.
pub proof fn plan_is_in_walk_order(
    image: Seq<u8>,
    width: Width,
    bindings: Seq<Rebinding>,
    slide: i64,
    i: int,
    j: int,
)
    requires
        image.len() <= usize::MAX,
        0 <= i < j < image_plan(image, width, bindings, slide).len(),
    ensures
        visited_before(
            image_plan(image, width, bindings, slide)[i],
            image_plan(image, width, bindings, slide)[j],
        ),
{
    let cmds = commands(image, width);
    let header = header_of(image, width)->0;
    let tables = tables_of(image, scan_of(image, width, cmds, cmds.len() as int))->0;
    lemma_commands_in_a_row(
        image,
        commands_end(image, width, header),
        width.header_len(),
        header.ncmds as nat,
    );
    lemma_commands_plan_ordered(
        image,
        width,
        tables,
        bindings,
        cmds,
        slide,
        cmds.len() as int,
        i,
        j,
    );
}

} // verus!
