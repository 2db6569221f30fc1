//! What holds of every plan and of every run.

use vstd::prelude::*;
use crate::model::{patch_effect, plan_effect, run, run_is_plan_effect, World};
use crate::macho::{commands, LoadCommand, Width};
use crate::registry::{first_match, first_match_before, first_match_is_the_first, Rebinding};
use crate::rewriter::{step_of, Phase, Progress, Reply, Request};
use crate::segment::{
    holds_symbol_pointers, section_fields, section_of, segment_of, Section, Segment,
};
use crate::symbols::{bound_name, indirect_index, is_special_index, Tables};
use crate::walker::{
    commands_plan, image_plan, is_data_segment, scan_of, section_plan, sections_plan,
    segment_plan, slot_address, slot_base, slot_count, slot_patch, slots_plan, tables_of,
    SlotPatch,
};

verus! {

/// The world after `plan` has been carried out from its start against a
/// truthful host.
pub open spec fn carried_out(plan: Seq<SlotPatch>, world: World, grants: spec_fn(u64, u64) -> bool) -> World {
    run(Progress { plan, cursor: 0, phase: Phase::Ready }, world, grants, Reply::Begin)
}

/// Whether any two patches for one address store the same there.
pub open spec fn consistent(plan: Seq<SlotPatch>) -> bool {
    forall|i: int, j: int|
        #![trigger plan[i], plan[j]]
        0 <= i < plan.len() && 0 <= j < plan.len() && plan[i].address == plan[j].address
            ==> plan[i].replacement == plan[j].replacement
}

/// Whether two lists of rebindings differ in nothing but what the slots for
/// the originals hold.
pub open spec fn same_but_originals(a: Seq<Rebinding>, b: Seq<Rebinding>) -> bool {
    &&& a.len() == b.len()
    &&& forall|i: int|
        #![trigger a[i]]
        #![trigger b[i]]
        0 <= i < a.len() ==> a[i].name == b[i].name && a[i].replacement == b[i].replacement && (
        a[i].original is Some <==> b[i].original is Some)
}

proof fn lemma_effect_frame(
    world: World,
    plan: Seq<SlotPatch>,
    grants: spec_fn(u64, u64) -> bool,
    from: int,
    address: u64,
)
    requires
        0 <= from,
        forall|i: int| from <= i < plan.len() ==> (#[trigger] plan[i]).address != address,
    ensures
        (plan_effect(world, plan, grants, from).memory)(address) == (world.memory)(address),
    decreases plan.len() - from,
{
    if from < plan.len() {
        let granted = grants(plan[from].window_base, plan[from].window_size);
        lemma_effect_frame(patch_effect(world, plan[from], granted), plan, grants, from + 1, address);
    }
}

/// A run stores nowhere but in slots that its plan names: every address that
/// no patch of the plan is for holds afterwards what it held before.
pub proof fn run_leaves_other_memory_alone(
    plan: Seq<SlotPatch>,
    world: World,
    grants: spec_fn(u64, u64) -> bool,
    address: u64,
)
    requires
        forall|i: int| 0 <= i < plan.len() ==> (#[trigger] plan[i]).address != address,
    ensures
        (carried_out(plan, world, grants).memory)(address) == (world.memory)(address),
{
    run_is_plan_effect(plan, world, grants);
    lemma_effect_frame(world, plan, grants, 0, address);
}

proof fn lemma_effect_keeps_value(
    world: World,
    plan: Seq<SlotPatch>,
    grants: spec_fn(u64, u64) -> bool,
    from: int,
    address: u64,
    value: u64,
)
    requires
        0 <= from,
        (world.memory)(address) == value,
        forall|i: int|
            from <= i < plan.len() && (#[trigger] plan[i]).address == address
                ==> plan[i].replacement == value,
    ensures
        (plan_effect(world, plan, grants, from).memory)(address) == value,
    decreases plan.len() - from,
{
    if from < plan.len() {
        let granted = grants(plan[from].window_base, plan[from].window_size);
        lemma_effect_keeps_value(
            patch_effect(world, plan[from], granted),
            plan,
            grants,
            from + 1,
            address,
            value,
        );
    }
}

proof fn lemma_effect_settles(
    world: World,
    plan: Seq<SlotPatch>,
    grants: spec_fn(u64, u64) -> bool,
    from: int,
    i: int,
)
    requires
        0 <= from <= i < plan.len(),
        grants(plan[i].window_base, plan[i].window_size),
        forall|j: int|
            i < j < plan.len() && (#[trigger] plan[j]).address == plan[i].address
                ==> plan[j].replacement == plan[i].replacement,
    ensures
        (plan_effect(world, plan, grants, from).memory)(plan[i].address) == plan[i].replacement,
    decreases plan.len() - from,
{
    let granted = grants(plan[from].window_base, plan[from].window_size);
    let after = patch_effect(world, plan[from], granted);
    if from < i {
        lemma_effect_settles(after, plan, grants, from + 1, i);
    } else {
        lemma_effect_keeps_value(
            after,
            plan,
            grants,
            from + 1,
            plan[i].address,
            plan[i].replacement,
        );
    }
}

/// After a run, a slot that the plan names holds the replacement that its
/// patch carries, if its section could be made writable and no later patch
/// stores something else in it.
pub proof fn run_binds_planned_slots(
    plan: Seq<SlotPatch>,
    world: World,
    grants: spec_fn(u64, u64) -> bool,
    i: int,
)
    requires
        0 <= i < plan.len(),
        grants(plan[i].window_base, plan[i].window_size),
        forall|j: int|
            i < j < plan.len() && (#[trigger] plan[j]).address == plan[i].address
                ==> plan[j].replacement == plan[i].replacement,
    ensures
        (carried_out(plan, world, grants).memory)(plan[i].address) == plan[i].replacement,
{
    run_is_plan_effect(plan, world, grants);
    lemma_effect_settles(world, plan, grants, 0, i);
}

proof fn lemma_effect_fixed(
    world: World,
    plan: Seq<SlotPatch>,
    grants: spec_fn(u64, u64) -> bool,
    from: int,
)
    requires
        0 <= from,
        forall|i: int|
            from <= i < plan.len() && grants(
                (#[trigger] plan[i]).window_base,
                plan[i].window_size,
            ) ==> (world.memory)(plan[i].address) == plan[i].replacement,
    ensures
        plan_effect(world, plan, grants, from) == world,
    decreases plan.len() - from,
{
    if from < plan.len() {
        lemma_effect_fixed(world, plan, grants, from + 1);
    }
}

/// Carrying a plan out a second time changes nothing: every slot that the
/// first run has bound holds its replacement already, so nothing is stored
/// and nothing is captured. This holds of every plan in which any two
/// patches for one address store the same there.
pub proof fn run_is_idempotent(
    plan: Seq<SlotPatch>,
    world: World,
    grants: spec_fn(u64, u64) -> bool,
)
    requires
        consistent(plan),
    ensures
        carried_out(plan, carried_out(plan, world, grants), grants) == carried_out(
            plan,
            world,
            grants,
        ),
{
    let once = carried_out(plan, world, grants);
    run_is_plan_effect(plan, world, grants);
    run_is_plan_effect(plan, once, grants);
    assert forall|i: int|
        0 <= i < plan.len() && grants(
            (#[trigger] plan[i]).window_base,
            plan[i].window_size,
        ) implies (once.memory)(plan[i].address) == plan[i].replacement by {
        lemma_effect_settles(world, plan, grants, 0, i);
    }
    lemma_effect_fixed(once, plan, grants, 0);
}

proof fn lemma_effect_keeps_rebindings(
    world: World,
    plan: Seq<SlotPatch>,
    grants: spec_fn(u64, u64) -> bool,
    from: int,
)
    requires
        0 <= from,
    ensures
        same_but_originals(world.bindings, plan_effect(world, plan, grants, from).bindings),
    decreases plan.len() - from,
{
    if from < plan.len() {
        let granted = grants(plan[from].window_base, plan[from].window_size);
        let after = patch_effect(world, plan[from], granted);
        lemma_effect_keeps_rebindings(after, plan, grants, from + 1);
    }
}

/// A run changes nothing of the rebindings but what their slots for the
/// originals hold, and it gives no slot to a rebinding that has none.
pub proof fn run_keeps_rebindings(
    plan: Seq<SlotPatch>,
    world: World,
    grants: spec_fn(u64, u64) -> bool,
)
    ensures
        same_but_originals(world.bindings, carried_out(plan, world, grants).bindings),
{
    run_is_plan_effect(plan, world, grants);
    lemma_effect_keeps_rebindings(world, plan, grants, 0);
}

/// Whether patch `i` of a plan applies rebinding `b` and displaces, in a
/// world, the pointer `displaced`: its section can be made writable and its
/// slot holds `displaced`, which is not the replacement.
pub open spec fn displaces(
    plan: Seq<SlotPatch>,
    world: World,
    grants: spec_fn(u64, u64) -> bool,
    i: int,
    b: int,
    displaced: u64,
) -> bool {
    &&& 0 <= i < plan.len()
    &&& plan[i].binding == b
    &&& grants(plan[i].window_base, plan[i].window_size)
    &&& (world.memory)(plan[i].address) == displaced
    &&& displaced != plan[i].replacement
}

proof fn lemma_effect_captures(
    world: World,
    plan: Seq<SlotPatch>,
    grants: spec_fn(u64, u64) -> bool,
    from: int,
    b: int,
)
    requires
        0 <= from,
        consistent(plan),
        0 <= b < world.bindings.len(),
    ensures
        ({
            let last = plan_effect(world, plan, grants, from).bindings[b].original;
            last == world.bindings[b].original || exists|i: int|
                from <= i && last is Some && #[trigger] displaces(
                    plan,
                    world,
                    grants,
                    i,
                    b,
                    last->0,
                )
        }),
    decreases plan.len() - from,
{
    if from < plan.len() {
        let granted = grants(plan[from].window_base, plan[from].window_size);
        let after = patch_effect(world, plan[from], granted);
        lemma_effect_captures(after, plan, grants, from + 1, b);
        let last = plan_effect(world, plan, grants, from).bindings[b].original;
        if last == after.bindings[b].original {
            if last != world.bindings[b].original {
                assert(displaces(plan, world, grants, from, b, last->0));
            }
        } else {
            let i = choose|i: int|
                from + 1 <= i && last is Some && #[trigger] displaces(
                    plan,
                    after,
                    grants,
                    i,
                    b,
                    last->0,
                );
            assert(plan[from].address == plan[i].address ==> plan[from].replacement
                == plan[i].replacement);
            assert(displaces(plan, world, grants, i, b, last->0));
        }
    }
}

/// What a rebinding's slot for the original holds after a run is what it
/// held before, or a pointer that the run has displaced from a slot to which
/// that rebinding applies: the pointer that was bound there before the run.
/// This holds of every plan in which any two patches for one address store
/// the same there.
pub proof fn run_captures_displaced_pointers(
    plan: Seq<SlotPatch>,
    world: World,
    grants: spec_fn(u64, u64) -> bool,
    b: int,
)
    requires
        consistent(plan),
        0 <= b < world.bindings.len(),
    ensures
        ({
            let last = carried_out(plan, world, grants).bindings[b].original;
            last == world.bindings[b].original || exists|i: int|
                last is Some && #[trigger] displaces(plan, world, grants, i, b, last->0)
        }),
{
    run_is_plan_effect(plan, world, grants);
    lemma_effect_captures(world, plan, grants, 0, b);
}

proof fn lemma_first_match_ignores_originals(
    a: Seq<Rebinding>,
    b: Seq<Rebinding>,
    symbol: Seq<u8>,
    upto: int,
)
    requires
        same_but_originals(a, b),
        0 <= upto <= a.len(),
    ensures
        first_match_before(a, symbol, upto) == first_match_before(b, symbol, upto),
    decreases upto,
{
    if upto > 0 {
        lemma_first_match_ignores_originals(a, b, symbol, upto - 1);
        assert(a[upto - 1].name == b[upto - 1].name);
    }
}

proof fn lemma_slot_patch_ignores_originals(
    image: Seq<u8>,
    width: Width,
    tables: Tables,
    a: Seq<Rebinding>,
    b: Seq<Rebinding>,
    section: Section,
    base: int,
    k: int,
)
    requires
        same_but_originals(a, b),
    ensures
        slot_patch(image, width, tables, a, section, base, k) == slot_patch(
            image,
            width,
            tables,
            b,
            section,
            base,
            k,
        ),
{
    match bound_name(image, width, tables, section.reserved1 + k) {
        Some(name) => {
            lemma_first_match_ignores_originals(a, b, name, a.len() as int);
            first_match_is_the_first(a, name, a.len() as int);
            match first_match(a, name) {
                Some(i) => {
                    assert(a[i].replacement == b[i].replacement);
                },
                None => {},
            }
        },
        None => {},
    }
}

proof fn lemma_slots_plan_ignores_originals(
    image: Seq<u8>,
    width: Width,
    tables: Tables,
    a: Seq<Rebinding>,
    b: Seq<Rebinding>,
    section: Section,
    base: int,
    count: int,
)
    requires
        same_but_originals(a, b),
    ensures
        slots_plan(image, width, tables, a, section, base, count) == slots_plan(
            image,
            width,
            tables,
            b,
            section,
            base,
            count,
        ),
    decreases count,
{
    if count > 0 {
        lemma_slots_plan_ignores_originals(image, width, tables, a, b, section, base, count - 1);
        lemma_slot_patch_ignores_originals(image, width, tables, a, b, section, base, count - 1);
    }
}

proof fn lemma_sections_plan_ignores_originals(
    image: Seq<u8>,
    width: Width,
    tables: Tables,
    a: Seq<Rebinding>,
    b: Seq<Rebinding>,
    segment: Segment,
    slide: i64,
    count: int,
)
    requires
        same_but_originals(a, b),
    ensures
        sections_plan(image, width, tables, a, segment, slide, count) == sections_plan(
            image,
            width,
            tables,
            b,
            segment,
            slide,
            count,
        ),
    decreases count,
{
    if count > 0 {
        lemma_sections_plan_ignores_originals(
            image,
            width,
            tables,
            a,
            b,
            segment,
            slide,
            count - 1,
        );
        match section_of(image, width, segment, count - 1) {
            Some(section) => {
                match slot_base(width, section, slide) {
                    Some(base) => {
                        lemma_slots_plan_ignores_originals(
                            image,
                            width,
                            tables,
                            a,
                            b,
                            section,
                            base,
                            slot_count(width, section),
                        );
                    },
                    None => {},
                }
            },
            None => {},
        }
    }
}

proof fn lemma_commands_plan_ignores_originals(
    image: Seq<u8>,
    width: Width,
    tables: Tables,
    a: Seq<Rebinding>,
    b: Seq<Rebinding>,
    cmds: Seq<LoadCommand>,
    slide: i64,
    count: int,
)
    requires
        same_but_originals(a, b),
    ensures
        commands_plan(image, width, tables, a, cmds, slide, count) == commands_plan(
            image,
            width,
            tables,
            b,
            cmds,
            slide,
            count,
        ),
    decreases count,
{
    if count > 0 {
        lemma_commands_plan_ignores_originals(image, width, tables, a, b, cmds, slide, count - 1);
        match segment_of(image, width, cmds[count - 1]) {
            Some(segment) => {
                lemma_sections_plan_ignores_originals(
                    image,
                    width,
                    tables,
                    a,
                    b,
                    segment,
                    slide,
                    segment.nsects as int,
                );
            },
            None => {},
        }
    }
}

/// The plan for an image depends on the names and the replacements of the
/// rebindings, and not on what their slots for the originals hold.
pub proof fn plan_ignores_originals(
    image: Seq<u8>,
    width: Width,
    a: Seq<Rebinding>,
    b: Seq<Rebinding>,
    slide: i64,
)
    requires
        same_but_originals(a, b),
    ensures
        image_plan(image, width, a, slide) == image_plan(image, width, b, slide),
{
    let cmds = commands(image, width);
    match tables_of(image, scan_of(image, width, cmds, cmds.len() as int)) {
        Some(tables) => {
            lemma_commands_plan_ignores_originals(
                image,
                width,
                tables,
                a,
                b,
                cmds,
                slide,
                cmds.len() as int,
            );
        },
        None => {},
    }
}

/// The world after one image has been walked: its plan made from the
/// rebindings of the world and carried out against a truthful host.
pub open spec fn walked(
    image: Seq<u8>,
    width: Width,
    slide: i64,
    world: World,
    grants: spec_fn(u64, u64) -> bool,
) -> World {
    carried_out(image_plan(image, width, world.bindings, slide), world, grants)
}

/// Walking an image a second time changes nothing: no slot is stored to
/// again, and no slot that holds its replacement is captured as an original.
/// This holds of every image whose plan stores the same wherever two of its
/// patches are for one address.
pub proof fn walk_is_idempotent(
    image: Seq<u8>,
    width: Width,
    slide: i64,
    world: World,
    grants: spec_fn(u64, u64) -> bool,
)
    requires
        consistent(image_plan(image, width, world.bindings, slide)),
    ensures
        walked(image, width, slide, walked(image, width, slide, world, grants), grants) == walked(
            image,
            width,
            slide,
            world,
            grants,
        ),
{
    let plan = image_plan(image, width, world.bindings, slide);
    let once = walked(image, width, slide, world, grants);
    run_keeps_rebindings(plan, world, grants);
    plan_ignores_originals(image, width, world.bindings, once.bindings, slide);
    run_is_idempotent(plan, world, grants);
}

/// Whether slot `k` of a section gives rise to the patch `p`: the section
/// holds symbol pointers and lies inside the address space, it has such a
/// slot, the slot is bound to a name that a rebinding carries, and `p` is
/// the patch that applies the first such rebinding to the slot.
pub open spec fn slot_yields(
    image: Seq<u8>,
    width: Width,
    tables: Tables,
    bindings: Seq<Rebinding>,
    slide: i64,
    section: Section,
    k: int,
    p: SlotPatch,
) -> bool {
    &&& holds_symbol_pointers(section.flags)
    &&& slot_base(width, section, slide) matches Some(base)
    &&& 0 <= k < slot_count(width, section)
    &&& slot_patch(image, width, tables, bindings, section, base, k) == Some(p)
}

/// Whether slot `k` of section `j` of the segment that load command `c`
/// describes gives rise to the patch `p`, the segment being a data segment.
pub open spec fn image_yields(
    image: Seq<u8>,
    width: Width,
    tables: Tables,
    bindings: Seq<Rebinding>,
    slide: i64,
    cmds: Seq<LoadCommand>,
    c: int,
    j: int,
    k: int,
    p: SlotPatch,
) -> bool {
    &&& 0 <= c < cmds.len()
    &&& is_data_segment(image, width, cmds[c])
    &&& segment_of(image, width, cmds[c]) matches Some(segment)
    &&& section_of(image, width, segment, j) matches Some(section)
    &&& slot_yields(image, width, tables, bindings, slide, section, k, p)
}

proof fn lemma_slots_plan_sound(
    image: Seq<u8>,
    width: Width,
    tables: Tables,
    bindings: Seq<Rebinding>,
    section: Section,
    base: int,
    count: int,
    i: int,
)
    requires
        0 <= i < slots_plan(image, width, tables, bindings, section, base, count).len(),
    ensures
        exists|k: int|
            0 <= k < count && #[trigger] slot_patch(
                image,
                width,
                tables,
                bindings,
                section,
                base,
                k,
            ) == Some(slots_plan(image, width, tables, bindings, section, base, count)[i]),
    decreases count,
{
    if count > 0 {
        let before = slots_plan(image, width, tables, bindings, section, base, count - 1);
        if i < before.len() {
            lemma_slots_plan_sound(image, width, tables, bindings, section, base, count - 1, i);
        } else {
            assert(slot_patch(image, width, tables, bindings, section, base, count - 1) == Some(
                slots_plan(image, width, tables, bindings, section, base, count)[i],
            ));
        }
    }
}

proof fn lemma_slots_plan_complete(
    image: Seq<u8>,
    width: Width,
    tables: Tables,
    bindings: Seq<Rebinding>,
    section: Section,
    base: int,
    count: int,
    k: int,
    p: SlotPatch,
)
    requires
        0 <= k < count,
        slot_patch(image, width, tables, bindings, section, base, k) == Some(p),
    ensures
        slots_plan(image, width, tables, bindings, section, base, count).contains(p),
    decreases count,
{
    let before = slots_plan(image, width, tables, bindings, section, base, count - 1);
    let all = slots_plan(image, width, tables, bindings, section, base, count);
    if k < count - 1 {
        lemma_slots_plan_complete(image, width, tables, bindings, section, base, count - 1, k, p);
        let i = choose|i: int| 0 <= i < before.len() && before[i] == p;
        assert(all[i] == p);
    } else {
        assert(all[all.len() - 1] == p);
    }
}

proof fn lemma_sections_plan_sound(
    image: Seq<u8>,
    width: Width,
    tables: Tables,
    bindings: Seq<Rebinding>,
    segment: Segment,
    slide: i64,
    count: int,
    i: int,
)
    requires
        0 <= i < sections_plan(image, width, tables, bindings, segment, slide, count).len(),
    ensures
        exists|j: int, k: int|
            0 <= j < count && section_of(image, width, segment, j) is Some
                && #[trigger] slot_yields(
                image,
                width,
                tables,
                bindings,
                slide,
                section_of(image, width, segment, j)->0,
                k,
                sections_plan(image, width, tables, bindings, segment, slide, count)[i],
            ),
    decreases count,
{
    if count > 0 {
        let before = sections_plan(image, width, tables, bindings, segment, slide, count - 1);
        let p = sections_plan(image, width, tables, bindings, segment, slide, count)[i];
        if i < before.len() {
            lemma_sections_plan_sound(image, width, tables, bindings, segment, slide, count - 1, i);
        } else {
            let section = section_of(image, width, segment, count - 1)->0;
            let base = slot_base(width, section, slide)->0;
            lemma_slots_plan_sound(
                image,
                width,
                tables,
                bindings,
                section,
                base,
                slot_count(width, section),
                i - before.len(),
            );
            let k = choose|k: int|
                0 <= k < slot_count(width, section) && #[trigger] slot_patch(
                    image,
                    width,
                    tables,
                    bindings,
                    section,
                    base,
                    k,
                ) == Some(p);
            assert(slot_yields(image, width, tables, bindings, slide, section, k, p));
        }
    }
}

proof fn lemma_sections_plan_complete(
    image: Seq<u8>,
    width: Width,
    tables: Tables,
    bindings: Seq<Rebinding>,
    segment: Segment,
    slide: i64,
    count: int,
    j: int,
    k: int,
    p: SlotPatch,
)
    requires
        0 <= j < count,
        section_of(image, width, segment, j) is Some,
        slot_yields(
            image,
            width,
            tables,
            bindings,
            slide,
            section_of(image, width, segment, j)->0,
            k,
            p,
        ),
    ensures
        sections_plan(image, width, tables, bindings, segment, slide, count).contains(p),
    decreases count,
{
    let before = sections_plan(image, width, tables, bindings, segment, slide, count - 1);
    let all = sections_plan(image, width, tables, bindings, segment, slide, count);
    if j < count - 1 {
        lemma_sections_plan_complete(
            image,
            width,
            tables,
            bindings,
            segment,
            slide,
            count - 1,
            j,
            k,
            p,
        );
        let i = choose|i: int| 0 <= i < before.len() && before[i] == p;
        assert(all[i] == p);
    } else {
        let section = section_of(image, width, segment, j)->0;
        let base = slot_base(width, section, slide)->0;
        let added = section_plan(image, width, tables, bindings, section, slide);
        lemma_slots_plan_complete(
            image,
            width,
            tables,
            bindings,
            section,
            base,
            slot_count(width, section),
            k,
            p,
        );
        let i = choose|i: int| 0 <= i < added.len() && added[i] == p;
        assert(all[before.len() + i] == p);
    }
}

proof fn lemma_commands_plan_sound(
    image: Seq<u8>,
    width: Width,
    tables: Tables,
    bindings: Seq<Rebinding>,
    cmds: Seq<LoadCommand>,
    slide: i64,
    count: int,
    i: int,
)
    requires
        count <= cmds.len(),
        0 <= i < commands_plan(image, width, tables, bindings, cmds, slide, count).len(),
    ensures
        exists|c: int, j: int, k: int|
            c < count && #[trigger] image_yields(
                image,
                width,
                tables,
                bindings,
                slide,
                cmds,
                c,
                j,
                k,
                commands_plan(image, width, tables, bindings, cmds, slide, count)[i],
            ),
    decreases count,
{
    if count > 0 {
        let before = commands_plan(image, width, tables, bindings, cmds, slide, count - 1);
        let p = commands_plan(image, width, tables, bindings, cmds, slide, count)[i];
        if i < before.len() {
            lemma_commands_plan_sound(image, width, tables, bindings, cmds, slide, count - 1, i);
        } else {
            let segment = segment_of(image, width, cmds[count - 1])->0;
            lemma_sections_plan_sound(
                image,
                width,
                tables,
                bindings,
                segment,
                slide,
                segment.nsects as int,
                i - before.len(),
            );
            let (j, k) = choose|j: int, k: int|
                0 <= j < segment.nsects && section_of(image, width, segment, j) is Some
                    && #[trigger] slot_yields(
                    image,
                    width,
                    tables,
                    bindings,
                    slide,
                    section_of(image, width, segment, j)->0,
                    k,
                    p,
                );
            assert(image_yields(image, width, tables, bindings, slide, cmds, count - 1, j, k, p));
        }
    }
}

proof fn lemma_commands_plan_complete(
    image: Seq<u8>,
    width: Width,
    tables: Tables,
    bindings: Seq<Rebinding>,
    cmds: Seq<LoadCommand>,
    slide: i64,
    count: int,
    c: int,
    j: int,
    k: int,
    p: SlotPatch,
)
    requires
        c < count <= cmds.len(),
        image_yields(image, width, tables, bindings, slide, cmds, c, j, k, p),
    ensures
        commands_plan(image, width, tables, bindings, cmds, slide, count).contains(p),
    decreases count,
{
    let before = commands_plan(image, width, tables, bindings, cmds, slide, count - 1);
    let all = commands_plan(image, width, tables, bindings, cmds, slide, count);
    if c < count - 1 {
        lemma_commands_plan_complete(
            image,
            width,
            tables,
            bindings,
            cmds,
            slide,
            count - 1,
            c,
            j,
            k,
            p,
        );
        let i = choose|i: int| 0 <= i < before.len() && before[i] == p;
        assert(all[i] == p);
    } else {
        let segment = segment_of(image, width, cmds[c])->0;
        let added = segment_plan(image, width, tables, bindings, segment, slide);
        lemma_sections_plan_complete(
            image,
            width,
            tables,
            bindings,
            segment,
            slide,
            segment.nsects as int,
            j,
            k,
            p,
        );
        let i = choose|i: int| 0 <= i < added.len() && added[i] == p;
        assert(all[before.len() + i] == p);
    }
}

/// Every patch of a plan stems from a slot of the image: from a slot in a
/// section of lazy or non-lazy symbol pointers of a data segment, bound to a
/// name that a rebinding carries. No other slot is ever planned for.
pub proof fn plan_is_sound(
    image: Seq<u8>,
    width: Width,
    bindings: Seq<Rebinding>,
    slide: i64,
    i: int,
)
    requires
        0 <= i < image_plan(image, width, bindings, slide).len(),
    ensures
        tables_of(
            image,
            scan_of(image, width, commands(image, width), commands(image, width).len() as int),
        ) matches Some(tables) && exists|c: int, j: int, k: int| #[trigger]
            image_yields(
                image,
                width,
                tables,
                bindings,
                slide,
                commands(image, width),
                c,
                j,
                k,
                image_plan(image, width, bindings, slide)[i],
            ),
{
    let cmds = commands(image, width);
    let tables = tables_of(image, scan_of(image, width, cmds, cmds.len() as int))->0;
    lemma_commands_plan_sound(image, width, tables, bindings, cmds, slide, cmds.len() as int, i);
}

/// Every slot of the image that is bound to a name that a rebinding carries
/// is planned for: the plan holds the patch that applies the first such
/// rebinding to it.
pub proof fn plan_is_complete(
    image: Seq<u8>,
    width: Width,
    bindings: Seq<Rebinding>,
    slide: i64,
    c: int,
    j: int,
    k: int,
    p: SlotPatch,
)
    requires
        tables_of(
            image,
            scan_of(image, width, commands(image, width), commands(image, width).len() as int),
        ) matches Some(tables) && image_yields(
            image,
            width,
            tables,
            bindings,
            slide,
            commands(image, width),
            c,
            j,
            k,
            p,
        ),
    ensures
        image_plan(image, width, bindings, slide).contains(p),
{
    let cmds = commands(image, width);
    let tables = tables_of(image, scan_of(image, width, cmds, cmds.len() as int))->0;
    lemma_commands_plan_complete(
        image,
        width,
        tables,
        bindings,
        cmds,
        slide,
        cmds.len() as int,
        c,
        j,
        k,
        p,
    );
}

/// Whether a patch is what the image and the rebindings call for. The
/// section header that it names is one of lazy or non-lazy symbol pointers,
/// and its contents, moved by the slide, are the range that has to be
/// writable. The slot is one of the section's slots. Its entry in the
/// indirect symbol table names a symbol: it is none of the entries that
/// stand for local and absolute symbols. The name of that symbol, without
/// its underscore, is the name of the rebinding that the patch applies, no
/// rebinding before that one carries it, and the patch stores that
/// rebinding's replacement.
pub open spec fn patch_is_called_for(
    image: Seq<u8>,
    width: Width,
    tables: Tables,
    bindings: Seq<Rebinding>,
    slide: i64,
    p: SlotPatch,
) -> bool {
    let section = section_fields(image, width, p.section_at as int);
    &&& holds_symbol_pointers(section.flags)
    &&& p.window_base == section.addr + slide
    &&& p.window_size == section.size
    &&& 0 <= p.index < slot_count(width, section)
    &&& p.address == slot_address(width, p.window_base as int, p.index as int)
    &&& p.window_base <= p.address
    &&& p.address + width.word_len() <= p.window_base + p.window_size
    &&& indirect_index(image, tables.dysymtab, section.reserved1 + p.index) matches Some(index)
    &&& !is_special_index(index)
    &&& index < tables.symtab.nsyms
    &&& bound_name(image, width, tables, section.reserved1 + p.index) matches Some(name)
    &&& 0 <= p.binding < bindings.len()
    &&& bindings[p.binding as int].name_bytes() == name
    &&& forall|b: int| 0 <= b < p.binding ==> (#[trigger] bindings[b]).name_bytes() != name
    &&& p.replacement == bindings[p.binding as int].replacement
}

/// Every patch of a plan is called for. So no plan holds a patch for a slot
/// whose entry in the indirect symbol table stands for a local or an
/// absolute symbol, nor for a slot of a section that does not hold symbol
/// pointers, nor for a slot whose symbol no rebinding names. The rebindings
/// are as many as a vector can hold.
pub proof fn plan_patches_are_called_for(
    image: Seq<u8>,
    width: Width,
    bindings: Seq<Rebinding>,
    slide: i64,
    i: int,
)
    requires
        bindings.len() <= usize::MAX,
        0 <= i < image_plan(image, width, bindings, slide).len(),
    ensures
        tables_of(
            image,
            scan_of(image, width, commands(image, width), commands(image, width).len() as int),
        ) matches Some(tables) && patch_is_called_for(
            image,
            width,
            tables,
            bindings,
            slide,
            image_plan(image, width, bindings, slide)[i],
        ),
{
    let cmds = commands(image, width);
    let tables = tables_of(image, scan_of(image, width, cmds, cmds.len() as int))->0;
    let p = image_plan(image, width, bindings, slide)[i];
    plan_is_sound(image, width, bindings, slide, i);
    let (c, j, k) = choose|c: int, j: int, k: int| #[trigger]
        image_yields(image, width, tables, bindings, slide, cmds, c, j, k, p);
    let segment = segment_of(image, width, cmds[c])->0;
    let section = section_of(image, width, segment, j)->0;
    let name = bound_name(image, width, tables, section.reserved1 + k)->0;
    first_match_is_the_first(bindings, name, bindings.len() as int);
    assert(section == section_fields(image, width, p.section_at as int));
}

/// The rewriter asks for no store but the one that the patch it is at calls
/// for, and only after the host has read something else from the slot than
/// what is to be stored.
pub proof fn stores_follow_the_plan(s: Progress, bindings: Seq<Rebinding>, reply: Reply)
    ensures
        step_of(s, bindings, reply).1 matches Request::Store { address, value } ==> {
            &&& 0 <= s.cursor < s.plan.len()
            &&& s.phase == Phase::Loading
            &&& address == s.plan[s.cursor].address
            &&& value == s.plan[s.cursor].replacement
            &&& reply matches Reply::Loaded(held)
            &&& held != value
        },
{
}

/// After an image has been walked, every slot of its data segments that is
/// bound to a name that a rebinding carries holds the replacement of the
/// first such rebinding, if its section could be made writable. This holds
/// of every image whose plan stores the same wherever two of its patches are
/// for one address.
pub proof fn walk_binds_every_matching_slot(
    image: Seq<u8>,
    width: Width,
    slide: i64,
    world: World,
    grants: spec_fn(u64, u64) -> bool,
    c: int,
    j: int,
    k: int,
    p: SlotPatch,
)
    requires
        consistent(image_plan(image, width, world.bindings, slide)),
        grants(p.window_base, p.window_size),
        tables_of(
            image,
            scan_of(image, width, commands(image, width), commands(image, width).len() as int),
        ) matches Some(tables) && image_yields(
            image,
            width,
            tables,
            world.bindings,
            slide,
            commands(image, width),
            c,
            j,
            k,
            p,
        ),
    ensures
        (walked(image, width, slide, world, grants).memory)(p.address) == p.replacement,
{
    let plan = image_plan(image, width, world.bindings, slide);
    plan_is_complete(image, width, world.bindings, slide, c, j, k, p);
    let i = choose|i: int| 0 <= i < plan.len() && plan[i] == p;
    run_binds_planned_slots(plan, world, grants, i);
}

/// A walk changes no memory but slots that the image and the rebindings
/// call for: whatever address holds something else after the walk than
/// before is the address of a slot in a section of lazy or non-lazy symbol
/// pointers, whose entry in the indirect symbol table stands for no local
/// and no absolute symbol, and whose symbol a rebinding names. The
/// rebindings are as many as a vector can hold.
pub proof fn walk_stores_only_where_called_for(
    image: Seq<u8>,
    width: Width,
    slide: i64,
    world: World,
    grants: spec_fn(u64, u64) -> bool,
    address: u64,
)
    requires
        world.bindings.len() <= usize::MAX,
        (walked(image, width, slide, world, grants).memory)(address) != (world.memory)(address),
    ensures
        tables_of(
            image,
            scan_of(image, width, commands(image, width), commands(image, width).len() as int),
        ) matches Some(tables) && exists|p: SlotPatch|
            p.address == address && #[trigger] patch_is_called_for(
                image,
                width,
                tables,
                world.bindings,
                slide,
                p,
            ),
{
    let plan = image_plan(image, width, world.bindings, slide);
    if forall|i: int| 0 <= i < plan.len() ==> (#[trigger] plan[i]).address != address {
        run_leaves_other_memory_alone(plan, world, grants, address);
    } else {
        let i = choose|i: int| 0 <= i < plan.len() && (#[trigger] plan[i]).address == address;
        plan_patches_are_called_for(image, width, world.bindings, slide, i);
    }
}

} // verus!
