//! A model of the host, to state what carrying out a plan does to memory.
//!
//! Memory is a function from addresses to the pointers that they hold. Whether a
//! range can be made writable is up to the kernel: the model takes it as a
//! function of the range. A host that answers every request truthfully is
//! then a function, and so is the whole run of a rewriter against it.

use vstd::prelude::*;
use crate::registry::Rebinding;
use crate::rewriter::{capture, step_of, Phase, Progress, Reply, Request};
use crate::walker::SlotPatch;

verus! {

/// What a run changes: the pointers in memory and the rebindings' slots for
/// the originals.
pub struct World {
    /// What every address holds.
    pub memory: spec_fn(u64) -> u64,
    /// The rebindings.
    pub bindings: Seq<Rebinding>,
}

/// Memory after `value` has been stored at `address`.
pub open spec fn store(memory: spec_fn(u64) -> u64, address: u64, value: u64) -> spec_fn(u64) -> u64 {
    |a: u64|
        if a == address {
            value
        } else {
            memory(a)
        }
}

/// What a truthful host does with a request: the memory afterwards and the
/// answer. `grants` tells of a range whether the kernel makes it writable.
pub open spec fn answer(
    memory: spec_fn(u64) -> u64,
    grants: spec_fn(u64, u64) -> bool,
    request: Request,
) -> (spec_fn(u64) -> u64, Reply) {
    match request {
        Request::Unprotect { base, size } => (memory, Reply::Protected(grants(base, size))),
        Request::Load { address } => (memory, Reply::Loaded(memory(address))),
        Request::Store { address, value } => (store(memory, address, value), Reply::Stored),
        Request::Restore { base, size } => (memory, Reply::Restored),
        Request::Finished => (memory, Reply::Begin),
    }
}

/// How many requests a phase is away from the next patch, at most.
pub open spec fn rank(phase: Phase) -> nat {
    match phase {
        Phase::Ready => 5,
        Phase::Opening => 4,
        Phase::Loading => 3,
        Phase::Storing => 2,
        Phase::Closing => 1,
        Phase::Done => 0,
    }
}

/// The world after a rewriter in state `s` has been run to its end against a
/// truthful host, `reply` being the answer that it is waiting for.
pub open spec fn run(s: Progress, world: World, grants: spec_fn(u64, u64) -> bool, reply: Reply) -> World
    decreases s.plan.len() - s.cursor, rank(s.phase),
{
    let next = step_of(s, world.bindings, reply);
    if next.1 == Request::Finished {
        World { memory: world.memory, bindings: next.2 }
    } else {
        let answered = answer(world.memory, grants, next.1);
        run(next.0, World { memory: answered.0, bindings: next.2 }, grants, answered.1)
    }
}

/// What one patch does to the world: where its section can be made writable
/// and its slot does not hold the replacement yet, the slot holds the
/// replacement afterwards and what it held is captured. Else nothing
/// changes.
pub open spec fn patch_effect(world: World, patch: SlotPatch, granted: bool) -> World {
    if granted && (world.memory)(patch.address) != patch.replacement {
        World {
            memory: store(world.memory, patch.address, patch.replacement),
            bindings: capture(world.bindings, patch, (world.memory)(patch.address)),
        }
    } else {
        world
    }
}

/// What the patches from `from` on do to the world, one after the other.
pub open spec fn plan_effect(
    world: World,
    plan: Seq<SlotPatch>,
    grants: spec_fn(u64, u64) -> bool,
    from: int,
) -> World
    decreases plan.len() - from,
{
    if from < 0 || from >= plan.len() {
        world
    } else {
        plan_effect(
            patch_effect(
                world,
                plan[from],
                grants(plan[from].window_base, plan[from].window_size),
            ),
            plan,
            grants,
            from + 1,
        )
    }
}

/// A rewriter that has asked for the section of patch `from` to be made
/// writable does, run to its end, what the patches from `from` on do.
proof fn lemma_run_from(
    plan: Seq<SlotPatch>,
    world: World,
    grants: spec_fn(u64, u64) -> bool,
    from: int,
)
    requires
        0 <= from < plan.len(),
    ensures
        run(
            Progress { plan, cursor: from, phase: Phase::Opening },
            world,
            grants,
            Reply::Protected(grants(plan[from].window_base, plan[from].window_size)),
        ) == plan_effect(world, plan, grants, from),
    decreases plan.len() - from,
{
    let patch = plan[from];
    let granted = grants(patch.window_base, patch.window_size);
    let after = patch_effect(world, patch, granted);
    let opening = Progress { plan, cursor: from, phase: Phase::Opening };
    let loading = Progress { plan, cursor: from, phase: Phase::Loading };
    let storing = Progress { plan, cursor: from, phase: Phase::Storing };
    let closing = Progress { plan, cursor: from, phase: Phase::Closing };
    // What is left once the work on this patch has ended.
    let rest = plan_effect(after, plan, grants, from + 1);
    assert(run(closing, after, grants, Reply::Restored) == rest) by {
        if from + 1 < plan.len() {
            lemma_run_from(plan, after, grants, from + 1);
        }
    }
    assert(run(storing, after, grants, Reply::Stored) == run(
        closing,
        after,
        grants,
        Reply::Restored,
    ));
    if !granted {
        if from + 1 < plan.len() {
            lemma_run_from(plan, after, grants, from + 1);
        }
    } else {
        let held = (world.memory)(patch.address);
        assert(run(opening, world, grants, Reply::Protected(true)) == run(
            loading,
            world,
            grants,
            Reply::Loaded(held),
        ));
        if held != patch.replacement {
            let stored = answer(
                world.memory,
                grants,
                Request::Store { address: patch.address, value: patch.replacement },
            );
            assert(World { memory: stored.0, bindings: capture(world.bindings, patch, held) }
                == after);
            assert(run(loading, world, grants, Reply::Loaded(held)) == run(
                storing,
                after,
                grants,
                Reply::Stored,
            ));
        } else {
            assert(run(loading, world, grants, Reply::Loaded(held)) == run(
                closing,
                after,
                grants,
                Reply::Restored,
            ));
        }
    }
}

/// Carrying out a plan step by step against a truthful host does what the
/// patches of the plan do one after the other.
pub proof fn run_is_plan_effect(
    plan: Seq<SlotPatch>,
    world: World,
    grants: spec_fn(u64, u64) -> bool,
)
    ensures
        run(Progress { plan, cursor: 0, phase: Phase::Ready }, world, grants, Reply::Begin)
            == plan_effect(world, plan, grants, 0),
{
    reveal_with_fuel(run, 2);
    if 0 < plan.len() {
        lemma_run_from(plan, world, grants, 0);
    }
}

} // verus!
