//! Carrying out a plan: what to ask of the host, step by step.
//!
//! The library does not touch memory. For each patch of a plan it asks the
//! host to make the section writable, to read the slot, to store the
//! replacement if the slot does not hold it yet, and to give the section its
//! protection back. The host answers each request with what happened, and
//! the next request follows from the answer.

use vstd::prelude::*;
use crate::registry::Rebinding;
use crate::walker::SlotPatch;

verus! {

/// What the host is asked to do next.
#[derive(Clone, Copy, Debug, PartialEq, Eq, Structural)]
pub enum Request {
    /// Give `size` bytes from `base` on the protection read, write and copy,
    /// as the current and not as the maximum protection, so that stores fall
    /// on pages of this process alone. Answered by `Reply::Protected`.
    Unprotect { base: u64, size: u64 },
    /// Read the pointer at `address`. Answered by `Reply::Loaded`.
    Load { address: u64 },
    /// Store `value` at `address`, as one pointer-sized write. Answered by
    /// `Reply::Stored`.
    Store { address: u64, value: u64 },
    /// Give `size` bytes from `base` on the protection read and execute.
    /// Answered by `Reply::Restored`.
    Restore { base: u64, size: u64 },
    /// Nothing is left to do.
    Finished,
}

/// What the host answers.
#[derive(Clone, Copy, Debug, PartialEq, Eq, Structural)]
pub enum Reply {
    /// Nothing has been asked yet.
    Begin,
    /// Whether the range is writable now.
    Protected(bool),
    /// What the slot holds.
    Loaded(u64),
    /// The store has been made.
    Stored,
    /// The protection has been given back, or could not be.
    Restored,
}

/// Where the work on the current patch stands.
#[derive(Clone, Copy, Debug, PartialEq, Eq, Structural)]
pub enum Phase {
    /// Nothing has been asked yet.
    Ready,
    /// The host has been asked to make the section writable.
    Opening,
    /// The section is writable and the host has been asked to read the slot.
    Loading,
    /// The section is writable and the host has been asked to store.
    Storing,
    /// The host has been asked to give the protection back.
    Closing,
    /// The plan has been carried out.
    Done,
}

/// The state of a rewriter: the plan, the patch that it is at, and where the
/// work on that patch stands.
pub struct Progress {
    /// The plan that is carried out.
    pub plan: Seq<SlotPatch>,
    /// Which patch of the plan the rewriter is at.
    pub cursor: int,
    /// Where the work on that patch stands.
    pub phase: Phase,
}

/// Carries out a plan, one request at a time.
pub struct Rewriter {
    plan: Vec<SlotPatch>,
    cursor: usize,
    phase: Phase,
}

impl View for Rewriter {
    type V = Progress;

    closed spec fn view(&self) -> Progress {
        Progress { plan: self.plan@, cursor: self.cursor as int, phase: self.phase }
    }
}

/// Turns to the patch at `cursor`: asks for its section to be made writable,
/// or finishes if the plan has no such patch.
pub open spec fn open_next(plan: Seq<SlotPatch>, cursor: int) -> (Progress, Request) {
    if 0 <= cursor < plan.len() {
        (
            Progress { plan, cursor, phase: Phase::Opening },
            Request::Unprotect { base: plan[cursor].window_base, size: plan[cursor].window_size },
        )
    } else {
        (Progress { plan, cursor, phase: Phase::Done }, Request::Finished)
    }
}

/// The rebindings once `patch` has displaced `displaced`: the rebinding that
/// the patch applies holds it in its slot for the original, if it has such a
/// slot.
pub open spec fn capture(bindings: Seq<Rebinding>, patch: SlotPatch, displaced: u64) -> Seq<
    Rebinding,
> {
    if patch.binding < bindings.len() && bindings[patch.binding as int].original is Some {
        bindings.update(
            patch.binding as int,
            Rebinding { original: Some(displaced), ..bindings[patch.binding as int] },
        )
    } else {
        bindings
    }
}

/// One step: the state, the request and the rebindings that follow from a
/// state, the rebindings and the host's answer.
///
/// A section that could not be made writable is left alone. A slot that
/// holds the replacement already is left alone, and nothing is captured from
/// it. Any other slot is stored to, and what it held is captured. Once a
/// section has been made writable, its protection is given back whatever
/// happens in between. An answer that does not fit the request counts as a
/// failure of the request.
pub open spec fn step_of(s: Progress, bindings: Seq<Rebinding>, reply: Reply) -> (
    Progress,
    Request,
    Seq<Rebinding>,
) {
    if s.phase == Phase::Done || !(0 <= s.cursor < s.plan.len()) {
        (Progress { phase: Phase::Done, ..s }, Request::Finished, bindings)
    } else {
        let patch = s.plan[s.cursor];
        let restore = Request::Restore { base: patch.window_base, size: patch.window_size };
        match s.phase {
            Phase::Ready => (open_next(s.plan, s.cursor).0, open_next(s.plan, s.cursor).1, bindings),
            Phase::Opening => if reply == Reply::Protected(true) {
                (
                    Progress { phase: Phase::Loading, ..s },
                    Request::Load { address: patch.address },
                    bindings,
                )
            } else {
                (
                    open_next(s.plan, s.cursor + 1).0,
                    open_next(s.plan, s.cursor + 1).1,
                    bindings,
                )
            },
            Phase::Loading => match reply {
                Reply::Loaded(held) => if held != patch.replacement {
                    (
                        Progress { phase: Phase::Storing, ..s },
                        Request::Store { address: patch.address, value: patch.replacement },
                        capture(bindings, patch, held),
                    )
                } else {
                    (Progress { phase: Phase::Closing, ..s }, restore, bindings)
                },
                _ => (Progress { phase: Phase::Closing, ..s }, restore, bindings),
            },
            Phase::Storing => (Progress { phase: Phase::Closing, ..s }, restore, bindings),
            _ => (open_next(s.plan, s.cursor + 1).0, open_next(s.plan, s.cursor + 1).1, bindings),
        }
    }
}

impl Rewriter {
    /// A rewriter that has all of `plan` before it.
    pub fn new(plan: Vec<SlotPatch>) -> (r: Rewriter)
        ensures
            r@ == (Progress { plan: plan@, cursor: 0, phase: Phase::Ready }),
    {
        Rewriter { plan, cursor: 0, phase: Phase::Ready }
    }

    /// Whether the plan has been carried out.
    pub fn is_done(&self) -> (r: bool)
        ensures
            r == (self@.phase == Phase::Done),
    {
        match self.phase {
            Phase::Done => true,
            _ => false,
        }
    }

    fn open(&mut self, cursor: usize) -> (request: Request)
        ensures
            (final(self)@, request) == open_next(old(self)@.plan, cursor as int),
    {
        self.cursor = cursor;
        if cursor < self.plan.len() {
            self.phase = Phase::Opening;
            Request::Unprotect {
                base: self.plan[cursor].window_base,
                size: self.plan[cursor].window_size,
            }
        } else {
            self.phase = Phase::Done;
            Request::Finished
        }
    }

    /// Takes the host's answer to the last request and gives the next
    /// request. The first call takes `Reply::Begin`.
    pub fn step(&mut self, bindings: &mut Vec<Rebinding>, reply: Reply) -> (request: Request)
        ensures
            (final(self)@, request, final(bindings)@) == step_of(old(self)@, old(bindings)@, reply),
    {
        if self.cursor >= self.plan.len() {
            self.phase = Phase::Done;
            return Request::Finished;
        }
        let patch = self.plan[self.cursor];
        let restore = Request::Restore { base: patch.window_base, size: patch.window_size };
        match self.phase {
            Phase::Done => Request::Finished,
            Phase::Ready => self.open(self.cursor),
            Phase::Opening => match reply {
                Reply::Protected(true) => {
                    self.phase = Phase::Loading;
                    Request::Load { address: patch.address }
                },
                _ => self.open(self.cursor + 1),
            },
            Phase::Loading => match reply {
                Reply::Loaded(held) => {
                    if held != patch.replacement {
                        if patch.binding < bindings.len() && bindings[patch.binding].original.is_some() {
                            let updated = Rebinding {
                                name: bindings[patch.binding].name.clone(),
                                replacement: bindings[patch.binding].replacement,
                                original: Some(held),
                            };
                            bindings.set(patch.binding, updated);
                        }
                        self.phase = Phase::Storing;
                        Request::Store { address: patch.address, value: patch.replacement }
                    } else {
                        self.phase = Phase::Closing;
                        restore
                    }
                },
                _ => {
                    self.phase = Phase::Closing;
                    restore
                },
            },
            Phase::Storing => {
                self.phase = Phase::Closing;
                restore
            },
            Phase::Closing => self.open(self.cursor + 1),
        }
    }
}

} // verus!
