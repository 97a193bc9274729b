//! When the listing of a program is confirmed by what the interpreter has run.

use crate::debug::CallFrame;
use crate::session::{GameSession, TurnOutput};
use crate::turn::TurnResult;
use vstd::prelude::*;

verus! {

/// Whether a listing is there, and where the interpreter stood when it was last confirmed.
#[derive(Clone, Copy, Debug, PartialEq, Eq, Structural)]
pub struct DisasmGate {
    pub built: bool,
    pub last_confirmed_pc: Option<u32>,
}

/// What is to be done before a listing is read.
#[derive(Clone, Copy, Debug, PartialEq, Eq, Structural)]
pub struct ListingSteps {
    /// Make the listing, and confirm all that was ever run.
    pub build: bool,
    /// Confirm what was run since.
    pub confirm: bool,
}

impl DisasmGate {
    /// What is to be done before a listing is read where the interpreter stands at `pc`.
    pub open spec fn steps(&self, pc: u32) -> ListingSteps {
        ListingSteps { build: !self.built, confirm: self.last_confirmed_pc != Some(pc) }
    }

    /// The state once a listing was read there.
    pub open spec fn read_at(&self, pc: u32) -> DisasmGate {
        DisasmGate { built: true, last_confirmed_pc: Some(pc) }
    }

    /// The state once a turn was played.
    pub open spec fn reopened(&self) -> DisasmGate {
        DisasmGate { last_confirmed_pc: None, ..*self }
    }

    /// The state before a listing is made.
    pub fn new() -> (r: DisasmGate)
        ensures
            r == (DisasmGate { built: false, last_confirmed_pc: None }),
    {
        DisasmGate { built: false, last_confirmed_pc: None }
    }

    /// Settles what is to be done before a listing is read: it is made on first use, and
    /// confirmed once for each place that the interpreter stops at.
    pub fn with_disasm_cache(&mut self, pc: u32) -> (r: ListingSteps)
        ensures
            r == old(self).steps(pc),
            *final(self) == old(self).read_at(pc),
    {
        let build: bool = !self.built;
        self.built = true;
        let parked: bool = match self.last_confirmed_pc {
            Some(p) => p == pc,
            None => false,
        };
        if !parked {
            let _ = self.confirm_disasm(pc);
        }
        ListingSteps { build, confirm: !parked }
    }

    /// Settles whether to confirm a listing now: only where there is one, so that asking too
    /// early keeps nothing from being confirmed later.
    pub fn confirm_disasm(&mut self, pc: u32) -> (r: bool)
        ensures
            r == old(self).built,
            *final(self) == (if old(self).built {
                old(self).read_at(pc)
            } else {
                *old(self)
            }),
    {
        if self.built {
            self.last_confirmed_pc = Some(pc);
            true
        } else {
            false
        }
    }

    /// A turn runs further code, so the listing is confirmed again after it, also where it
    /// ends at the same place.
    pub fn reopen(&mut self)
        ensures
            *final(self) == old(self).reopened(),
    {
        self.last_confirmed_pc = None;
    }
}

impl GameSession {
    /// Settles what is to be done before the listing is read where the interpreter stands at
    /// `pc`.
    pub fn with_disasm_cache(&mut self, pc: u32) -> (r: ListingSteps)
        requires
            old(self).wf(),
        ensures
            final(self).wf(),
            r == old(self).listing.steps(pc),
            *final(self) == (GameSession { listing: old(self).listing.read_at(pc), ..*old(self) }),
    {
        self.listing.with_disasm_cache(pc)
    }

    /// Settles whether to confirm the listing now.
    pub fn confirm_disasm(&mut self, pc: u32) -> (r: bool)
        requires
            old(self).wf(),
        ensures
            final(self).wf(),
            r == old(self).listing.built,
            *final(self) == (GameSession {
                listing: if old(self).listing.built {
                    old(self).listing.read_at(pc)
                } else {
                    old(self).listing
                },
                ..*old(self)
            }),
    {
        self.listing.confirm_disasm(pc)
    }
}

/// What the interpreter has run: the routines that are being called, and single places.
#[derive(Debug)]
pub struct Confirmed {
    pub routines: Vec<u32>,
    pub places: Vec<u32>,
}

/// Lists what confirms a listing: the routines of the calls, where the interpreter stands,
/// the read that it waits at, and what it ran in the last turn.
pub fn fold_confirmations(
    frames: &Vec<CallFrame>,
    pc: u32,
    pending_read_pc: Option<u32>,
    exec_pcs: &Vec<u32>,
) -> (r: Confirmed)
    ensures
        r.routines@ == frames@.map_values(|f: CallFrame| f.func_addr),
        r.places@ == seq![pc] + (match pending_read_pc {
            Some(p) => seq![p],
            None => seq![],
        }) + exec_pcs@,
{
    let mut routines: Vec<u32> = Vec::new();
    let mut i: usize = 0;
    while i < frames.len()
        invariant
            i <= frames@.len(),
            routines@.len() == i,
            forall|j: int| 0 <= j < i ==> #[trigger] routines@[j] == frames@[j].func_addr,
        decreases frames.len() - i,
    {
        routines.push(frames[i].func_addr);
        i = i + 1;
    }
    assert(routines@ =~= frames@.map_values(|f: CallFrame| f.func_addr));
    let mut places: Vec<u32> = Vec::new();
    places.push(pc);
    if let Some(p) = pending_read_pc {
        places.push(p);
    }
    let ghost head = seq![pc] + (match pending_read_pc {
        Some(p) => seq![p],
        None => seq![],
    });
    assert(places@ =~= head);
    let mut k: usize = 0;
    assert(head + exec_pcs@.take(0) =~= head);
    while k < exec_pcs.len()
        invariant
            k <= exec_pcs@.len(),
            places@ == head + exec_pcs@.take(k as int),
        decreases exec_pcs.len() - k,
    {
        places.push(exec_pcs[k]);
        assert(places@ =~= head + exec_pcs@.take(k + 1));
        k = k + 1;
    }
    assert(exec_pcs@.take(k as int) =~= exec_pcs@);
    Confirmed { routines, places }
}

// ── Laws ──────────────────────────────────────────────────────────────────────
/// While the interpreter stays where it is, a listing is made and confirmed once: reading it
/// again asks for nothing and changes nothing.
pub proof fn a_listing_settles(g: DisasmGate, pc: u32)
    ensures
        g.read_at(pc).steps(pc) == (ListingSteps { build: false, confirm: false }),
        g.read_at(pc).read_at(pc) == g.read_at(pc),
{
}

/// After a turn the listing is confirmed again, also where the turn ended at the same place:
/// `before` is the session that the player's command or key was given to, `started` the one
/// that it left, and `after` the one once the turn was drained.
pub proof fn a_turn_asks_for_confirmation(
    before: GameSession,
    started: GameSession,
    out: TurnOutput,
    after: GameSession,
    r: TurnResult,
    pc: u32,
)
    requires
        started == before.at_turn_start() || before.at_turn_start().armed(&started),
        started.drained_to(out, &after, &r),
    ensures
        after.listing.steps(pc).confirm,
        after.listing.steps(pc).build == before.listing.steps(pc).build,
{
}

/// A listing is made exactly where there is none, and confirmed exactly where it was not yet
/// confirmed for the place that the interpreter stands at; afterwards there is one, confirmed
/// for that place and no other.
pub proof fn a_listing_is_made_once(g: DisasmGate, pc: u32, other: u32)
    ensures
        g.steps(pc).build <==> !g.built,
        g.steps(pc).confirm <==> g.last_confirmed_pc != Some(pc),
        !g.read_at(pc).steps(pc).build,
        !g.read_at(pc).steps(pc).confirm,
        other != pc ==> g.read_at(pc).steps(other).confirm,
        g.reopened().steps(pc).confirm,
        g.reopened().steps(pc).build <==> g.steps(pc).build,
{
}

} // verus!
