//! What the session has the interpreter do, between one turn and the next.

use crate::input::{zscii_of, KeyInput};
use crate::session::GameSession;
use vstd::prelude::*;

verus! {

/// The code of the key that ends a line.
pub const ENTER: u8 = 13;

/// Something for the interpreter to do before it runs on to where it stops.
#[derive(Debug)]
pub enum Order {
    /// Take a line, ended by a key.
    SupplyLine { line: String, terminator: u8 },
    /// Forget where the last burst of text in the window that input is read through began,
    /// and take a key.
    SupplyChar(u8),
    /// End the pending read as timed out, with what was typed so far.
    AbortInput { typed: String },
    /// Answer the game's save.
    CompleteSave(bool),
    /// Answer the game's restore with saved bytes. Where they cannot be read, the answer is
    /// that it failed.
    CompleteRestore(Vec<u8>),
    /// Answer the game's restore with a failure.
    FailRestore,
}

/// What follows when the routine of a timed read has run.
#[derive(Clone, Copy, Debug, PartialEq, Eq, Structural)]
pub enum AfterInterrupt {
    /// The read is over: end it as timed out, with nothing typed, and run on.
    Abort,
    /// The read is still pending: drain what the routine printed.
    Collect,
}

impl GameSession {
    /// The session as a turn starts: its listing is to be confirmed again.
    pub open spec fn at_turn_start(&self) -> GameSession {
        GameSession { listing: self.listing.reopened(), ..*self }
    }

    /// The order that a command is: its line, ended by the key that ends lines.
    pub fn submit(command: &str) -> (r: Order)
        ensures
            r matches Order::SupplyLine { line, terminator } && line@ == command@ && terminator
                == ENTER,
    {
        GameSession::submit_line_with_terminator(command, ENTER)
    }

    /// The order that a command is, ended by another key.
    pub fn submit_line_with_terminator(command: &str, terminator: u8) -> (r: Order)
        ensures
            r matches Order::SupplyLine { line, terminator: t } && line@ == command@ && t
                == terminator,
    {
        Order::SupplyLine { line: command.to_owned(), terminator }
    }

    /// The order that a key is. The turn that follows can tell whether its output went on
    /// from where the cursor stood.
    pub fn submit_char(&mut self, ch: u8) -> (r: Order)
        requires
            old(self).wf(),
        ensures
            final(self).wf(),
            r == Order::SupplyChar(ch),
            old(self).armed(final(self)),
    {
        self.arm_line_continuation();
        Order::SupplyChar(ch)
    }

    /// Starts a turn with a command of the player's. A turn runs further code, so that the
    /// listing of the program is to be confirmed again after it.
    pub fn submit_command(&mut self, command: &str) -> (r: Order)
        requires
            old(self).wf(),
        ensures
            final(self).wf(),
            r matches Order::SupplyLine { line, terminator } && line@ == command@ && terminator
                == ENTER,
            *final(self) == old(self).at_turn_start(),
    {
        self.listing.reopen();
        GameSession::submit(command)
    }

    /// Starts a turn with a key of the player's; there is no order, and no turn, where the
    /// interpreter has no code for it. The listing of the program is to be confirmed again
    /// either way.
    pub fn submit_key(&mut self, key: KeyInput) -> (r: Option<Order>)
        requires
            old(self).wf(),
        ensures
            final(self).wf(),
            final(self).listing == old(self).listing.reopened(),
            match zscii_of(key) {
                Some(z) => r == Some(Order::SupplyChar(z)) && old(self).at_turn_start().armed(
                    final(self),
                ),
                None => r is None && *final(self) == old(self).at_turn_start(),
            },
    {
        self.listing.reopen();
        match GameSession::key_input_to_zscii(key) {
            Some(z) => Some(self.submit_char(z)),
            None => None,
        }
    }

    /// What follows when the routine of a timed read has run.
    pub fn run_timed_interrupt(aborted: bool) -> (r: AfterInterrupt)
        ensures
            r == (if aborted {
                AfterInterrupt::Abort
            } else {
                AfterInterrupt::Collect
            }),
    {
        if aborted {
            AfterInterrupt::Abort
        } else {
            AfterInterrupt::Collect
        }
    }

    /// The order that ends a read as timed out.
    pub fn abort_timed_input(typed: &str) -> (r: Order)
        ensures
            r matches Order::AbortInput { typed: t } && t@ == typed@,
    {
        Order::AbortInput { typed: typed.to_owned() }
    }

    /// The order that answers the game's own save.
    pub fn resume_save(wrote_ok: bool) -> (r: Order)
        ensures
            r == Order::CompleteSave(wrote_ok),
    {
        Order::CompleteSave(wrote_ok)
    }

    /// The order that answers the game's own restore: with the save that the player chose,
    /// or with a failure where they chose none.
    pub fn resume_restore(data: Option<Vec<u8>>) -> (r: Order)
        ensures
            r == (match data {
                Some(bytes) => Order::CompleteRestore(bytes),
                None => Order::FailRestore,
            }),
    {
        match data {
            Some(bytes) => Order::CompleteRestore(bytes),
            None => Order::FailRestore,
        }
    }

    /// Advances with every change of the palette; zero without pictures.
    pub fn palette_gen(&self) -> (r: u64)
        ensures
            r == (match self.pict_source {
                Some(s) => s.palette_gen,
                None => 0,
            }),
    {
        match &self.pict_source {
            Some(s) => s.palette_gen,
            None => 0,
        }
    }
}

} // verus!
