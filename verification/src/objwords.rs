//! Keeping the words of all objects for the length of a turn.

use crate::memo::share;
use crate::session::{GameSession, TurnOutput};
use crate::turn::TurnResult;
use std::sync::Arc;
use vstd::prelude::*;

verus! {

/// What is to be done where someone asks for every word that some object answers to.
#[derive(Debug)]
pub enum WordSetStep {
    /// There is nothing to tell: the story keeps no such words.
    Absent,
    /// Answer with the words that are held.
    Answer(Arc<Vec<String>>),
    /// Walk the objects, and have the words held.
    Walk,
}

impl GameSession {
    /// What is to be done where someone asks for the words of all objects.
    pub open spec fn word_step(&self, kept: bool) -> WordSetStep {
        if !kept {
            WordSetStep::Absent
        } else {
            match self.object_words {
                Some(words) => WordSetStep::Answer(words),
                None => WordSetStep::Walk,
            }
        }
    }

    /// Settles what is to be done where someone asks for every word that some object answers
    /// to, where `kept` says whether the story keeps such words at all. The objects are
    /// walked on the first asking of a turn; the words are held for those that follow.
    pub fn object_word_set(&self, kept: bool) -> (r: WordSetStep)
        ensures
            r == self.word_step(kept),
    {
        if !kept {
            return WordSetStep::Absent;
        }
        match &self.object_words {
            Some(words) => WordSetStep::Answer(share(words)),
            None => WordSetStep::Walk,
        }
    }

    /// Holds the words that a walk over the objects found.
    pub fn hold_object_words(&mut self, words: Vec<String>) -> (r: Arc<Vec<String>>)
        requires
            old(self).wf(),
        ensures
            final(self).wf(),
            *r == words,
            *final(self) == (GameSession { object_words: Some(r), ..*old(self) }),
    {
        let held: Arc<Vec<String>> = Arc::new(words);
        let r: Arc<Vec<String>> = share(&held);
        self.object_words = Some(held);
        r
    }
}

// ── Laws ──────────────────────────────────────────────────────────────────────
/// Within a turn the objects are walked once: what the walk found answers every asking after
/// it, and asking changes nothing.
pub proof fn one_walk_serves_a_turn(s: GameSession, words: Arc<Vec<String>>)
    ensures
        (GameSession { object_words: Some(words), ..s }).word_step(true) == WordSetStep::Answer(
            words,
        ),
{
}

/// Once the interpreter has run and the turn was drained, the objects are walked afresh.
pub proof fn a_turn_drops_the_words(
    before: GameSession,
    out: TurnOutput,
    after: GameSession,
    r: TurnResult,
)
    requires
        before.drained_to(out, &after, &r),
    ensures
        after.word_step(true) is Walk,
{
}

} // verus!
