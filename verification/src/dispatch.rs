//! Maps a parsed record to the fixed sequence of keyed updates to
//! publish: one update per field, each field's delivery independent and
//! best-effort. The dispatcher hands out the six updates one at a time;
//! the caller performs each publish and reports its outcome, which by
//! design never changes what is attempted next.
use crate::parser::{ScoreboardUpdate, SpecUpdate};
use vstd::prelude::*;

verus! {

/// The six keyed updates a record produces, in publish order: the fixed
/// external key of each field, paired with the field's text verbatim.
pub open spec fn spec_updates(u: SpecUpdate) -> Seq<(Seq<char>, Seq<char>)> {
    seq![
        ("fade:Home-Score"@, u.home_score),
        ("fade:Away-Score"@, u.away_score),
        ("Clock"@, u.game_clock),
        ("Shot-Clock"@, u.shot_clock),
        ("Home-Fouls"@, u.home_fouls),
        ("Away-Fouls"@, u.away_fouls),
    ]
}

/// The mathematical state of a dispatch in progress: the record and the
/// index of the next field to attempt.
pub ghost struct DispatchState {
    pub update: SpecUpdate,
    pub next: int,
}

/// The dispatcher's step relation: from a state and the outcome of the
/// previous publish attempt, the next state and the update to attempt
/// now, if any. The outcome is ignored by construction: a failed
/// publish never changes what is attempted next.
pub open spec fn spec_step(d: DispatchState, prev_failed: bool) -> (DispatchState, Option<
    (Seq<char>, Seq<char>),
>) {
    if 0 <= d.next < 6 {
        (
            DispatchState { update: d.update, next: d.next + 1 },
            Some(spec_updates(d.update)[d.next]),
        )
    } else {
        (d, None)
    }
}

/// Walks the six updates of one parsed record in publish order.
pub struct Dispatcher {
    update: ScoreboardUpdate,
    next: usize,
}

impl View for Dispatcher {
    type V = DispatchState;

    closed spec fn view(&self) -> DispatchState {
        DispatchState { update: self.update@, next: self.next as int }
    }
}

impl Dispatcher {
    /// Begins dispatch of one parsed record, starting at its first
    /// field.
    pub fn new(update: ScoreboardUpdate) -> (d: Dispatcher)
        ensures
            d@ == (DispatchState { update: update@, next: 0 }),
    {
        Dispatcher { update, next: 0 }
    }

    /// The next keyed update to attempt, or `None` once all six fields
    /// have been handed out. `prev_failed` reports whether the previous
    /// publish attempt failed; the contract shows it has no effect, so
    /// a failure on one field never prevents the attempts on the later
    /// fields.
    pub fn step(&mut self, prev_failed: bool) -> (r: Option<(String, String)>)
        ensures
            final(self)@ == spec_step(old(self)@, prev_failed).0,
            (match r {
                Some(p) => spec_step(old(self)@, prev_failed).1 == Some((p.0@, p.1@)),
                None => spec_step(old(self)@, prev_failed).1 is None,
            }),
    {
        if self.next >= 6 {
            return None;
        }
        let pair: (&str, String) = if self.next == 0 {
            ("fade:Home-Score", self.update.home_score.clone())
        } else if self.next == 1 {
            ("fade:Away-Score", self.update.away_score.clone())
        } else if self.next == 2 {
            ("Clock", self.update.game_clock.clone())
        } else if self.next == 3 {
            ("Shot-Clock", self.update.shot_clock.clone())
        } else if self.next == 4 {
            ("Home-Fouls", self.update.home_fouls.clone())
        } else {
            ("Away-Fouls", self.update.away_fouls.clone())
        };
        self.next = self.next + 1;
        Some((pair.0.to_owned(), pair.1))
    }
}

/// The dispatcher's run from a state, fed one publish outcome per step:
/// the sequence of updates attempted, ending when the dispatcher stops
/// or the outcomes run out.
pub open spec fn spec_run(d: DispatchState, outcomes: Seq<bool>) -> Seq<(Seq<char>, Seq<char>)>
    decreases outcomes.len(),
{
    if outcomes.len() == 0 {
        Seq::empty()
    } else {
        match spec_step(d, outcomes[0]).1 {
            Some(p) => seq![p] + spec_run(spec_step(d, outcomes[0]).0, outcomes.drop_first()),
            None => Seq::empty(),
        }
    }
}

/// The run from the middle of a dispatch attempts exactly the updates
/// that are still owed, whatever the outcomes fed to it.
proof fn lemma_run_from(u: SpecUpdate, k: int, outcomes: Seq<bool>)
    requires
        0 <= k <= 6,
        outcomes.len() >= 6 - k,
    ensures
        spec_run(DispatchState { update: u, next: k }, outcomes) == spec_updates(u).skip(k),
    decreases 6 - k,
{
    if k == 6 {
        assert(spec_updates(u).skip(6) =~= Seq::<(Seq<char>, Seq<char>)>::empty());
        if outcomes.len() > 0 {
            assert(spec_step(DispatchState { update: u, next: k }, outcomes[0]).1 is None);
        }
    } else {
        lemma_run_from(u, k + 1, outcomes.drop_first());
        assert(spec_updates(u).skip(k) =~= seq![spec_updates(u)[k]] + spec_updates(u).skip(k + 1));
    }
}

/// Law: dispatching a record always attempts exactly its six keyed
/// updates, in publish order, regardless of any individual attempt's
/// outcome.
pub proof fn lemma_six_attempts(u: SpecUpdate, outcomes: Seq<bool>)
    requires
        outcomes.len() >= 6,
    ensures
        spec_run(DispatchState { update: u, next: 0 }, outcomes) == spec_updates(u),
        spec_updates(u).len() == 6,
{
    lemma_run_from(u, 0, outcomes);
    assert(spec_updates(u).skip(0) =~= spec_updates(u));
}

/// Law: a publish failure is invisible to the dispatcher: the step is
/// the same whatever the outcome of the previous attempt, so the
/// updates attempted never depend on which publishes failed.
pub proof fn lemma_outcome_ignored(d: DispatchState, failed: bool, other: bool)
    ensures
        spec_step(d, failed) == spec_step(d, other),
{
}

} // verus!
