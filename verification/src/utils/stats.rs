//! Outcome classification and the per-pair accumulator of outcomes.

use vstd::prelude::*;

verus! {

/// Canonical result of a finished two-player match: the first player won,
/// the second player won, or nobody did.
#[derive(Clone, Copy, Debug, PartialEq, Eq, Hash, Structural)]
pub enum TwoPlayerOutcome {
    OneWins,
    TwoWins,
    Draw,
}

/// Every finished match falls into exactly one of the three classes.
pub proof fn lemma_outcome_classes_exclusive(outcome: TwoPlayerOutcome)
    ensures
        outcome is OneWins || outcome is TwoWins || outcome is Draw,
        !(outcome is OneWins && outcome is TwoWins),
        !(outcome is OneWins && outcome is Draw),
        !(outcome is TwoWins && outcome is Draw),
{
}

/// Outcome counts for one ordered pair of actors: wins of the first-listed
/// actor, wins of the second-listed actor, and draws.
///
/// The three counters together never exceed `usize::MAX`, so the number of
/// games is always representable.
#[derive(Clone, Copy, Debug, PartialEq, Eq, Hash, Structural)]
pub struct OutcomeStats {
    one_wins: usize,
    two_wins: usize,
    draws: usize,
}

impl OutcomeStats {
    /// Number of matches the first-listed actor won.
    pub closed spec fn spec_one_wins(self) -> nat {
        self.one_wins as nat
    }

    /// Number of matches the second-listed actor won.
    pub closed spec fn spec_two_wins(self) -> nat {
        self.two_wins as nat
    }

    /// Number of drawn matches.
    pub closed spec fn spec_draws(self) -> nat {
        self.draws as nat
    }

    /// Number of matches recorded: the sum of the three counters.
    pub open spec fn spec_games(self) -> nat {
        self.spec_one_wins() + self.spec_two_wins() + self.spec_draws()
    }

    /// The counters' sum fits in a `usize`.
    #[verifier::type_invariant]
    pub open spec fn wf(self) -> bool {
        self.spec_games() <= usize::MAX
    }

    /// The counters after one more match with the given outcome.
    pub open spec fn spec_record(self, outcome: TwoPlayerOutcome) -> (nat, nat, nat) {
        match outcome {
            TwoPlayerOutcome::OneWins => (
                self.spec_one_wins() + 1,
                self.spec_two_wins(),
                self.spec_draws(),
            ),
            TwoPlayerOutcome::TwoWins => (
                self.spec_one_wins(),
                self.spec_two_wins() + 1,
                self.spec_draws(),
            ),
            TwoPlayerOutcome::Draw => (
                self.spec_one_wins(),
                self.spec_two_wins(),
                self.spec_draws() + 1,
            ),
        }
    }

    /// The three counters as a triple.
    pub open spec fn counts(self) -> (nat, nat, nat) {
        (self.spec_one_wins(), self.spec_two_wins(), self.spec_draws())
    }

    /// Two accumulators with the same counters are the same accumulator.
    pub proof fn lemma_counts_determine(self, other: OutcomeStats)
        requires
            self.counts() == other.counts(),
        ensures
            self == other,
    {
    }

    /// An accumulator with all counters at zero.
    pub fn new() -> (stats: Self)
        ensures
            stats.counts() == (0nat, 0nat, 0nat),
    {
        OutcomeStats { one_wins: 0, two_wins: 0, draws: 0 }
    }

    /// An accumulator with the given counters, or `None` when their sum does
    /// not fit in a `usize`.
    pub fn from_counts(one_wins: usize, two_wins: usize, draws: usize) -> (stats: Option<Self>)
        ensures
            stats is Some <==> one_wins + two_wins + draws <= usize::MAX,
            stats is Some ==> stats->0.counts() == (one_wins as nat, two_wins as nat, draws as nat),
    {
        match one_wins.checked_add(two_wins) {
            Some(decided) => match decided.checked_add(draws) {
                Some(_) => Some(OutcomeStats { one_wins, two_wins, draws }),
                None => None,
            },
            None => None,
        }
    }

    /// Wins of the first-listed actor.
    pub fn one_wins(&self) -> (n: usize)
        ensures
            n == self.spec_one_wins(),
    {
        self.one_wins
    }

    /// Wins of the second-listed actor.
    pub fn two_wins(&self) -> (n: usize)
        ensures
            n == self.spec_two_wins(),
    {
        self.two_wins
    }

    /// Drawn matches.
    pub fn draws(&self) -> (n: usize)
        ensures
            n == self.spec_draws(),
    {
        self.draws
    }

    /// Total number of matches recorded.
    pub fn games(&self) -> (n: usize)
        ensures
            n == self.spec_games(),
    {
        proof {
            use_type_invariant(self);
        }
        self.one_wins + self.two_wins + self.draws
    }

    /// Counts one more match: exactly the counter of `outcome` grows by one.
    pub fn record(&mut self, outcome: TwoPlayerOutcome)
        requires
            old(self).spec_games() < usize::MAX,
        ensures
            final(self).counts() == old(self).spec_record(outcome),
            final(self).spec_games() == old(self).spec_games() + 1,
    {
        match outcome {
            TwoPlayerOutcome::OneWins => {
                self.one_wins = self.one_wins + 1;
            },
            TwoPlayerOutcome::TwoWins => {
                self.two_wins = self.two_wins + 1;
            },
            TwoPlayerOutcome::Draw => {
                self.draws = self.draws + 1;
            },
        }
    }
}

impl Default for OutcomeStats {
    fn default() -> (stats: Self)
        ensures
            stats.counts() == (0nat, 0nat, 0nat),
    {
        OutcomeStats::new()
    }
}

} // verus!
