//! What the park is trying to do, and whether it has managed it.
//!
//! One line decides the whole game — get this many people through the entrance at
//! once, by this tick — and the only way to lose it is to run out of money or
//! to run out of time. The outcome is recorded rather than recomputed, because
//! winning is a thing that happens at a moment.

use vstd::prelude::*;
use vstd::string::*;

use crate::park::{Park, Part};
use crate::text::{decimal, decimal_of};

verus! {

/// What a park has been asked to do.
#[derive(Debug, Clone, Copy, PartialEq, Eq, Structural)]
pub struct Objective {
    /// How many guests have to be in the park at once.
    pub guests: usize,
    /// The tick by which they have to be.
    pub by: u64,
}

/// How the objective turned out.
#[derive(Debug, Clone, Copy, PartialEq, Eq, Structural)]
pub enum Outcome {
    /// Still going.
    Pending,
    /// The park managed it.
    Won,
    /// It did not: the money ran out, or the time did.
    Lost,
}

/// What the HUD calls an outcome.
pub open spec fn outcome_name(o: Outcome) -> Seq<char> {
    match o {
        Outcome::Pending => "in progress"@,
        Outcome::Won => "won"@,
        Outcome::Lost => "lost"@,
    }
}

/// Where an objective stands after one more look at the park.
pub open spec fn judged(
    outcome: Outcome,
    goal: Objective,
    guests: usize,
    bankrupt: bool,
    tick: u64,
) -> Outcome {
    if outcome !is Pending {
        outcome
    } else if guests >= goal.guests {
        Outcome::Won
    } else if bankrupt || tick >= goal.by {
        Outcome::Lost
    } else {
        Outcome::Pending
    }
}

impl Objective {
    /// How many guests a new park is asked for.
    pub const GUESTS: usize = 100;

    /// How long it has to get them.
    pub const DEADLINE: u64 = 40_000;

    /// What a new park is asked to do.
    pub fn standard() -> (o: Self)
        ensures
            o.guests == Self::GUESTS,
            o.by == Self::DEADLINE,
    {
        Objective { guests: Self::GUESTS, by: Self::DEADLINE }
    }

    /// What to call it in the HUD.
    pub fn describe(self) -> (s: String)
        ensures
            s@ == decimal_of(self.guests as nat) + " guests by tick "@ + decimal_of(self.by as nat),
    {
        let guests = decimal(self.guests as u64);
        let by = decimal(self.by);
        guests.concat(" guests by tick ").concat(by.as_str())
    }

    /// Checks the objective once, given how many guests are in, whether the
    /// park is bankrupt and what tick it is.
    ///
    /// A decided outcome stays decided. Otherwise enough guests wins it, and
    /// bankruptcy or the deadline loses it: a park the bank has closed is not
    /// going to fill up in the time it has left.
    pub fn judge(self, outcome: Outcome, guests: usize, bankrupt: bool, tick: u64) -> (o: Outcome)
        ensures
            o == judged(outcome, self, guests, bankrupt, tick),
    {
        if outcome.is_decided() {
            return outcome;
        }
        if guests >= self.guests {
            return Outcome::Won;
        }
        if bankrupt || tick >= self.by {
            return Outcome::Lost;
        }
        Outcome::Pending
    }
}

impl Outcome {
    /// Still going.
    pub fn default() -> (o: Self)
        ensures
            o == Outcome::Pending,
    {
        Outcome::Pending
    }

    /// Whether the game is over, either way.
    pub fn is_decided(self) -> (b: bool)
        ensures
            b == !(self is Pending),
    {
        !matches!(self, Outcome::Pending)
    }

    /// What to call it in the HUD.
    pub fn name(self) -> (n: &'static str)
        ensures
            n@ == outcome_name(self),
    {
        match self {
            Outcome::Pending => "in progress",
            Outcome::Won => "won",
            Outcome::Lost => "lost",
        }
    }
}

impl Park {
    /// What the park has been asked to do.
    pub fn objective(&self) -> (o: Objective)
        ensures
            o == self.objective_of(),
    {
        self.objective
    }

    /// Asks the park for something else instead.
    ///
    /// Whatever had been decided is undecided again: a new objective is a new
    /// game, and a park that had already won is now a park with something
    /// else to do.
    pub fn ask_for(&mut self, objective: Objective)
        requires
            old(self).wf(),
        ensures
            final(self).wf(),
            old(self).differs_only_in(&*final(self), set![Part::Goal]),
            final(self).objective_of() == objective,
            final(self).outcome_of() == Outcome::Pending,
    {
        self.objective = objective;
        self.outcome = Outcome::Pending;
    }

    /// How the objective is going.
    pub fn outcome(&self) -> (o: Outcome)
        ensures
            o == self.outcome_of(),
    {
        self.outcome
    }

    /// Checks the objective once, with `guests` in the park.
    ///
    /// Bankruptcy loses at once rather than at the deadline: a park the bank
    /// has closed is not going to fill up in the time it has left.
    pub fn check_the_objective(&mut self, guests: usize)
        requires
            old(self).wf(),
        ensures
            final(self).wf(),
            old(self).differs_only_in(&*final(self), set![Part::Goal]),
            final(self).objective_of() == old(self).objective_of(),
            final(self).outcome_of() == judged(
                old(self).outcome_of(),
                old(self).objective_of(),
                guests,
                old(self).books_of().closed_at() is Some,
                old(self).clock(),
            ),
    {
        let bankrupt = self.books.is_bankrupt();
        self.outcome = self.objective.judge(self.outcome, guests, bankrupt, self.tick);
    }
}

/// Winning sticks: once won, no later look at the park undoes it, however
/// empty it gets or however late it is.
pub proof fn winning_sticks(goal: Objective, guests: usize, bankrupt: bool, tick: u64)
    ensures
        judged(Outcome::Won, goal, guests, bankrupt, tick) == Outcome::Won,
        judged(Outcome::Lost, goal, guests, bankrupt, tick) == Outcome::Lost,
{
}

/// A bankrupt park that has not already won loses at once, whatever the
/// deadline says.
pub proof fn bankruptcy_loses_without_waiting(goal: Objective, guests: usize, tick: u64)
    requires
        guests < goal.guests,
    ensures
        judged(Outcome::Pending, goal, guests, true, tick) == Outcome::Lost,
{
}

} // verus!
