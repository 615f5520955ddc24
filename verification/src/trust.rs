//! A round-based trust game between two agents.
//!
//! Each round, both agents pick a step (cheat or cooperate) simultaneously;
//! the scores are then adjusted and each agent is told what its opponent did.

use vstd::prelude::*;

verus! {

/// A single move in the game.
#[derive(Clone, Copy, Debug, PartialEq, Eq, Structural)]
pub enum Step {
    Cheat,
    Cooperate,
}

impl Default for Step {
    fn default() -> (r: Self)
        ensures
            r == Step::Cheat,
    {
        Step::Cheat
    }
}

/// A strategy. `spec_next_step` is the move the agent is about to make and
/// `spec_after` is its state after it learns the opponent's move; the two
/// executable methods are held to those specifications.
pub trait Agent: Sized {
    spec fn spec_next_step(&self) -> Step;

    spec fn spec_after(&self, step: Step) -> Self;

    fn next_step(&self) -> (r: Step)
        ensures
            r == self.spec_next_step(),
    ;

    fn opponent_step(&mut self, step: Step)
        ensures
            *final(self) == old(self).spec_after(step),
    ;
}

/// How a single round went.
#[derive(Clone, Copy, Debug, PartialEq, Eq, Structural)]
pub enum RoundOutcome {
    BothCooperated,
    LeftCheated,
    RightCheated,
    BothCheated,
}

/// The outcome determined by the two simultaneous moves.
pub open spec fn outcome_of(left: Step, right: Step) -> RoundOutcome {
    if left == Step::Cheat && right == Step::Cheat {
        RoundOutcome::BothCheated
    } else if left == Step::Cheat {
        RoundOutcome::LeftCheated
    } else if right == Step::Cheat {
        RoundOutcome::RightCheated
    } else {
        RoundOutcome::BothCooperated
    }
}

/// The change to the left player's score for an outcome.
pub open spec fn left_delta(outcome: RoundOutcome) -> int {
    match outcome {
        RoundOutcome::BothCooperated => 2,
        RoundOutcome::LeftCheated => 3,
        RoundOutcome::RightCheated => -1,
        RoundOutcome::BothCheated => 0,
    }
}

/// The change to the right player's score for an outcome.
pub open spec fn right_delta(outcome: RoundOutcome) -> int {
    match outcome {
        RoundOutcome::BothCooperated => 2,
        RoundOutcome::LeftCheated => -1,
        RoundOutcome::RightCheated => 3,
        RoundOutcome::BothCheated => 0,
    }
}

/// A running game: two agents and their scores.
pub struct Game<L: Agent, R: Agent> {
    left: L,
    right: R,
    left_score: i32,
    right_score: i32,
}

impl<L: Agent, R: Agent> Game<L, R> {
    pub closed spec fn spec_left(&self) -> L {
        self.left
    }

    pub closed spec fn spec_right(&self) -> R {
        self.right
    }

    pub closed spec fn spec_left_score(&self) -> i32 {
        self.left_score
    }

    pub closed spec fn spec_right_score(&self) -> i32 {
        self.right_score
    }

    pub fn new(left: L, right: R) -> (r: Self)
        ensures
            r.spec_left() == left,
            r.spec_right() == right,
            r.spec_left_score() == 0i32,
            r.spec_right_score() == 0i32,
    {
        Self { left, right, left_score: 0, right_score: 0 }
    }

    pub fn left_score(&self) -> (r: i32)
        ensures
            r == self.spec_left_score(),
    {
        self.left_score
    }

    pub fn right_score(&self) -> (r: i32)
        ensures
            r == self.spec_right_score(),
    {
        self.right_score
    }

    /// Play one round: both agents move at once, scores move by the outcome
    /// table, and each agent is shown the opponent's move.
    pub fn play_round(&mut self) -> (r: RoundOutcome)
        requires
            old(self).spec_left_score() + 3 <= i32::MAX,
            old(self).spec_left_score() - 1 >= i32::MIN,
            old(self).spec_right_score() + 3 <= i32::MAX,
            old(self).spec_right_score() - 1 >= i32::MIN,
        ensures
            ({
                let ls = old(self).spec_left().spec_next_step();
                let rs = old(self).spec_right().spec_next_step();
                &&& r == outcome_of(ls, rs)
                &&& final(self).spec_left() == old(self).spec_left().spec_after(rs)
                &&& final(self).spec_right() == old(self).spec_right().spec_after(ls)
                &&& final(self).spec_left_score() == old(self).spec_left_score() + left_delta(r)
                &&& final(self).spec_right_score() == old(self).spec_right_score() + right_delta(
                    r,
                )
            }),
    {
        let left_step = self.left.next_step();
        let right_step = self.right.next_step();

        let res = if left_step == Step::Cheat && right_step == Step::Cheat {
            RoundOutcome::BothCheated
        } else if left_step == Step::Cheat {
            self.left_score += 3;
            self.right_score -= 1;
            RoundOutcome::LeftCheated
        } else if right_step == Step::Cheat {
            self.right_score += 3;
            self.left_score -= 1;
            RoundOutcome::RightCheated
        } else {
            self.left_score += 2;
            self.right_score += 2;
            RoundOutcome::BothCooperated
        };

        self.left.opponent_step(right_step);
        self.right.opponent_step(left_step);

        res
    }
}

/// Always cheats.
pub struct CheatingAgent {}

impl Default for CheatingAgent {
    fn default() -> (r: Self)
        ensures
            r == (CheatingAgent {  }),
    {
        CheatingAgent {  }
    }
}

impl Agent for CheatingAgent {
    open spec fn spec_next_step(&self) -> Step {
        Step::Cheat
    }

    open spec fn spec_after(&self, step: Step) -> Self {
        *self
    }

    fn next_step(&self) -> Step {
        Step::Cheat
    }

    fn opponent_step(&mut self, step: Step) {
    }
}

/// Always cooperates.
pub struct CooperatingAgent {}

impl Default for CooperatingAgent {
    fn default() -> (r: Self)
        ensures
            r == (CooperatingAgent {  }),
    {
        CooperatingAgent {  }
    }
}

impl Agent for CooperatingAgent {
    open spec fn spec_next_step(&self) -> Step {
        Step::Cooperate
    }

    open spec fn spec_after(&self, step: Step) -> Self {
        *self
    }

    fn next_step(&self) -> Step {
        Step::Cooperate
    }

    fn opponent_step(&mut self, step: Step) {
    }
}

/// Cooperates until the opponent cheats once, then cheats forever.
pub struct GrudgerAgent {
    pub is_cheat: bool,
}

impl Default for GrudgerAgent {
    fn default() -> (r: Self)
        ensures
            r == (GrudgerAgent { is_cheat: false }),
    {
        GrudgerAgent { is_cheat: false }
    }
}

impl Agent for GrudgerAgent {
    open spec fn spec_next_step(&self) -> Step {
        if self.is_cheat {
            Step::Cheat
        } else {
            Step::Cooperate
        }
    }

    open spec fn spec_after(&self, step: Step) -> Self {
        GrudgerAgent { is_cheat: self.is_cheat || step == Step::Cheat }
    }

    fn next_step(&self) -> Step {
        if self.is_cheat {
            return Step::Cheat;
        }
        Step::Cooperate
    }

    fn opponent_step(&mut self, step: Step) {
        match step {
            Step::Cheat => self.is_cheat = true,
            Step::Cooperate => {},
        }
    }
}

/// Cooperates first, then repeats the opponent's previous move.
pub struct CopycatAgent {
    pub last_opponent_step: Step,
    pub is_first: bool,
}

impl Default for CopycatAgent {
    fn default() -> (r: Self)
        ensures
            r == (CopycatAgent { last_opponent_step: Step::Cheat, is_first: true }),
    {
        CopycatAgent { last_opponent_step: Step::Cheat, is_first: true }
    }
}

impl Agent for CopycatAgent {
    open spec fn spec_next_step(&self) -> Step {
        if self.is_first {
            Step::Cooperate
        } else {
            self.last_opponent_step
        }
    }

    open spec fn spec_after(&self, step: Step) -> Self {
        CopycatAgent { last_opponent_step: step, is_first: false }
    }

    fn next_step(&self) -> Step {
        if self.is_first {
            return Step::Cooperate;
        }
        self.last_opponent_step
    }

    fn opponent_step(&mut self, step: Step) {
        if self.is_first {
            self.is_first = false
        }
        self.last_opponent_step = step
    }
}

/// Probes with a fixed opening (cooperate, cheat, cooperate, cooperate); if
/// the opponent never cheated during the opening it cheats from then on,
/// otherwise it plays like a copycat. The round counter saturates, which
/// leaves the strategy unchanged: only counts up to four are distinguished.
pub struct DetectiveAgent {
    pub step_number: i32,
    pub last_opponent_step: Step,
    pub opponent_is_cheat: bool,
}

impl Default for DetectiveAgent {
    fn default() -> (r: Self)
        ensures
            r == (DetectiveAgent {
                step_number: 0i32,
                last_opponent_step: Step::Cheat,
                opponent_is_cheat: false,
            }),
    {
        DetectiveAgent { step_number: 0, last_opponent_step: Step::Cheat, opponent_is_cheat: false }
    }
}

impl Agent for DetectiveAgent {
    open spec fn spec_next_step(&self) -> Step {
        if self.step_number == 0i32 || self.step_number == 2i32 || self.step_number == 3i32 {
            Step::Cooperate
        } else if self.step_number == 1i32 {
            Step::Cheat
        } else if !self.opponent_is_cheat {
            Step::Cheat
        } else {
            self.last_opponent_step
        }
    }

    open spec fn spec_after(&self, step: Step) -> Self {
        DetectiveAgent {
            step_number: if self.step_number < i32::MAX {
                (self.step_number + 1) as i32
            } else {
                self.step_number
            },
            last_opponent_step: step,
            opponent_is_cheat: self.opponent_is_cheat || (self.step_number + 1 <= 4
                && step == Step::Cheat),
        }
    }

    fn next_step(&self) -> Step {
        if matches!(self.step_number, 0 | 2 | 3) {
            return Step::Cooperate;
        }
        if self.step_number == 1 {
            return Step::Cheat;
        }
        if !self.opponent_is_cheat {
            return Step::Cheat;
        }
        self.last_opponent_step
    }

    fn opponent_step(&mut self, step: Step) {
        if self.step_number < i32::MAX {
            self.step_number += 1;
        }
        self.last_opponent_step = step;
        if self.step_number <= 4 {
            match step {
                Step::Cheat => self.opponent_is_cheat = true,
                Step::Cooperate => {},
            }
        }
    }
}

} // verus!
