//! The static shape of a story script: batches of prompts, their answers, and the scripted
//! actions and pre-conditions that act on story variables.

use vstd::prelude::*;

verus! {

/// The value of a 64-bit two's complement counter that is assigned the mathematical
/// integer `v`: `v` itself when it fits, else `v` shifted by 2^64 back into range.
pub open spec fn wrap_i64(v: int) -> i64 {
    if v > i64::MAX {
        (v - 0x1_0000_0000_0000_0000) as i64
    } else if v < i64::MIN {
        (v + 0x1_0000_0000_0000_0000) as i64
    } else {
        v as i64
    }
}

/// A function that may be executed on a variable.
#[derive(Clone, Copy, Debug, PartialEq, Eq, Structural)]
pub enum Operation {
    /// Sets the variable to a specific value.
    Assign,
    /// Adds a specific value to the variable.
    Add,
    /// Subtracts a specific value from the variable.
    Sub,
}

impl Operation {
    /// The value that a variable holding `value` holds after this operation with operand
    /// `other`. Addition and subtraction wrap around on overflow.
    pub open spec fn outcome(self, value: i64, other: i64) -> i64 {
        match self {
            Operation::Assign => other,
            Operation::Add => wrap_i64(value + other),
            Operation::Sub => wrap_i64(value - other),
        }
    }

    /// Executes the operation on the provided value.
    pub fn execute(self, value: &mut i64, other: i64)
        ensures
            *final(value) == self.outcome(*old(value), other),
    {
        match self {
            Operation::Assign => *value = other,
            Operation::Add => *value = value.wrapping_add(other),
            Operation::Sub => *value = value.wrapping_sub(other),
        }
    }
}

/// A comparison function.
#[derive(Clone, Copy, Debug, PartialEq, Eq, Structural)]
pub enum Compare {
    /// The variable must equal a specific value.
    Equal,
    /// The variable must not equal a specific value.
    Not,
    /// The variable must be less than a specific value.
    Less,
    /// The variable must be greater than a specific value.
    More,
}

impl Compare {
    /// Whether `value` stands in this relation to `other`, as integers.
    pub open spec fn holds(self, value: i64, other: i64) -> bool {
        match self {
            Compare::Equal => value == other,
            Compare::Not => value != other,
            Compare::Less => value < other,
            Compare::More => value > other,
        }
    }

    /// Determines whether `value` `op` `other`.
    pub fn check(self, value: i64, other: i64) -> (r: bool)
        ensures
            r == self.holds(value, other),
    {
        match self {
            Compare::Equal => value == other,
            Compare::Not => value != other,
            Compare::Less => value < other,
            Compare::More => value > other,
        }
    }
}

/// A pre-condition for a specific [`Prompt`].
#[derive(Clone, Debug)]
pub struct Condition {
    /// The name of the variable that's being checked.
    pub name: String,
    /// The comparison function.
    pub op: Compare,
    /// The value against which the variable is being checked.
    pub value: i64,
}

/// An action that may be taken when the player chooses a specific answer.
#[derive(Clone, Debug)]
pub struct Action {
    /// The name of the variable that'll be modified.
    pub name: String,
    /// The operation that'll be executed.
    pub op: Operation,
    /// The other parameter of the operation.
    pub value: i64,
}

/// A possible answer.
#[derive(Clone, Debug)]
pub struct Answer {
    /// The text of the answer.
    pub text: String,
    /// A collection of actions for this answer, run in order when it is chosen.
    pub actions: Vec<Action>,
}

/// A prompt that may be presented to the player.
#[derive(Clone, Debug)]
pub struct Prompt {
    /// A pre-condition for this prompt. If the condition evaluates to `false`, then this prompt
    /// is skipped. If no condition is specified, the prompt is presented.
    pub pre_condition: Option<Condition>,
    /// The request string that'll be shown to the player.
    pub request: String,
    /// The possible answers for this prompt.
    pub answers: Vec<Answer>,
}

/// A batch of prompts.
#[derive(Clone, Debug)]
pub struct Batch {
    /// Whether the prompts of this [`Batch`] are presented in a random order, or, on the
    /// contrary, in their fixed order.
    pub randomized: bool,
    /// The prompts that are part of this [`Batch`].
    pub prompts: Vec<Prompt>,
}

/// The main story structure: the actions run when the story starts, then its batches.
#[derive(Clone, Debug)]
pub struct Story {
    /// A collection of actions that are taken at the beginning of the game.
    pub actions: Vec<Action>,
    /// The batches that are presented to the player, in order, before the game ends.
    pub batches: Vec<Batch>,
}

} // verus!
