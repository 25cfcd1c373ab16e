use vstd::prelude::*;

use std::time::Duration;

verus! {

/// What the broker does when a subscriber's mailbox is full.
#[derive(Debug, Clone, Copy, PartialEq, Eq, Structural, PartialOrd, Ord, Hash)]
pub enum OverflowPolicy {
    /// Close the subscriber's channel, stopping the actor. The default.
    Fail,
    /// Discard the event for that subscriber and go on.
    Drop,
    /// Wait for space in the subscriber's mailbox.
    Block,
}

impl OverflowPolicy {
    /// Returns `true` for [`Fail`](Self::Fail).
    pub fn is_fail(&self) -> (r: bool)
        ensures
            r == (*self == OverflowPolicy::Fail),
    {
        match self {
            OverflowPolicy::Fail => true,
            _ => false,
        }
    }

    /// Returns `true` for [`Drop`](Self::Drop).
    pub fn is_drop(&self) -> (r: bool)
        ensures
            r == (*self == OverflowPolicy::Drop),
    {
        match self {
            OverflowPolicy::Drop => true,
            _ => false,
        }
    }

    /// Returns `true` for [`Block`](Self::Block).
    pub fn is_block(&self) -> (r: bool)
        ensures
            r == (*self == OverflowPolicy::Block),
    {
        match self {
            OverflowPolicy::Block => true,
            _ => false,
        }
    }

    /// The policy's name: `Fail`, `Drop` or `Block`.
    pub fn name(&self) -> (r: &'static str)
        ensures
            r@ == overflow_policy_name(*self),
    {
        match self {
            OverflowPolicy::Fail => {
                proof {
                    reveal_strlit("Fail");
                }
                "Fail"
            },
            OverflowPolicy::Drop => {
                proof {
                    reveal_strlit("Drop");
                }
                "Drop"
            },
            OverflowPolicy::Block => {
                proof {
                    reveal_strlit("Block");
                }
                "Block"
            },
        }
    }
}

/// The name of each policy.
pub open spec fn overflow_policy_name(p: OverflowPolicy) -> Seq<char> {
    match p {
        OverflowPolicy::Fail => seq!['F', 'a', 'i', 'l'],
        OverflowPolicy::Drop => seq!['D', 'r', 'o', 'p'],
        OverflowPolicy::Block => seq!['B', 'l', 'o', 'c', 'k'],
    }
}

impl Default for OverflowPolicy {
    fn default() -> (r: OverflowPolicy)
        ensures
            r == OverflowPolicy::Fail,
    {
        OverflowPolicy::Fail
    }
}

/// Action returned by an actor's `step` to influence when it runs again.
#[derive(Debug, Clone, Copy, PartialEq, Eq, Hash)]
pub enum StepAction {
    /// Run `step` again immediately.
    Continue,
    /// Yield to the runtime, then run `step` again.
    Yield,
    /// Pause `step` until the next event arrives.
    AwaitEvent,
    /// Sleep for the given duration before running `step` again.
    Backoff(Duration),
    /// Disable `step` permanently. The default.
    Never,
}

impl Default for StepAction {
    fn default() -> (r: StepAction)
        ensures
            r == StepAction::Never,
    {
        StepAction::Never
    }
}

impl StepAction {
    /// The action's name: `Continue`, `Yield`, `AwaitEvent`, `Backoff` or `Never`.
    pub fn name(&self) -> (r: &'static str)
        ensures
            r@ == step_action_name(*self),
    {
        match self {
            StepAction::Continue => {
                proof {
                    reveal_strlit("Continue");
                }
                "Continue"
            },
            StepAction::Yield => {
                proof {
                    reveal_strlit("Yield");
                }
                "Yield"
            },
            StepAction::AwaitEvent => {
                proof {
                    reveal_strlit("AwaitEvent");
                }
                "AwaitEvent"
            },
            StepAction::Backoff(_) => {
                proof {
                    reveal_strlit("Backoff");
                }
                "Backoff"
            },
            StepAction::Never => {
                proof {
                    reveal_strlit("Never");
                }
                "Never"
            },
        }
    }
}

/// The name of each step action.
pub open spec fn step_action_name(a: StepAction) -> Seq<char> {
    match a {
        StepAction::Continue => seq!['C', 'o', 'n', 't', 'i', 'n', 'u', 'e'],
        StepAction::Yield => seq!['Y', 'i', 'e', 'l', 'd'],
        StepAction::AwaitEvent => seq!['A', 'w', 'a', 'i', 't', 'E', 'v', 'e', 'n', 't'],
        StepAction::Backoff(_) => seq!['B', 'a', 'c', 'k', 'o', 'f', 'f'],
        StepAction::Never => seq!['N', 'e', 'v', 'e', 'r'],
    }
}

} // verus!
