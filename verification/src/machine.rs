//! The state machine that committed commands are applied to.

use crate::messages::CommandPayload;
use std::fmt::Debug;
use vstd::prelude::*;

verus! {

/// The state machine behind a node.
pub trait StateMachine {
    /// The commands that the state machine understands.
    type Command: Send + Sync + Debug + 'static;

    /// Applies a command. A failure comes with its reason.
    fn apply(&mut self, command: Self::Command) -> (r: Result<(), String>);
}

/// A state machine that accepts every command and does nothing.
#[derive(Debug, Clone)]
pub struct NoopStateMachine;

impl StateMachine for NoopStateMachine {
    type Command = CommandPayload;

    fn apply(&mut self, command: CommandPayload) -> (r: Result<(), String>)
        ensures
            r is Ok,
            *final(self) == *old(self),
    {
        Ok(())
    }
}

} // verus!
