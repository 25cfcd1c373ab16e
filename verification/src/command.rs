//! Commands broadcast to the broker and to the actors.
use vstd::prelude::*;
use vstd::std_specs::cmp::PartialEqSpecImpl;

use crate::ids::ActorId;

verus! {

/// A command on the runtime's command channel.
#[derive(Debug)]
pub enum Command {
    /// Stop the actor with this identifier.
    StopActor(ActorId),
    /// Stop every actor.
    StopRuntime,
    /// Stop the broker.
    StopBroker,
}

/// Commands are equal when they are the same command for actors of the same name.
pub open spec fn same_command(a: Command, b: Command) -> bool {
    match (a, b) {
        (Command::StopActor(x), Command::StopActor(y)) => x@ == y@,
        (Command::StopRuntime, Command::StopRuntime) => true,
        (Command::StopBroker, Command::StopBroker) => true,
        _ => false,
    }
}

impl Clone for Command {
    fn clone(&self) -> (r: Command)
        ensures
            r == *self,
    {
        match self {
            Command::StopActor(id) => Command::StopActor(id.clone()),
            Command::StopRuntime => Command::StopRuntime,
            Command::StopBroker => Command::StopBroker,
        }
    }
}

impl PartialEq for Command {
    fn eq(&self, other: &Command) -> (r: bool) {
        match (self, other) {
            (Command::StopActor(x), Command::StopActor(y)) => *x == *y,
            (Command::StopRuntime, Command::StopRuntime) => true,
            (Command::StopBroker, Command::StopBroker) => true,
            _ => false,
        }
    }
}

impl PartialEqSpecImpl for Command {
    open spec fn obeys_eq_spec() -> bool {
        true
    }

    open spec fn eq_spec(&self, other: &Command) -> bool {
        same_command(*self, *other)
    }
}

impl Eq for Command {}

/// Whether a supervisor waiting for its actors stops waiting on `cmd`: only a
/// stop of the whole runtime ends the wait.
pub fn ends_join(cmd: &Command) -> (r: bool)
    ensures
        r == (*cmd is StopRuntime),
{
    match cmd {
        Command::StopRuntime => true,
        _ => false,
    }
}

} // verus!
