//! The power state of the host and the decisions of its lifecycle: what the
//! main thread does when woken, and how a `core:power` request ends.
use vstd::prelude::*;
use crate::error::ServiceError;

verus! {

/// The current intent of the lifecycle loop.
#[derive(Debug, Clone, Copy, PartialEq, Eq, Structural)]
pub enum PowerState {
    /// Abort a pending delayed power command.
    Cancel,
    /// Tear the host down and start it again.
    Restart,
    /// Normal operation.
    Running,
    /// Leave the lifecycle loop and end the process.
    Shutdown,
}

/// Shutdown or Restart: the host accepts no new service calls.
pub open spec fn is_stopping(s: PowerState) -> bool {
    s == PowerState::Shutdown || s == PowerState::Restart
}

/// What the main thread does after it was woken.
#[derive(Debug, Clone, Copy, PartialEq, Eq, Structural)]
pub enum MainAction {
    /// Leave the loop and drop the host.
    Exit,
    /// Drain the worker pool, rebuild the host and start it again.
    Restart,
    /// Park again.
    Park,
}

/// A command of the `core:power` endpoint.
#[derive(Debug, Clone, Copy, PartialEq, Eq, Structural)]
pub enum PowerCommand {
    Shutdown,
    Restart,
    Cancel,
}

/// The power state a command asks for.
pub open spec fn state_of(c: PowerCommand) -> PowerState {
    match c {
        PowerCommand::Shutdown => PowerState::Shutdown,
        PowerCommand::Restart => PowerState::Restart,
        PowerCommand::Cancel => PowerState::Cancel,
    }
}

impl PowerCommand {
    /// Reads a command word: `shutdown`, `restart` or `cancel`.
    pub fn parse(word: &str) -> (r: Option<PowerCommand>)
        ensures
            r == (if word@ == seq!['s', 'h', 'u', 't', 'd', 'o', 'w', 'n'] {
                Some(PowerCommand::Shutdown)
            } else if word@ == seq!['r', 'e', 's', 't', 'a', 'r', 't'] {
                Some(PowerCommand::Restart)
            } else if word@ == seq!['c', 'a', 'n', 'c', 'e', 'l'] {
                Some(PowerCommand::Cancel)
            } else {
                None
            }),
    {
        let w = word.to_owned();
        let shutdown = String::from_str("shutdown");
        let restart = String::from_str("restart");
        let cancel = String::from_str("cancel");
        proof {
            reveal_strlit("shutdown");
            reveal_strlit("restart");
            reveal_strlit("cancel");
            assert(shutdown@ =~= seq!['s', 'h', 'u', 't', 'd', 'o', 'w', 'n']);
            assert(restart@ =~= seq!['r', 'e', 's', 't', 'a', 'r', 't']);
            assert(cancel@ =~= seq!['c', 'a', 'n', 'c', 'e', 'l']);
        }
        if w == shutdown {
            Some(PowerCommand::Shutdown)
        } else if w == restart {
            Some(PowerCommand::Restart)
        } else if w == cancel {
            Some(PowerCommand::Cancel)
        } else {
            None
        }
    }

    /// The power state this command asks for.
    pub fn target(self) -> (r: PowerState)
        ensures
            r == state_of(self),
    {
        match self {
            PowerCommand::Shutdown => PowerState::Shutdown,
            PowerCommand::Restart => PowerState::Restart,
            PowerCommand::Cancel => PowerState::Cancel,
        }
    }
}

/// The process-wide power state.
pub struct Power {
    state: PowerState,
}

impl View for Power {
    type V = PowerState;

    closed spec fn view(&self) -> PowerState {
        self.state
    }
}

impl Power {
    /// A host that is running.
    pub fn new() -> (r: Power)
        ensures
            r@ == PowerState::Running,
    {
        Power { state: PowerState::Running }
    }

    /// The current state.
    pub fn check_power(&self) -> (r: PowerState)
        ensures
            r == self@,
    {
        self.state
    }

    /// Reads the state and resets it to Running.
    pub fn check_and_reset_power(&mut self) -> (r: PowerState)
        ensures
            r == old(self)@,
            final(self)@ == PowerState::Running,
    {
        let r = self.state;
        self.state = PowerState::Running;
        r
    }

    /// Stores `s`; the result says whether the main thread must be woken,
    /// which is so for Shutdown and Restart only.
    pub fn set_power(&mut self, s: PowerState) -> (wake: bool)
        ensures
            final(self)@ == s,
            wake == is_stopping(s),
    {
        self.state = s;
        s == PowerState::Shutdown || s == PowerState::Restart
    }

    /// The start of a `core:power` request: refused with ShuttingDown once
    /// the host is stopping.
    pub fn begin_power_request(&self) -> (r: Result<(), ServiceError>)
        ensures
            r == (if is_stopping(self@) {
                Err::<(), ServiceError>(ServiceError::ShuttingDown)
            } else {
                Ok(())
            }),
    {
        if self.state == PowerState::Shutdown || self.state == PowerState::Restart {
            Err(ServiceError::ShuttingDown)
        } else {
            Ok(())
        }
    }

    /// The end of a `core:power` request, after its delay: if a cancel came
    /// meanwhile the request is canceled (`true`) and the host keeps
    /// running; otherwise the command's state is stored. The second result
    /// says whether the main thread must be woken.
    pub fn finish_power_request(&mut self, command: PowerCommand) -> (r: (bool, bool))
        ensures
            (r.0, final(self)@) == finish_state(old(self)@, command),
            r.0 == (old(self)@ == PowerState::Cancel),
            r.0 ==> final(self)@ == PowerState::Running && !r.1,
            !r.0 ==> final(self)@ == state_of(command) && r.1 == is_stopping(state_of(command)),
    {
        if self.check_and_reset_power() == PowerState::Cancel {
            return (true, false);
        }
        let wake = self.set_power(command.target());
        (false, wake)
    }
}

/// What the main thread does when woken with power state `s`.
pub fn on_wake(s: PowerState) -> (a: MainAction)
    ensures
        a == (match s {
            PowerState::Shutdown => MainAction::Exit,
            PowerState::Restart => MainAction::Restart,
            _ => MainAction::Park,
        }),
{
    match s {
        PowerState::Shutdown => MainAction::Exit,
        PowerState::Restart => MainAction::Restart,
        PowerState::Cancel | PowerState::Running => MainAction::Park,
    }
}

/// The response text of a `core:power` request.
pub fn power_response(canceled: bool) -> (r: &'static str)
    ensures
        r@ == (if canceled {
            "{\"canceled\":true}"@
        } else {
            "{}"@
        }),
{
    if canceled {
        "{\"canceled\":true}"
    } else {
        "{}"
    }
}

/// The end state of a `core:power` request with command `c` is what
/// `finish_power_request` computes from the state found after the delay.
pub open spec fn finish_state(found: PowerState, c: PowerCommand) -> (bool, PowerState) {
    if found == PowerState::Cancel {
        (true, PowerState::Running)
    } else {
        (false, state_of(c))
    }
}

/// A shutdown requested with a delay, and a cancel that ends within the
/// delay: the cancel leaves the state at Cancel, so the delayed request
/// ends canceled and the host stays Running.
pub proof fn lemma_cancel_window(start: PowerState)
    requires
        start == PowerState::Running,
    ensures
        finish_state(start, PowerCommand::Cancel) == (false, PowerState::Cancel),
        finish_state(finish_state(start, PowerCommand::Cancel).1, PowerCommand::Shutdown) == (
            true,
            PowerState::Running,
        ),
{
}

} // verus!
