//! What the daemon reacts to.

use vstd::prelude::*;

use crate::control::ControlCommand;
use crate::netlink::ProcEvent;
use crate::psi::PressureLevel;
use crate::sched::PowerState;

verus! {

/// One thing for the daemon to react to.
#[derive(Clone, Debug, PartialEq, Eq)]
pub enum Event {
    /// From the kernel's process connector.
    Proc(ProcEvent),
    /// From the control socket.
    Control(ControlCommand),
    /// The level of a fresh pressure reading.
    Pressure(PressureLevel),
    /// The power source.
    Power(PowerState),
    /// Time for a full scan.
    RescanTick,
    /// Time to look for processes that are due for another look.
    RecheckTick,
    /// Time to clean up.
    GcTick,
    /// The rules are to be loaded again.
    ReloadRules,
    /// The daemon is to end.
    Shutdown,
}

pub const SIGHUP: i32 = 1;

pub const SIGINT: i32 = 2;

pub const SIGTERM: i32 = 15;

/// What a signal asks for: a hangup to load the rules again, every other
/// signal that is listened for to end.
pub fn signal_event(signal: i32) -> (r: Event)
    ensures
        r == if signal == SIGHUP {
            Event::ReloadRules
        } else {
            Event::Shutdown
        },
        signal == 1 ==> r == Event::ReloadRules,
        signal == 2 || signal == 15 ==> r == Event::Shutdown,
{
    if signal == SIGHUP {
        Event::ReloadRules
    } else {
        Event::Shutdown
    }
}

} // verus!
