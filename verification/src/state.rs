//! Process lifecycle states.

use vstd::prelude::*;

verus! {

/// The lifecycle state of one supervised process.
///
/// A record is `Running` until either an error is recorded or the child is
/// reaped; it is `Terminated` once termination information is present, and
/// `Error` if errors were recorded while no termination information is.
#[derive(Clone, Copy, Debug, PartialEq, Eq, Structural)]
pub enum State {
    Running,
    Error,
    Terminated,
}

/// The state a record is in, as a function of its error list and its
/// termination information alone.
pub open spec fn state_of(n_errors: nat, has_wait_info: bool) -> State {
    if has_wait_info {
        State::Terminated
    } else if n_errors > 0 {
        State::Error
    } else {
        State::Running
    }
}

} // verus!
