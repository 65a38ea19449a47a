use vstd::prelude::*;

verus! {

/// The state of the session with one peer.
#[derive(PartialEq, Eq, Debug, Clone, Copy, Hash, Structural)]
pub enum State {
    Idle,
    Connect,
    OpenSent,
    OpenConfirm,
    Established,
}

} // verus!
