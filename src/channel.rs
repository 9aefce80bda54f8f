use vstd::prelude::*;

verus! {

/// What a listener does with a connection it accepted.
#[derive(Debug, Clone, Copy, PartialEq, Eq, Structural)]
pub enum ConnAction {
    /// Write the shared search state to the connection.
    SendState,
    /// Close the connection without writing: the state was already delivered.
    Close,
}

/// The delivery state of one listener: only its first connection gets the shared state.
pub struct Delivery {
    pub delivered: bool,
}

impl Delivery {
    /// A listener that has delivered nothing yet.
    pub fn new() -> (r: Delivery)
        ensures
            !r.delivered,
    {
        Delivery { delivered: false }
    }

    /// The action for a newly accepted connection: the first one gets the state,
    /// every later one is closed.
    pub fn on_connection(&mut self) -> (r: ConnAction)
        ensures
            final(self).delivered,
            r == (if old(self).delivered {
                ConnAction::Close
            } else {
                ConnAction::SendState
            }),
    {
        if self.delivered {
            ConnAction::Close
        } else {
            self.delivered = true;
            ConnAction::SendState
        }
    }
}

} // verus!
