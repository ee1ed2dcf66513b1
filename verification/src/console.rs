//! Severity of a message sent to the host console.

use vstd::prelude::*;

verus! {

/// The two console channels of the host.
#[derive(Clone, Copy, Debug, PartialEq, Eq, Structural)]
pub enum Kind {
    Log,
    Error,
}

impl Kind {
    /// The channel number the host expects.
    pub open spec fn code_of(self) -> int {
        match self {
            Kind::Log => 0,
            Kind::Error => 1,
        }
    }

    /// Channel number handed to the host together with the message bytes:
    /// `0` for the log channel, `1` for the error channel.
    pub fn code(&self) -> (c: i32)
        ensures
            c == self.code_of(),
    {
        match self {
            Kind::Log => 0,
            Kind::Error => 1,
        }
    }
}

} // verus!
