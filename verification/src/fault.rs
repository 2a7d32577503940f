//! What can go wrong, and how far each failure reaches.

use vstd::prelude::*;

verus! {

/// A failure the relay can meet.
#[derive(Clone, Copy, PartialEq, Eq, Structural, Debug)]
pub enum Fault {
    /// A record of the input is malformed.
    MalformedRecord,
    /// A peer's handshake failed.
    Handshake,
    /// Reading from a peer's socket failed.
    Read,
    /// Writing to a peer's socket failed.
    Write,
    /// A peer broke the protocol.
    Protocol,
    /// A peer went away.
    Disconnect,
    /// The distribution queue is full.
    QueueFull,
    /// A listening endpoint could not be bound.
    Bind,
}

/// What is done about a failure.
#[derive(Clone, Copy, PartialEq, Eq, Structural, Debug)]
pub enum Recovery {
    /// Skip the record and go on with the next.
    SkipRecord,
    /// End the one connection and release what it held.
    EndConnection,
    /// Do what the queue's policy says: wait, or give up the oldest payload.
    ApplyPolicy,
    /// Give up starting: the service cannot work.
    Abort,
}

/// The recovery that belongs to each failure.
pub open spec fn recovery_of(fault: Fault) -> Recovery {
    match fault {
        Fault::MalformedRecord => Recovery::SkipRecord,
        Fault::Handshake => Recovery::EndConnection,
        Fault::Read => Recovery::EndConnection,
        Fault::Write => Recovery::EndConnection,
        Fault::Protocol => Recovery::EndConnection,
        Fault::Disconnect => Recovery::EndConnection,
        Fault::QueueFull => Recovery::ApplyPolicy,
        Fault::Bind => Recovery::Abort,
    }
}

/// Says what to do about a failure. Bad input costs one record, a failing
/// peer costs its own connection, a full queue is a matter of policy; only
/// a listening endpoint that cannot be bound stops the relay.
pub fn recovery(fault: Fault) -> (recovery: Recovery)
    ensures
        recovery == recovery_of(fault),
{
    match fault {
        Fault::MalformedRecord => Recovery::SkipRecord,
        Fault::Handshake => Recovery::EndConnection,
        Fault::Read => Recovery::EndConnection,
        Fault::Write => Recovery::EndConnection,
        Fault::Protocol => Recovery::EndConnection,
        Fault::Disconnect => Recovery::EndConnection,
        Fault::QueueFull => Recovery::ApplyPolicy,
        Fault::Bind => Recovery::Abort,
    }
}

/// Whether a failure ends the whole relay: only a failed bind does.
pub fn is_fatal(fault: Fault) -> (fatal: bool)
    ensures
        fatal == (fault == Fault::Bind),
        fatal == (recovery_of(fault) == Recovery::Abort),
{
    match fault {
        Fault::Bind => true,
        _ => false,
    }
}

} // verus!
