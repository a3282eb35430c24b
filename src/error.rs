use vstd::prelude::*;

verus! {

/// Failures of the host's operations, as seen by script code.
#[derive(Clone, Copy, Debug, PartialEq, Eq, Structural)]
pub enum Error {
    /// The transport could not open or keep a session.
    Connection,
    /// A session was opened but its handshake failed.
    Handshake,
    /// A resource, instance or slot identifier does not resolve.
    NotFound,
    /// A script fragment failed to compile or run, or its value could not be carried.
    Execution,
    /// A payload could not be encoded or decoded.
    Serialization,
    /// The credential file could not be read, parsed or written.
    Config,
    /// No identifier is left to hand out.
    Exhausted,
}

} // verus!
