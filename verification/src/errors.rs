use vstd::prelude::*;

verus! {

/// Names one text field of a telemetry frame.
#[derive(Clone, Copy, PartialEq, Eq, Structural, Debug)]
pub enum InfoField {
    ClientId,
    Hostname,
    OsType,
    OsVersion,
    OsArch,
    TimeZone,
    UserName,
}

/// Errors surfaced by the RPC-facing operations of this crate.
#[derive(Clone, Copy, PartialEq, Eq, Structural, Debug)]
pub enum RpcError {
    /// The session's callback capability has been cleared: the peer is gone.
    /// An expected, recoverable condition, never a programming error.
    Disconnected,
    /// A registration arrived with an empty token; it is rejected before
    /// any registry state is touched.
    EmptyToken,
    /// A telemetry frame was missing the named field, or the field could
    /// not be read. Local to the one report; the session survives.
    MissingField(InfoField),
}

} // verus!
