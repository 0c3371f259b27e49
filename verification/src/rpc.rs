use vstd::prelude::*;

verus! {

/// The callback object an agent exposes to the server at registration:
/// the capability that server-initiated operations (a telemetry pull, a
/// remote shell) land on. Those operations are collaborations with the
/// host system and live in the application layer around this crate; the
/// registration protocol needs only this object's existence, presented as
/// a call argument and confined thereafter to its session's execution
/// context.
pub struct ClientRpcImpl;

} // verus!
