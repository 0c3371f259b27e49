use vstd::prelude::*;

use crate::errors::RpcError;
use crate::registry::{
    spec_add, spec_disconnect, ActiveClient, ActiveClientView, ClientManager, ManagerView,
};
use crate::system_info::{spec_read_message, SystemInfo, SystemInfoMessage, SystemInfoMessageView, SystemInfoView};

verus! {

/// Mathematical image of a [`ServerRpcImpl`] sink: the handle it is bound
/// to, whether it has detached, and the reports it has processed so far,
/// in the order the agent issued them.
#[verifier::ext_equal]
pub struct ServerRpcView {
    pub client: ActiveClientView,
    pub detached: bool,
    pub processed: Seq<SystemInfoView>,
}

/// What one report call does to the sink: nothing but the disconnected
/// condition once detached; otherwise a decode failure is acknowledged to
/// the caller and leaves the sink as it was, and a good frame is appended
/// to the processed run.
pub open spec fn spec_report(s: ServerRpcView, m: SystemInfoMessageView) -> (ServerRpcView, Result<
    (),
    RpcError,
>) {
    if s.detached {
        (s, Err(RpcError::Disconnected))
    } else {
        match spec_read_message(m) {
            Ok(info) => (ServerRpcView { processed: s.processed.push(info), ..s }, Ok(())),
            Err(e) => (s, Err(e)),
        }
    }
}

/// The per-agent report sink handed back to a newly registered agent: the
/// capability it pushes its periodic telemetry through. Its lifecycle is
/// the two-state machine bound -> detached; detaching is the sole
/// mechanism by which a dead connection is reaped from the registry.
pub struct ServerRpcImpl {
    client: ActiveClient,
    detached: bool,
    processed: Vec<SystemInfo>,
}

impl View for ServerRpcImpl {
    type V = ServerRpcView;

    closed spec fn view(&self) -> ServerRpcView {
        ServerRpcView {
            client: self.client@,
            detached: self.detached,
            processed: self.processed@.map_values(|i: SystemInfo| i@),
        }
    }
}

impl ServerRpcImpl {
    /// A fresh sink, bound to `client`, with nothing processed yet.
    pub fn new(client: ActiveClient) -> (r: Self)
        ensures
            r@.client == client@,
            !r@.detached,
            r@.processed == Seq::<SystemInfoView>::empty(),
    {
        let r = ServerRpcImpl { client, detached: false, processed: Vec::new() };
        proof {
            assert(r@.processed =~= Seq::<SystemInfoView>::empty());
        }
        r
    }

    /// The handle this sink is bound to.
    pub fn client(&self) -> (c: &ActiveClient)
        ensures
            c@ == self@.client,
    {
        &self.client
    }

    /// Whether this sink has reached its terminal state.
    pub fn is_detached(&self) -> (b: bool)
        ensures
            b == self@.detached,
    {
        self.detached
    }

    /// The reports processed so far, in the order the agent issued them.
    pub fn reports(&self) -> (r: &Vec<SystemInfo>)
        ensures
            r@.map_values(|i: SystemInfo| i@) == self@.processed,
    {
        &self.processed
    }

    /// Accept one telemetry push from the agent. A frame that decodes is
    /// processed after everything received before it; a frame that does
    /// not is answered with the decode error and nothing else happens --
    /// one bad report never forfeits the session.
    pub fn report_system_info(&mut self, msg: &SystemInfoMessage) -> (r: Result<(), RpcError>)
        ensures
            final(self)@ == spec_report(old(self)@, msg@).0,
            r == spec_report(old(self)@, msg@).1,
    {
        if self.detached {
            return Err(RpcError::Disconnected);
        }
        match SystemInfo::read_message(msg) {
            Ok(info) => {
                self.processed.push(info);
                proof {
                    assert(self@.processed =~= spec_report(old(self)@, msg@).0.processed);
                }
                Ok(())
            },
            Err(e) => Err(e),
        }
    }

    /// The teardown hook: on the first call -- whether from explicit
    /// close, peer disconnect, or transport failure -- disconnect the
    /// bound handle and become detached; on any later call, a no-op on
    /// this sink's part. Exactly one registry removal happens no matter
    /// how many concurrent observers of the failure call this.
    pub fn detach(&mut self, manager: &mut ClientManager)
        requires
            old(manager)@.wf(),
            old(manager)@.published() < usize::MAX as int,
        ensures
            final(manager)@.wf(),
            final(self)@.detached,
            final(self)@.client == old(self)@.client,
            final(self)@.processed == old(self)@.processed,
            old(self)@.detached ==> final(manager)@ == old(manager)@,
            !old(self)@.detached ==> final(manager)@ == spec_disconnect(
                old(manager)@,
                old(self)@.client.identifier,
            ),
    {
        if !self.detached {
            self.client.disconnect(manager);
            self.detached = true;
        }
    }
}

/// Law: report ordering. For one session issuing two good reports in
/// order, the sink processes the first strictly before the second: the
/// processed run ends with the two decoded records in issue order.
pub proof fn lemma_report_ordering(
    s: ServerRpcView,
    m1: SystemInfoMessageView,
    m2: SystemInfoMessageView,
)
    requires
        !s.detached,
        spec_read_message(m1) is Ok,
        spec_read_message(m2) is Ok,
    ensures
        spec_report(spec_report(s, m1).0, m2).0.processed == s.processed.push(
            spec_read_message(m1)->Ok_0,
        ).push(spec_read_message(m2)->Ok_0),
{
}

/// The single well-known capability the server exposes: agents call it
/// once per connection to register. The sole place a new session handle
/// is created.
pub struct GatewayImpl {
    client_manager: ClientManager,
}

impl GatewayImpl {
    /// A gateway over the given registry.
    pub fn new(client_manager: ClientManager) -> (r: Self)
        ensures
            r.manager() == client_manager,
    {
        GatewayImpl { client_manager }
    }

    /// The registry this gateway registers agents into.
    pub closed spec fn manager(&self) -> ClientManager {
        self.client_manager
    }

    /// Read access to the registry, for snapshots and subscriptions.
    pub fn registry(&self) -> (m: &ClientManager)
        ensures
            m == self.manager(),
    {
        &self.client_manager
    }

    /// Mutable access to the registry: the teardown path of a sink needs
    /// it to carry out the disconnect.
    pub fn registry_mut(&mut self) -> (m: &mut ClientManager)
        ensures
            *m == old(self).manager(),
            final(self).manager() == *final(m),
    {
        &mut self.client_manager
    }

    /// Register an agent: an empty token is rejected before any registry
    /// state is touched; a non-empty token binds a fresh session (last
    /// write wins on token reuse) and hands back the sink, bound to the
    /// fresh handle, that the agent will push its reports through.
    pub fn register_client(&mut self, token: &str, callback: u64) -> (r: Result<
        ServerRpcImpl,
        RpcError,
    >)
        requires
            old(self).manager()@.wf(),
            old(self).manager()@.published() < usize::MAX as int,
        ensures
            final(self).manager()@.wf(),
            token@.len() == 0 ==> {
                &&& r matches Err(e) && e == RpcError::EmptyToken
                &&& final(self).manager() == old(self).manager()
            },
            token@.len() > 0 ==> {
                &&& final(self).manager()@ == spec_add(old(self).manager()@, token@, callback)
                &&& r matches Ok(sink)
                &&& sink@.client == (ActiveClientView {
                    identifier: token@,
                    session: old(self).manager()@.sessions.len(),
                })
                &&& !sink@.detached
                &&& sink@.processed == Seq::<SystemInfoView>::empty()
                &&& sink@.client.in_manager(final(self).manager()@)
            },
    {
        if token.is_empty() {
            return Err(RpcError::EmptyToken);
        }
        let client = self.client_manager.add_client(token, callback);
        Ok(ServerRpcImpl::new(client))
    }
}

} // verus!
