use vstd::prelude::*;
use vstd::pervasive::VecAdditionalExecFns;

use crate::errors::RpcError;

verus! {

/// How many feed snapshots are retained for slow subscribers before the
/// oldest is dropped.
pub const FEED_CAPACITY: usize = 1024;

// ---------------------------------------------------------------------------
// Mathematical model
// ---------------------------------------------------------------------------

/// Mathematical image of one session record: the identifier the session
/// registered under, and its callback slot. The slot holds the handle of
/// the confined callback capability while the session is live, and is
/// cleared (never refilled) on disconnect.
#[verifier::ext_equal]
pub struct SessionView {
    pub identifier: Seq<char>,
    pub callback: Option<u64>,
}

/// Mathematical image of an [`ActiveClient`] handle.
#[verifier::ext_equal]
pub struct ActiveClientView {
    pub identifier: Seq<char>,
    pub session: nat,
}

impl ActiveClientView {
    /// The handle denotes a session of `m`'s slab.
    pub open spec fn in_manager(self, m: ManagerView) -> bool {
        &&& self.session < m.sessions.len()
        &&& m.sessions[self.session as int].identifier == self.identifier
    }
}

/// Mathematical image of a [`ClientManager`]: the slab of session records
/// ever created, the registry (the live identifier -> session bindings, in
/// registration order), and the feed of published snapshots.
#[verifier::ext_equal]
pub struct ManagerView {
    pub sessions: Seq<SessionView>,
    pub entries: Seq<ActiveClientView>,
    pub log: Seq<Seq<ActiveClientView>>,
    pub dropped: nat,
    pub cap: nat,
}

/// Some registry entry carries `id`.
pub open spec fn has_id(s: Seq<ActiveClientView>, id: Seq<char>) -> bool {
    exists|i: int| 0 <= i < s.len() && s[i].identifier == id
}

/// The position of the entry carrying `id` (meaningful when identifiers
/// are unique and `has_id` holds).
pub open spec fn index_of(s: Seq<ActiveClientView>, id: Seq<char>) -> int {
    choose|i: int| 0 <= i < s.len() && s[i].identifier == id
}

/// No two registry entries share an identifier.
pub open spec fn unique_ids(s: Seq<ActiveClientView>) -> bool {
    forall|i: int, j: int| 0 <= i < j < s.len() ==> s[i].identifier != s[j].identifier
}

/// How many registry entries carry `id`.
pub open spec fn count_id(s: Seq<ActiveClientView>, id: Seq<char>) -> nat
    decreases s.len(),
{
    if s.len() == 0 {
        0
    } else {
        count_id(s.drop_last(), id) + (if s.last().identifier == id {
            1nat
        } else {
            0nat
        })
    }
}

impl ManagerView {
    /// Sequence number of the next snapshot to be published; equally, how
    /// many snapshots have been published so far.
    pub open spec fn published(self) -> int {
        self.dropped + self.log.len() as int
    }

    /// The registry's invariant: identifiers are unique; every entry
    /// points at a session of the slab that carries the same identifier
    /// and is still live; the feed buffer respects its bound.
    pub open spec fn wf(self) -> bool {
        &&& unique_ids(self.entries)
        &&& forall|i: int|
            0 <= i < self.entries.len() ==> {
                let e = #[trigger] self.entries[i];
                &&& e.session < self.sessions.len()
                &&& self.sessions[e.session as int].identifier == e.identifier
                &&& self.sessions[e.session as int].callback is Some
            }
        &&& self.cap >= 1
        &&& self.log.len() <= self.cap
        &&& self.published() <= usize::MAX as int
    }

    /// Publish the current registry content as the newest feed snapshot,
    /// evicting the oldest snapshot when the buffer is full.
    pub open spec fn publish(self) -> ManagerView {
        if self.log.len() >= self.cap {
            ManagerView {
                log: self.log.drop_first().push(self.entries),
                dropped: self.dropped + 1,
                ..self
            }
        } else {
            ManagerView { log: self.log.push(self.entries), ..self }
        }
    }
}

/// Registration transition: mint a fresh live session, bind `id` to it --
/// replacing any previous binding for the same identifier, which keeps the
/// replaced session's record untouched in the slab -- then publish.
pub open spec fn spec_add(m: ManagerView, id: Seq<char>, callback: u64) -> ManagerView {
    let c = ActiveClientView { identifier: id, session: m.sessions.len() };
    let sessions = m.sessions.push(SessionView { identifier: id, callback: Some(callback) });
    let entries = if has_id(m.entries, id) {
        m.entries.update(index_of(m.entries, id), c)
    } else {
        m.entries.push(c)
    };
    (ManagerView { sessions, entries, ..m }).publish()
}

/// Disconnect transition: if `id` is bound, clear the bound session's
/// callback and drop the binding; a snapshot is published either way.
pub open spec fn spec_disconnect(m: ManagerView, id: Seq<char>) -> ManagerView {
    if has_id(m.entries, id) {
        let i = index_of(m.entries, id);
        let e = m.entries[i];
        let sessions = m.sessions.update(
            e.session as int,
            SessionView { identifier: e.identifier, callback: None },
        );
        let entries = m.entries.remove(i);
        (ManagerView { sessions, entries, ..m }).publish()
    } else {
        m.publish()
    }
}

/// The fail-soft invocation rule: the live callback slot, or the
/// disconnected condition once the slot has been cleared.
pub open spec fn spec_with_client(c: ActiveClientView, m: ManagerView) -> Result<u64, RpcError> {
    match m.sessions[c.session as int].callback {
        Some(cb) => Ok(cb),
        None => Err(RpcError::Disconnected),
    }
}

// ---------------------------------------------------------------------------
// Preservation lemmas
// ---------------------------------------------------------------------------

/// With unique identifiers, `index_of` lands on the one entry that is
/// known to carry `id`.
pub proof fn lemma_index_of_unique(s: Seq<ActiveClientView>, id: Seq<char>, i: int)
    requires
        unique_ids(s),
        0 <= i < s.len(),
        s[i].identifier == id,
    ensures
        has_id(s, id),
        index_of(s, id) == i,
{
    assert(has_id(s, id));
    let k = index_of(s, id);
    assert(0 <= k < s.len() && s[k].identifier == id);
    if k != i {
        if k < i {
            assert(s[k].identifier != s[i].identifier);
        } else {
            assert(s[i].identifier != s[k].identifier);
        }
    }
}

/// Publishing touches only the feed, and keeps the invariant.
proof fn lemma_publish_preserves_wf(m: ManagerView)
    requires
        unique_ids(m.entries),
        forall|i: int|
            0 <= i < m.entries.len() ==> {
                let e = #[trigger] m.entries[i];
                &&& e.session < m.sessions.len()
                &&& m.sessions[e.session as int].identifier == e.identifier
                &&& m.sessions[e.session as int].callback is Some
            },
        m.cap >= 1,
        m.log.len() <= m.cap,
        m.published() < usize::MAX as int,
    ensures
        m.publish().wf(),
        m.publish().entries == m.entries,
        m.publish().sessions == m.sessions,
        m.publish().published() == m.published() + 1,
{
}

/// Registration keeps the registry invariant.
pub proof fn lemma_add_preserves_wf(m: ManagerView, id: Seq<char>, callback: u64)
    requires
        m.wf(),
        m.published() < usize::MAX as int,
    ensures
        spec_add(m, id, callback).wf(),
        spec_add(m, id, callback).published() == m.published() + 1,
{
    let c = ActiveClientView { identifier: id, session: m.sessions.len() };
    let sessions = m.sessions.push(SessionView { identifier: id, callback: Some(callback) });
    let entries = if has_id(m.entries, id) {
        m.entries.update(index_of(m.entries, id), c)
    } else {
        m.entries.push(c)
    };
    let mid = ManagerView { sessions, entries, ..m };
    assert(unique_ids(entries)) by {
        if has_id(m.entries, id) {
            let t = index_of(m.entries, id);
            assert(0 <= t < m.entries.len() && m.entries[t].identifier == id);
            assert forall|i: int, j: int| 0 <= i < j < entries.len() implies entries[i].identifier
                != entries[j].identifier by {
                assert(m.entries[i].identifier != m.entries[j].identifier);
            }
        } else {
            assert forall|i: int, j: int| 0 <= i < j < entries.len() implies entries[i].identifier
                != entries[j].identifier by {
                if j < m.entries.len() {
                    assert(m.entries[i].identifier != m.entries[j].identifier);
                } else {
                    assert(!(0 <= i < m.entries.len() && m.entries[i].identifier == id));
                }
            }
        }
    }
    assert(forall|i: int|
        0 <= i < mid.entries.len() ==> {
            let e = #[trigger] mid.entries[i];
            &&& e.session < mid.sessions.len()
            &&& mid.sessions[e.session as int].identifier == e.identifier
            &&& mid.sessions[e.session as int].callback is Some
        });
    lemma_publish_preserves_wf(mid);
}

/// Disconnecting keeps the registry invariant.
pub proof fn lemma_disconnect_preserves_wf(m: ManagerView, id: Seq<char>)
    requires
        m.wf(),
        m.published() < usize::MAX as int,
    ensures
        spec_disconnect(m, id).wf(),
        spec_disconnect(m, id).published() == m.published() + 1,
{
    if has_id(m.entries, id) {
        let t = index_of(m.entries, id);
        assert(0 <= t < m.entries.len() && m.entries[t].identifier == id);
        let e = m.entries[t];
        let sessions = m.sessions.update(
            e.session as int,
            SessionView { identifier: e.identifier, callback: None },
        );
        let entries = m.entries.remove(t);
        let mid = ManagerView { sessions, entries, ..m };
        assert(unique_ids(entries)) by {
            assert forall|i: int, j: int| 0 <= i < j < entries.len() implies entries[i].identifier
                != entries[j].identifier by {
                let i0 = if i < t { i } else { i + 1 };
                let j0 = if j < t { j } else { j + 1 };
                assert(entries[i] == m.entries[i0]);
                assert(entries[j] == m.entries[j0]);
                assert(m.entries[i0].identifier != m.entries[j0].identifier);
            }
        }
        assert forall|i: int| 0 <= i < mid.entries.len() implies {
            let x = #[trigger] mid.entries[i];
            &&& x.session < mid.sessions.len()
            &&& mid.sessions[x.session as int].identifier == x.identifier
            &&& mid.sessions[x.session as int].callback is Some
        } by {
            let i0 = if i < t { i } else { i + 1 };
            assert(mid.entries[i] == m.entries[i0]);
            let x = m.entries[i0];
            assert(x.session < m.sessions.len());
            if x.session == e.session {
                // two distinct entries would share the slab identifier,
                // contradicting uniqueness
                assert(m.sessions[x.session as int].identifier == x.identifier);
                assert(m.sessions[e.session as int].identifier == e.identifier);
                if i0 < t {
                    assert(m.entries[i0].identifier != m.entries[t].identifier);
                } else {
                    assert(m.entries[t].identifier != m.entries[i0].identifier);
                }
                assert(false);
            }
        }
        lemma_publish_preserves_wf(mid);
    } else {
        lemma_publish_preserves_wf(m);
    }
}

// ---------------------------------------------------------------------------
// Laws of the registry
// ---------------------------------------------------------------------------

/// With unique identifiers, an entry count is decided by membership alone.
proof fn lemma_count_unique(s: Seq<ActiveClientView>, id: Seq<char>)
    requires
        unique_ids(s),
    ensures
        count_id(s, id) == if has_id(s, id) {
            1nat
        } else {
            0nat
        },
    decreases s.len(),
{
    if s.len() > 0 {
        let s0 = s.drop_last();
        lemma_count_unique(s0, id);
        if s.last().identifier == id {
            assert(!has_id(s0, id)) by {
                if has_id(s0, id) {
                    let k = choose|k: int| 0 <= k < s0.len() && s0[k].identifier == id;
                    assert(s[k].identifier != s[s.len() - 1].identifier);
                }
            }
            assert(has_id(s, id)) by {
                assert(s[s.len() - 1].identifier == id);
            }
        } else {
            if has_id(s, id) {
                let k = choose|k: int| 0 <= k < s.len() && s[k].identifier == id;
                assert(k < s.len() - 1);
                assert(s0[k].identifier == id);
                assert(has_id(s0, id));
            }
            if has_id(s0, id) {
                let k = choose|k: int| 0 <= k < s0.len() && s0[k].identifier == id;
                assert(s[k].identifier == id);
                assert(has_id(s, id));
            }
        }
    }
}

/// Registration leaves the registered identifier bound.
pub proof fn lemma_add_binds(m: ManagerView, id: Seq<char>, callback: u64)
    requires
        m.wf(),
    ensures
        has_id(spec_add(m, id, callback).entries, id),
{
    let m1 = spec_add(m, id, callback);
    if has_id(m.entries, id) {
        let t = index_of(m.entries, id);
        assert(0 <= t < m.entries.len() && m.entries[t].identifier == id);
        assert(m1.entries[t].identifier == id);
    } else {
        assert(m1.entries[m.entries.len() as int].identifier == id);
    }
}

/// Law: registration creates exactly one registry entry. After a
/// registration the registered token occurs exactly once, and a second
/// registration with the same token replaces that entry rather than
/// duplicating it: the count stays one.
pub proof fn lemma_register_exactly_once(m: ManagerView, id: Seq<char>, cb1: u64, cb2: u64)
    requires
        m.wf(),
        m.published() + 2 <= usize::MAX as int,
    ensures
        count_id(spec_add(m, id, cb1).entries, id) == 1,
        count_id(spec_add(spec_add(m, id, cb1), id, cb2).entries, id) == 1,
{
    lemma_add_preserves_wf(m, id, cb1);
    lemma_add_binds(m, id, cb1);
    let m1 = spec_add(m, id, cb1);
    lemma_count_unique(m1.entries, id);
    lemma_add_preserves_wf(m1, id, cb2);
    lemma_add_binds(m1, id, cb2);
    let m2 = spec_add(m1, id, cb2);
    lemma_count_unique(m2.entries, id);
}

/// Law: disconnect is idempotent. One disconnect removes the identifier's
/// entry; a repeat disconnect finds nothing bound and leaves the registry
/// content exactly as the first left it.
pub proof fn lemma_disconnect_idempotent(m: ManagerView, id: Seq<char>)
    requires
        m.wf(),
    ensures
        !has_id(spec_disconnect(m, id).entries, id),
        spec_disconnect(spec_disconnect(m, id), id).entries == spec_disconnect(m, id).entries,
{
    let m1 = spec_disconnect(m, id);
    assert(!has_id(m1.entries, id)) by {
        if has_id(m.entries, id) {
            let t = index_of(m.entries, id);
            assert(0 <= t < m.entries.len() && m.entries[t].identifier == id);
            if has_id(m1.entries, id) {
                let k = choose|k: int| 0 <= k < m1.entries.len() && m1.entries[k].identifier == id;
                let k0 = if k < t {
                    k
                } else {
                    k + 1
                };
                assert(m1.entries[k] == m.entries[k0]);
                if k0 < t {
                    assert(m.entries[k0].identifier != m.entries[t].identifier);
                } else {
                    assert(m.entries[t].identifier != m.entries[k0].identifier);
                }
            }
        } else {
            assert(m1.entries == m.entries);
        }
    }
}

/// Law: no dangling invocation. For the handle currently bound to its
/// identifier, a disconnect clears that very session, so any later
/// invocation through the handle meets the disconnected condition.
pub proof fn lemma_no_dangling_invocation(m: ManagerView, c: ActiveClientView)
    requires
        m.wf(),
        has_id(m.entries, c.identifier),
        m.entries[index_of(m.entries, c.identifier)] == c,
    ensures
        spec_with_client(c, spec_disconnect(m, c.identifier)) == Err::<u64, RpcError>(
            RpcError::Disconnected,
        ),
{
    let t = index_of(m.entries, c.identifier);
    assert(0 <= t < m.entries.len() && m.entries[t].identifier == c.identifier);
    let m1 = spec_disconnect(m, c.identifier);
    assert(m1.sessions[c.session as int].callback is None);
}

// ---------------------------------------------------------------------------
// The feed law
// ---------------------------------------------------------------------------

/// One registry mutation, as the feed records it.
pub enum RegistryOp {
    Register { identifier: Seq<char>, callback: u64 },
    Disconnect { identifier: Seq<char> },
}

/// The transition a mutation performs.
pub open spec fn apply_op(m: ManagerView, op: RegistryOp) -> ManagerView {
    match op {
        RegistryOp::Register { identifier, callback } => spec_add(m, identifier, callback),
        RegistryOp::Disconnect { identifier } => spec_disconnect(m, identifier),
    }
}

/// The state after a whole run of mutations, in order.
pub open spec fn apply_ops(m: ManagerView, ops: Seq<RegistryOp>) -> ManagerView
    decreases ops.len(),
{
    if ops.len() == 0 {
        m
    } else {
        apply_op(apply_ops(m, ops.drop_last()), ops.last())
    }
}

/// The registry content right after each mutation of `ops`, in order:
/// what a snapshot taken immediately after that mutation shows.
pub open spec fn snapshots_of(m: ManagerView, ops: Seq<RegistryOp>) -> Seq<Seq<ActiveClientView>>
    decreases ops.len(),
{
    if ops.len() == 0 {
        Seq::empty()
    } else {
        snapshots_of(m, ops.drop_last()).push(apply_ops(m, ops).entries)
    }
}

proof fn lemma_snapshots_len(m: ManagerView, ops: Seq<RegistryOp>)
    ensures
        snapshots_of(m, ops).len() == ops.len(),
    decreases ops.len(),
{
    if ops.len() > 0 {
        lemma_snapshots_len(m, ops.drop_last());
    }
}

/// Law, single-mutation half of snapshot/feed consistency: one mutation
/// publishes exactly one snapshot, that snapshot is the registry content
/// the mutation left behind, and every retained older snapshot keeps its
/// sequence number (its position shifts only by what eviction dropped).
pub proof fn lemma_apply_op_feed(m: ManagerView, op: RegistryOp)
    requires
        m.wf(),
        m.published() < usize::MAX as int,
    ensures
        ({
            let m2 = apply_op(m, op);
            &&& m2.wf()
            &&& m2.cap == m.cap
            &&& m2.published() == m.published() + 1
            &&& m.dropped <= m2.dropped
            &&& m2.log.len() >= 1
            &&& m2.log.last() == m2.entries
            &&& forall|j: int|
                0 <= j < m.published() - m2.dropped ==> #[trigger] m2.log[j] == m.log[j + m2.dropped - m.dropped]
        }),
{
    match op {
        RegistryOp::Register { identifier, callback } => {
            lemma_add_preserves_wf(m, identifier, callback);
        },
        RegistryOp::Disconnect { identifier } => {
            lemma_disconnect_preserves_wf(m, identifier);
        },
    }
    let m2 = apply_op(m, op);
    assert forall|j: int| 0 <= j < m.published() - m2.dropped implies #[trigger] m2.log[j] == m.log[j + m2.dropped - m.dropped] by {
        if m.log.len() >= m.cap {
            assert(m2.log[j] == m.log.drop_first()[j]);
        }
    }
}

/// The state after a run of mutations is well formed, and the feed has
/// published one snapshot per mutation.
pub proof fn lemma_apply_ops_wf(m: ManagerView, ops: Seq<RegistryOp>)
    requires
        m.wf(),
        m.published() + ops.len() <= usize::MAX as int,
    ensures
        apply_ops(m, ops).wf(),
        apply_ops(m, ops).published() == m.published() + ops.len(),
        apply_ops(m, ops).cap == m.cap,
        m.dropped <= apply_ops(m, ops).dropped,
    decreases ops.len(),
{
    if ops.len() > 0 {
        lemma_apply_ops_wf(m, ops.drop_last());
        lemma_apply_op_feed(apply_ops(m, ops.drop_last()), ops.last());
    }
}

/// Law: snapshot/feed consistency. For any run of mutations, the feed
/// value published for the `k`-th mutation -- still retained whenever the
/// subscriber has not fallen behind the buffer -- is exactly the registry
/// content right after that mutation: what `clients()` taken at that
/// instant shows. No transition is missed or reordered.
pub proof fn lemma_feed_matches_snapshots(m: ManagerView, ops: Seq<RegistryOp>, k: int)
    requires
        m.wf(),
        m.published() + ops.len() <= usize::MAX as int,
        0 <= k < ops.len(),
        m.published() + k >= apply_ops(m, ops).dropped,
    ensures
        apply_ops(m, ops).log[m.published() + k - apply_ops(m, ops).dropped] == snapshots_of(
            m,
            ops,
        )[k],
        snapshots_of(m, ops)[k] == apply_ops(m, ops.take(k + 1)).entries,
    decreases ops.len(),
{
    let pre = ops.drop_last();
    let mp = apply_ops(m, pre);
    let m2 = apply_ops(m, ops);
    lemma_apply_ops_wf(m, pre);
    lemma_apply_op_feed(mp, ops.last());
    lemma_snapshots_len(m, pre);
    if k == ops.len() - 1 {
        assert(m2.log.last() == m2.entries);
        assert(snapshots_of(m, ops)[k] == m2.entries);
        assert(ops.take(k + 1) =~= ops);
    } else {
        lemma_feed_matches_snapshots(m, pre, k);
        assert(snapshots_of(m, ops)[k] == snapshots_of(m, pre)[k]);
        assert(pre.take(k + 1) =~= ops.take(k + 1));
    }
}

/// Law: once a session's callback slot is cleared, no later mutation
/// revives it -- a disconnected handle stays disconnected under any
/// subsequent run of registrations and disconnects.
pub proof fn lemma_cleared_stays_cleared(m: ManagerView, ops: Seq<RegistryOp>, sid: int)
    requires
        m.wf(),
        m.published() + ops.len() <= usize::MAX as int,
        0 <= sid < m.sessions.len(),
        m.sessions[sid].callback is None,
    ensures
        sid < apply_ops(m, ops).sessions.len(),
        apply_ops(m, ops).sessions[sid].callback is None,
    decreases ops.len(),
{
    if ops.len() > 0 {
        let pre = ops.drop_last();
        lemma_cleared_stays_cleared(m, pre, sid);
        lemma_apply_ops_wf(m, pre);
        let mp = apply_ops(m, pre);
        match ops.last() {
            RegistryOp::Register { identifier, callback } => {
                assert(apply_ops(m, ops).sessions[sid] == mp.sessions[sid]);
            },
            RegistryOp::Disconnect { identifier } => {
                if has_id(mp.entries, identifier) {
                    let t = index_of(mp.entries, identifier);
                    assert(0 <= t < mp.entries.len() && mp.entries[t].identifier == identifier);
                    let e = mp.entries[t];
                    if e.session == sid {
                        // that session was live, ours is cleared: different slots
                        assert(mp.sessions[sid].callback is Some);
                        assert(false);
                    } else {
                        assert(apply_ops(m, ops).sessions[sid] == mp.sessions[sid]);
                    }
                }
            },
        }
    }
}

/// The mutation is a registration of `id`.
pub open spec fn registers_id(op: RegistryOp, id: Seq<char>) -> bool {
    match op {
        RegistryOp::Register { identifier, callback } => identifier == id,
        RegistryOp::Disconnect { identifier } => false,
    }
}

/// Law: an agent that is gone stays gone. Once its identifier is unbound,
/// no run of mutations that never re-registers that identifier brings it
/// back: every subsequent snapshot omits it.
pub proof fn lemma_gone_stays_gone(m: ManagerView, ops: Seq<RegistryOp>, id: Seq<char>)
    requires
        !has_id(m.entries, id),
        forall|i: int| 0 <= i < ops.len() ==> !registers_id(#[trigger] ops[i], id),
    ensures
        !has_id(apply_ops(m, ops).entries, id),
    decreases ops.len(),
{
    if ops.len() > 0 {
        let pre = ops.drop_last();
        lemma_gone_stays_gone(m, pre, id);
        let mp = apply_ops(m, pre);
        let e2 = apply_ops(m, ops).entries;
        assert(!registers_id(ops[ops.len() - 1], id));
        match ops.last() {
            RegistryOp::Register { identifier, callback } => {
                let c = ActiveClientView { identifier, session: mp.sessions.len() };
                if has_id(e2, id) {
                    let k = choose|k: int| 0 <= k < e2.len() && e2[k].identifier == id;
                    if has_id(mp.entries, identifier) {
                        let t = index_of(mp.entries, identifier);
                        assert(0 <= t < mp.entries.len());
                        if k == t {
                            assert(e2[k] == c);
                        } else {
                            assert(e2[k] == mp.entries[k]);
                            assert(has_id(mp.entries, id));
                        }
                    } else {
                        if k < mp.entries.len() {
                            assert(e2[k] == mp.entries[k]);
                            assert(has_id(mp.entries, id));
                        } else {
                            assert(e2[k] == c);
                        }
                    }
                    assert(false);
                }
            },
            RegistryOp::Disconnect { identifier } => {
                if has_id(mp.entries, identifier) {
                    let t = index_of(mp.entries, identifier);
                    assert(0 <= t < mp.entries.len());
                    if has_id(e2, id) {
                        let k = choose|k: int| 0 <= k < e2.len() && e2[k].identifier == id;
                        let k0 = if k < t {
                            k
                        } else {
                            k + 1
                        };
                        assert(e2[k] == mp.entries[k0]);
                        assert(has_id(mp.entries, id));
                        assert(false);
                    }
                } else {
                    assert(e2 == mp.entries);
                }
            },
        }
    }
}

// ---------------------------------------------------------------------------
// Executable structures
// ---------------------------------------------------------------------------

/// One session record of the slab.
struct Session {
    identifier: String,
    callback: Option<u64>,
}

impl View for Session {
    type V = SessionView;

    closed spec fn view(&self) -> SessionView {
        SessionView { identifier: self.identifier@, callback: self.callback }
    }
}

/// A shared handle to one connected agent's session. It never exposes the
/// callback itself: [`ActiveClient::with_client`] is the only sanctioned
/// access, and it fails soft once the session is gone.
pub struct ActiveClient {
    identifier: String,
    session: usize,
}

impl View for ActiveClient {
    type V = ActiveClientView;

    closed spec fn view(&self) -> ActiveClientView {
        ActiveClientView { identifier: self.identifier@, session: self.session as nat }
    }
}

impl Clone for ActiveClient {
    fn clone(&self) -> (r: Self)
        ensures
            r == *self,
    {
        ActiveClient { identifier: self.identifier.clone(), session: self.session }
    }
}

impl ActiveClient {
    /// The handle denotes a session of `m`'s slab.
    pub open spec fn in_manager(self, m: ManagerView) -> bool {
        self@.in_manager(m)
    }

    /// The agent's identifier.
    pub fn identifier(&self) -> (r: String)
        ensures
            r@ == self@.identifier,
    {
        self.identifier.clone()
    }

    /// The sole sanctioned way to reach this agent's callback: under a
    /// guarded read of the session record, hand back the live callback
    /// slot -- the caller posts the invocation onto the session's own
    /// execution context -- or fail with the disconnected condition once
    /// the slot has been cleared. Never hangs, never panics.
    pub fn with_client(&self, manager: &ClientManager) -> (r: Result<u64, RpcError>)
        requires
            self.in_manager(manager@),
        ensures
            r == spec_with_client(self@, manager@),
    {
        match manager.sessions[self.session].callback {
            Some(cb) => Ok(cb),
            None => Err(RpcError::Disconnected),
        }
    }

    /// Disconnect this agent: clear the callback of the session its
    /// identifier is bound to and drop the binding. Idempotent: a repeat
    /// call finds nothing bound and is a published no-op.
    pub fn disconnect(&self, manager: &mut ClientManager)
        requires
            old(manager)@.wf(),
            old(manager)@.published() < usize::MAX as int,
        ensures
            final(manager)@.wf(),
            final(manager)@ == spec_disconnect(old(manager)@, self@.identifier),
    {
        manager.disconnect_client(self.identifier.as_str());
    }
}

/// A point-in-time copy of the registry: the connected agents, in
/// registration order. Immutable once taken; later mutations publish fresh
/// copies instead of touching this one.
pub struct ClientMap {
    entries: Vec<ActiveClient>,
}

impl View for ClientMap {
    type V = Seq<ActiveClientView>;

    closed spec fn view(&self) -> Seq<ActiveClientView> {
        self.entries@.map_values(|c: ActiveClient| c@)
    }
}

/// The authoritative, observable record of who is connected: the session
/// slab, the registry proper, and the snapshot feed for subscribers.
pub struct ClientManager {
    sessions: Vec<Session>,
    entries: Vec<ActiveClient>,
    log: Vec<ClientMap>,
    dropped: usize,
    cap: usize,
}

impl View for ClientManager {
    type V = ManagerView;

    closed spec fn view(&self) -> ManagerView {
        ManagerView {
            sessions: self.sessions@.map_values(|s: Session| s@),
            entries: self.entries@.map_values(|c: ActiveClient| c@),
            log: self.log@.map_values(|m: ClientMap| m@),
            dropped: self.dropped as nat,
            cap: self.cap as nat,
        }
    }
}

/// Copy a run of handles, element for element.
fn clone_clients(v: &Vec<ActiveClient>) -> (r: Vec<ActiveClient>)
    ensures
        r@ == v@,
{
    let mut r: Vec<ActiveClient> = Vec::new();
    let mut i: usize = 0;
    while i < v.len()
        invariant
            i <= v.len(),
            r@ == v@.take(i as int),
        decreases v.len() - i,
    {
        r.push(v[i].clone());
        proof {
            assert(v@.take(i + 1 as int) =~= v@.take(i as int).push(v@[i as int]));
        }
        i = i + 1;
    }
    proof {
        assert(v@.take(v@.len() as int) =~= v@);
    }
    r
}

impl ClientManager {
    /// A fresh, empty registry with an empty feed.
    pub fn new() -> (r: Self)
        ensures
            r@.wf(),
            r@.sessions == Seq::<SessionView>::empty(),
            r@.entries == Seq::<ActiveClientView>::empty(),
            r@.log == Seq::<Seq<ActiveClientView>>::empty(),
            r@.dropped == 0,
            r@.cap == FEED_CAPACITY as nat,
    {
        let r = ClientManager {
            sessions: Vec::new(),
            entries: Vec::new(),
            log: Vec::new(),
            dropped: 0,
            cap: FEED_CAPACITY,
        };
        proof {
            assert(r@.sessions =~= Seq::<SessionView>::empty());
            assert(r@.entries =~= Seq::<ActiveClientView>::empty());
            assert(r@.log =~= Seq::<Seq<ActiveClientView>>::empty());
        }
        r
    }

    /// A point-in-time copy of the registry content. Readers never see the
    /// live structure, only such copies.
    pub fn clients(&self) -> (snap: ClientMap)
        ensures
            snap@ == self@.entries,
    {
        ClientMap { entries: clone_clients(&self.entries) }
    }

    /// Register `identifier` with the given confined-callback slot: mint
    /// a fresh live session, bind the identifier to it (replacing any
    /// previous binding, last write wins), publish the new snapshot, and
    /// return the handle for the fresh session.
    pub fn add_client(&mut self, identifier: &str, callback: u64) -> (c: ActiveClient)
        requires
            old(self)@.wf(),
            old(self)@.published() < usize::MAX as int,
        ensures
            final(self)@.wf(),
            final(self)@ == spec_add(old(self)@, identifier@, callback),
            c@ == (ActiveClientView { identifier: identifier@, session: old(self)@.sessions.len() }),
            c.in_manager(final(self)@),
    {
        let key: String = identifier.to_owned();
        let sid: usize = self.sessions.len();
        let c = ActiveClient { identifier: key.clone(), session: sid };
        self.sessions.push(Session { identifier: key.clone(), callback: Some(callback) });
        let found = self.find_entry(&key);
        match found {
            Some(i) => {
                proof {
                    lemma_index_of_unique(old(self)@.entries, identifier@, i as int);
                }
                self.entries.set(i, c.clone());
            },
            None => {
                self.entries.push(c.clone());
            },
        }
        self.publish_snapshot();
        proof {
            assert(self@ =~~= spec_add(old(self)@, identifier@, callback));
            lemma_add_preserves_wf(old(self)@, identifier@, callback);
        }
        c
    }

    /// Remove `identifier`'s binding, if present, clearing the bound
    /// session's callback in the same atomic step so that no window exists
    /// between "removed from the registry" and "callback invalidated". A
    /// snapshot is published whether or not the identifier was bound.
    pub fn disconnect_client(&mut self, identifier: &str)
        requires
            old(self)@.wf(),
            old(self)@.published() < usize::MAX as int,
        ensures
            final(self)@.wf(),
            final(self)@ == spec_disconnect(old(self)@, identifier@),
    {
        let key: String = identifier.to_owned();
        let found = self.find_entry(&key);
        match found {
            Some(i) => {
                proof {
                    lemma_index_of_unique(old(self)@.entries, identifier@, i as int);
                }
                let sid = self.entries[i].session;
                let cleared = Session { identifier: self.sessions[sid].identifier.clone(), callback: None };
                proof {
                    assert(old(self)@.sessions[sid as int].identifier == old(self)@.entries[i as int].identifier);
                }
                self.sessions.set(sid, cleared);
                self.entries.remove(i);
            },
            None => {},
        }
        self.publish_snapshot();
        proof {
            assert(self@ =~~= spec_disconnect(old(self)@, identifier@));
            lemma_disconnect_preserves_wf(old(self)@, identifier@);
        }
    }

    /// Append the current registry content to the feed, evicting the
    /// oldest retained snapshot when the buffer is at capacity.
    fn publish_snapshot(&mut self)
        requires
            old(self)@.cap >= 1,
            old(self)@.log.len() <= old(self)@.cap,
            old(self)@.published() < usize::MAX as int,
        ensures
            final(self)@ == old(self)@.publish(),
    {
        let snap = ClientMap { entries: clone_clients(&self.entries) };
        if self.log.len() >= self.cap {
            self.log.remove(0);
            self.dropped = self.dropped + 1;
        }
        self.log.push(snap);
        proof {
            assert(self@ =~~= old(self)@.publish());
        }
    }

    /// A subscription to the snapshot feed. It observes every mutation
    /// published after this call, in publish order, unless it falls more
    /// than the buffer's capacity behind.
    pub fn get_listener(&self) -> (l: Listener)
        requires
            self@.published() <= usize::MAX as int,
        ensures
            l@ == self@.published(),
    {
        Listener { cursor: self.dropped + self.log.len() }
    }

    /// The position of `id` in the registry, if bound.
    fn find_entry(&self, id: &String) -> (r: Option<usize>)
        ensures
            match r {
                Some(i) => i < self@.entries.len() && self@.entries[i as int].identifier == id@,
                None => !has_id(self@.entries, id@),
            },
    {
        let mut i: usize = 0;
        while i < self.entries.len()
            invariant
                i <= self.entries.len(),
                forall|j: int| 0 <= j < i ==> self@.entries[j].identifier != id@,
            decreases self.entries.len() - i,
        {
            if self.entries[i].identifier == *id {
                return Some(i);
            }
            i = i + 1;
        }
        None
    }
}

/// Why a subscriber got no snapshot from [`Listener::try_recv`].
#[derive(Clone, Copy, PartialEq, Eq, Structural, Debug)]
pub enum RecvError {
    /// Caught up: nothing published past this subscriber's cursor yet.
    Empty,
    /// The subscriber fell behind by more than the buffer holds; the
    /// count says how many snapshots it missed. Its cursor now points at
    /// the oldest retained snapshot, from which it resynchronizes.
    Lagged(usize),
}

/// A subscriber's position in the snapshot feed.
pub struct Listener {
    cursor: usize,
}

impl View for Listener {
    type V = int;

    closed spec fn view(&self) -> int {
        self.cursor as int
    }
}

impl Listener {
    /// The next feed value for this subscriber: the snapshot at its
    /// cursor, if still retained; `Empty` when it has caught up; `Lagged`
    /// with the number of missed snapshots when the buffer has already
    /// dropped its cursor, after which it reads on from the oldest
    /// retained snapshot.
    pub fn try_recv(&mut self, manager: &ClientManager) -> (r: Result<ClientMap, RecvError>)
        requires
            manager@.wf(),
            0 <= old(self)@,
        ensures
            old(self)@ >= manager@.published() ==> {
                &&& r matches Err(e) && e == RecvError::Empty
                &&& final(self)@ == old(self)@
            },
            old(self)@ < manager@.dropped ==> {
                &&& r matches Err(e) && e == RecvError::Lagged(
                    (manager@.dropped - old(self)@) as usize,
                )
                &&& final(self)@ == manager@.dropped
            },
            manager@.dropped <= old(self)@ < manager@.published() ==> {
                &&& r matches Ok(snap) && snap@ == manager@.log[old(self)@ - manager@.dropped]
                &&& final(self)@ == old(self)@ + 1
            },
    {
        if self.cursor >= manager.dropped + manager.log.len() {
            Err(RecvError::Empty)
        } else if self.cursor < manager.dropped {
            let missed = manager.dropped - self.cursor;
            self.cursor = manager.dropped;
            Err(RecvError::Lagged(missed))
        } else {
            let idx = self.cursor - manager.dropped;
            let snap = ClientMap { entries: clone_clients(&manager.log[idx].entries) };
            self.cursor = self.cursor + 1;
            Ok(snap)
        }
    }
}

impl ClientMap {
    /// How many agents this snapshot holds.
    pub fn len(&self) -> (n: usize)
        ensures
            n == self@.len(),
    {
        self.entries.len()
    }

    /// The handle at `i`, in registration order.
    pub fn get(&self, i: usize) -> (c: &ActiveClient)
        requires
            i < self@.len(),
        ensures
            c@ == self@[i as int],
    {
        &self.entries[i]
    }

    /// Whether `id` is connected in this snapshot.
    pub fn contains_id(&self, id: &str) -> (b: bool)
        ensures
            b == has_id(self@, id@),
    {
        let key: String = id.to_owned();
        let mut i: usize = 0;
        while i < self.entries.len()
            invariant
                i <= self.entries.len(),
                key@ == id@,
                forall|j: int| 0 <= j < i ==> self@[j].identifier != id@,
            decreases self.entries.len() - i,
        {
            if self.entries[i].identifier == key {
                proof {
                    assert(self@[i as int].identifier == id@);
                }
                return true;
            }
            i = i + 1;
        }
        false
    }

    /// How many entries of this snapshot carry `id`.
    pub fn count_of(&self, id: &str) -> (n: usize)
        ensures
            n == count_id(self@, id@),
    {
        let key: String = id.to_owned();
        let mut n: usize = 0;
        let mut i: usize = 0;
        while i < self.entries.len()
            invariant
                i <= self.entries.len(),
                key@ == id@,
                n == count_id(self@.take(i as int), id@),
                n <= i,
            decreases self.entries.len() - i,
        {
            proof {
                assert(self@.take(i + 1 as int).drop_last() =~= self@.take(i as int));
                assert(self@.take(i + 1 as int).last() == self@[i as int]);
            }
            if self.entries[i].identifier == key {
                n = n + 1;
            }
            i = i + 1;
        }
        proof {
            assert(self@.take(self@.len() as int) =~= self@);
        }
        n
    }
}

} // verus!
