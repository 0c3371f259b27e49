use conure::errors::{InfoField, RpcError};
use conure::registry::{ClientManager, RecvError};
use conure::server::GatewayImpl;
use conure::system_info::SystemInfo;

fn sample_info(hostname: &str, current_time: i64) -> SystemInfo {
    SystemInfo {
        client_id: "agent".to_string(),
        hostname: hostname.to_string(),
        os_type: "linux".to_string(),
        os_version: "6.1".to_string(),
        os_arch: "x86_64".to_string(),
        current_time,
        time_zone: "UTC".to_string(),
        user_name: "root".to_string(),
    }
}

fn snapshot_ids(snap: &conure::registry::ClientMap) -> Vec<String> {
    let mut ids = Vec::new();
    let mut i = 0;
    while i < snap.len() {
        ids.push(snap.get(i).identifier());
        i += 1;
    }
    ids
}

#[test]
fn register_creates_one_entry() {
    let mut mgr = ClientManager::new();
    mgr.add_client("agentA", 1);
    let snap = mgr.clients();
    assert_eq!(snap.len(), 1);
    assert_eq!(snap.count_of("agentA"), 1);
    assert!(snap.contains_id("agentA"));
}

#[test]
fn register_replaces_on_token_reuse() {
    let mut mgr = ClientManager::new();
    let first = mgr.add_client("agentA", 1);
    let second = mgr.add_client("agentA", 2);
    let snap = mgr.clients();
    assert_eq!(snap.len(), 1);
    assert_eq!(snap.count_of("agentA"), 1);
    // the registry now answers for the second session
    assert_eq!(second.with_client(&mgr), Ok(2));
    // the replaced handle still exists, and its own session stayed live
    assert_eq!(first.with_client(&mgr), Ok(1));
}

#[test]
fn disconnect_removes_entry_once() {
    let mut mgr = ClientManager::new();
    let c = mgr.add_client("agentA", 1);
    assert_eq!(mgr.clients().len(), 1);
    c.disconnect(&mut mgr);
    assert_eq!(mgr.clients().len(), 0);
    assert!(!mgr.clients().contains_id("agentA"));
}

#[test]
fn disconnect_is_idempotent() {
    let mut mgr = ClientManager::new();
    let c = mgr.add_client("agentA", 1);
    c.disconnect(&mut mgr);
    let after_first = snapshot_ids(&mgr.clients());
    c.disconnect(&mut mgr);
    c.disconnect(&mut mgr);
    let after_third = snapshot_ids(&mgr.clients());
    assert_eq!(after_first, Vec::<String>::new());
    assert_eq!(after_third, Vec::<String>::new());
}

#[test]
fn invoke_after_disconnect_fails_cleanly() {
    let mut mgr = ClientManager::new();
    let c = mgr.add_client("agentA", 42);
    assert_eq!(c.with_client(&mgr), Ok(42));
    c.disconnect(&mut mgr);
    assert_eq!(c.with_client(&mgr), Err(RpcError::Disconnected));
    // and it stays that way
    assert_eq!(c.with_client(&mgr), Err(RpcError::Disconnected));
}

#[test]
fn cleared_callback_survives_later_mutations() {
    let mut mgr = ClientManager::new();
    let a = mgr.add_client("agentA", 1);
    a.disconnect(&mut mgr);
    mgr.add_client("agentB", 2);
    mgr.add_client("agentA", 3);
    assert_eq!(a.with_client(&mgr), Err(RpcError::Disconnected));
}

#[test]
fn gone_agent_is_absent_from_every_later_snapshot() {
    let mut mgr = ClientManager::new();
    let mut l = mgr.get_listener();
    let a = mgr.add_client("agentA", 1);
    mgr.add_client("agentB", 2);
    a.disconnect(&mut mgr);
    mgr.add_client("agentC", 3);
    mgr.disconnect_client("agentB");
    // skip the two snapshots from before the disconnect of agentA
    for _ in 0..2 {
        assert!(l.try_recv(&mgr).is_ok());
    }
    // every snapshot from the disconnect on omits agentA
    while let Ok(snap) = l.try_recv(&mgr) {
        assert!(!snap.contains_id("agentA"));
    }
}

#[test]
fn listener_sees_only_future_mutations() {
    let mut mgr = ClientManager::new();
    mgr.add_client("agentA", 1);
    let mut l = mgr.get_listener();
    assert_eq!(
        l.try_recv(&mgr).map(|_| ()),
        Err(RecvError::Empty)
    );
    mgr.add_client("agentB", 2);
    let snap = match l.try_recv(&mgr) {
        Ok(s) => s,
        Err(e) => panic!("expected a snapshot, got {:?}", e),
    };
    assert_eq!(snap.len(), 2);
    assert_eq!(l.try_recv(&mgr).map(|_| ()), Err(RecvError::Empty));
}

#[test]
fn feed_matches_snapshot_after_each_mutation() {
    let mut mgr = ClientManager::new();
    let mut l = mgr.get_listener();
    let mut expected: Vec<Vec<String>> = Vec::new();

    let a = mgr.add_client("agentA", 1);
    expected.push(snapshot_ids(&mgr.clients()));
    mgr.add_client("agentB", 2);
    expected.push(snapshot_ids(&mgr.clients()));
    a.disconnect(&mut mgr);
    expected.push(snapshot_ids(&mgr.clients()));
    mgr.add_client("agentC", 3);
    expected.push(snapshot_ids(&mgr.clients()));

    for want in expected {
        let got = match l.try_recv(&mgr) {
            Ok(s) => snapshot_ids(&s),
            Err(e) => panic!("expected a snapshot, got {:?}", e),
        };
        assert_eq!(got, want);
    }
    assert_eq!(l.try_recv(&mgr).map(|_| ()), Err(RecvError::Empty));
}

#[test]
fn slow_subscriber_observes_gap_and_resyncs() {
    let mut mgr = ClientManager::new();
    let mut l = mgr.get_listener();
    // push five snapshots past the retained window of 1024
    for i in 0..1029u64 {
        let token = format!("agent{}", i);
        mgr.add_client(&token, i);
    }
    match l.try_recv(&mgr) {
        Err(RecvError::Lagged(missed)) => assert_eq!(missed, 5),
        other => panic!("expected a lag, got {:?}", other.map(|_| ())),
    }
    // after the gap, reading resumes from the oldest retained snapshot
    let snap = match l.try_recv(&mgr) {
        Ok(s) => s,
        Err(e) => panic!("expected a snapshot, got {:?}", e),
    };
    assert_eq!(snap.len(), 6);
}

#[test]
fn empty_token_is_rejected_before_any_mutation() {
    let mut gw = GatewayImpl::new(ClientManager::new());
    let r = gw.register_client("", 1);
    assert!(matches!(r, Err(RpcError::EmptyToken)));
    assert_eq!(gw.registry().clients().len(), 0);
}

#[test]
fn gateway_registration_returns_bound_sink() {
    let mut gw = GatewayImpl::new(ClientManager::new());
    let sink = match gw.register_client("agentA", 9) {
        Ok(s) => s,
        Err(_) => panic!("registration with a non-empty token must succeed"),
    };
    assert!(!sink.is_detached());
    assert_eq!(sink.client().identifier(), "agentA".to_string());
    assert_eq!(sink.client().with_client(gw.registry()), Ok(9));
    assert_eq!(gw.registry().clients().count_of("agentA"), 1);
}

#[test]
fn report_processes_in_issue_order() {
    let mut gw = GatewayImpl::new(ClientManager::new());
    let mut sink = gw.register_client("agentA", 1).map_err(|_| ()).unwrap();
    let r1 = sample_info("h1", 1000);
    let r2 = sample_info("h2", 2000);
    assert_eq!(sink.report_system_info(&r1.build_message()), Ok(()));
    assert_eq!(sink.report_system_info(&r2.build_message()), Ok(()));
    let processed = sink.reports();
    assert_eq!(processed.len(), 2);
    assert_eq!(processed[0].hostname, "h1".to_string());
    assert_eq!(processed[0].current_time, 1000);
    assert_eq!(processed[1].hostname, "h2".to_string());
    assert_eq!(processed[1].current_time, 2000);
}

#[test]
fn bad_report_is_rejected_without_detaching() {
    let mut gw = GatewayImpl::new(ClientManager::new());
    let mut sink = gw.register_client("agentA", 1).map_err(|_| ()).unwrap();
    let mut msg = sample_info("h1", 1000).build_message();
    msg.os_version = None;
    assert_eq!(
        sink.report_system_info(&msg),
        Err(RpcError::MissingField(InfoField::OsVersion))
    );
    assert_eq!(sink.reports().len(), 0);
    assert!(!sink.is_detached());
    // the session is still live and a good report still lands
    assert_eq!(
        sink.report_system_info(&sample_info("h1", 1000).build_message()),
        Ok(())
    );
    assert_eq!(sink.reports().len(), 1);
}

#[test]
fn agent_session_lifecycle() {
    // an agent registers, pushes two reports, then its connection drops
    let mut gw = GatewayImpl::new(ClientManager::new());
    let mut sink = gw.register_client("agentA", 5).map_err(|_| ()).unwrap();
    assert_eq!(gw.registry().clients().count_of("agentA"), 1);

    let report = sample_info("h1", 1000);
    assert_eq!(sink.report_system_info(&report.build_message()), Ok(()));
    assert_eq!(sink.report_system_info(&report.build_message()), Ok(()));
    assert_eq!(sink.reports().len(), 2);

    // transport teardown detaches the sink, which reaps the registry entry
    sink.detach(gw.registry_mut());
    assert!(sink.is_detached());
    assert!(!gw.registry().clients().contains_id("agentA"));

    // detaching again is a no-op, and reports now meet the disconnected condition
    sink.detach(gw.registry_mut());
    assert_eq!(
        sink.report_system_info(&report.build_message()),
        Err(RpcError::Disconnected)
    );
}

#[test]
fn two_agents_register_with_distinct_tokens() {
    let mut gw = GatewayImpl::new(ClientManager::new());
    let s1 = gw.register_client("agentA", 1).map_err(|_| ()).unwrap();
    let s2 = gw.register_client("agentB", 2).map_err(|_| ()).unwrap();
    let snap = gw.registry().clients();
    assert_eq!(snap.len(), 2);
    assert!(snap.contains_id("agentA"));
    assert!(snap.contains_id("agentB"));
    assert_eq!(s1.client().with_client(gw.registry()), Ok(1));
    assert_eq!(s2.client().with_client(gw.registry()), Ok(2));
}

#[test]
fn detach_of_replaced_sink_reaps_current_entry() {
    // token reuse: the old sink's teardown removes the token's current
    // binding -- last write wins on registration, first teardown wins on
    // removal
    let mut gw = GatewayImpl::new(ClientManager::new());
    let mut old_sink = gw.register_client("agentA", 1).map_err(|_| ()).unwrap();
    let _new_sink = gw.register_client("agentA", 2).map_err(|_| ()).unwrap();
    assert_eq!(gw.registry().clients().count_of("agentA"), 1);
    old_sink.detach(gw.registry_mut());
    assert!(!gw.registry().clients().contains_id("agentA"));
}
