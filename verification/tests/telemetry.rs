use conure::errors::{InfoField, RpcError};
use conure::system_info::{SystemInfo, SystemInfoMessage};

fn full_message() -> SystemInfoMessage {
    SystemInfoMessage {
        client_id: Some("cid".to_string()),
        hostname: Some("host".to_string()),
        os_type: Some("linux".to_string()),
        os_version: Some("6.1".to_string()),
        os_arch: Some("aarch64".to_string()),
        current_time: 123456789,
        time_zone: Some("Europe/Berlin".to_string()),
        user_name: Some("alice".to_string()),
    }
}

#[test]
fn read_message_decodes_every_field() {
    let info = match SystemInfo::read_message(&full_message()) {
        Ok(i) => i,
        Err(e) => panic!("a full frame must decode, got {:?}", e),
    };
    assert_eq!(info.client_id, "cid".to_string());
    assert_eq!(info.hostname, "host".to_string());
    assert_eq!(info.os_type, "linux".to_string());
    assert_eq!(info.os_version, "6.1".to_string());
    assert_eq!(info.os_arch, "aarch64".to_string());
    assert_eq!(info.current_time, 123456789);
    assert_eq!(info.time_zone, "Europe/Berlin".to_string());
    assert_eq!(info.user_name, "alice".to_string());
}

#[test]
fn read_message_names_first_missing_field() {
    let cases = [
        (InfoField::ClientId, {
            let mut m = full_message();
            m.client_id = None;
            m
        }),
        (InfoField::Hostname, {
            let mut m = full_message();
            m.hostname = None;
            m
        }),
        (InfoField::OsType, {
            let mut m = full_message();
            m.os_type = None;
            m
        }),
        (InfoField::OsVersion, {
            let mut m = full_message();
            m.os_version = None;
            m
        }),
        (InfoField::OsArch, {
            let mut m = full_message();
            m.os_arch = None;
            m
        }),
        (InfoField::TimeZone, {
            let mut m = full_message();
            m.time_zone = None;
            m
        }),
        (InfoField::UserName, {
            let mut m = full_message();
            m.user_name = None;
            m
        }),
    ];
    for (field, msg) in cases {
        match SystemInfo::read_message(&msg) {
            Err(RpcError::MissingField(f)) => assert_eq!(f, field),
            other => panic!("expected a missing {:?}, got {:?}", field, other.map(|_| ())),
        }
    }
}

#[test]
fn read_message_reports_fields_in_wire_order() {
    let mut m = full_message();
    m.hostname = None;
    m.user_name = None;
    match SystemInfo::read_message(&m) {
        Err(RpcError::MissingField(f)) => assert_eq!(f, InfoField::Hostname),
        other => panic!("expected a missing field, got {:?}", other.map(|_| ())),
    }
}

#[test]
fn build_then_read_round_trips() {
    let info = SystemInfo {
        client_id: "cid".to_string(),
        hostname: "host".to_string(),
        os_type: "linux".to_string(),
        os_version: "6.1".to_string(),
        os_arch: "x86_64".to_string(),
        current_time: -5,
        time_zone: "UTC".to_string(),
        user_name: "bob".to_string(),
    };
    let again = match SystemInfo::read_message(&info.build_message()) {
        Ok(i) => i,
        Err(e) => panic!("a built frame must decode, got {:?}", e),
    };
    assert_eq!(again.client_id, info.client_id);
    assert_eq!(again.hostname, info.hostname);
    assert_eq!(again.os_type, info.os_type);
    assert_eq!(again.os_version, info.os_version);
    assert_eq!(again.os_arch, info.os_arch);
    assert_eq!(again.current_time, info.current_time);
    assert_eq!(again.time_zone, info.time_zone);
    assert_eq!(again.user_name, info.user_name);
}

#[test]
fn build_message_fills_every_field() {
    let m = SystemInfo {
        client_id: "cid".to_string(),
        hostname: "host".to_string(),
        os_type: "linux".to_string(),
        os_version: "6.1".to_string(),
        os_arch: "x86_64".to_string(),
        current_time: 0,
        time_zone: "UTC".to_string(),
        user_name: "bob".to_string(),
    }
    .build_message();
    assert_eq!(m.client_id, Some("cid".to_string()));
    assert_eq!(m.hostname, Some("host".to_string()));
    assert_eq!(m.os_type, Some("linux".to_string()));
    assert_eq!(m.os_version, Some("6.1".to_string()));
    assert_eq!(m.os_arch, Some("x86_64".to_string()));
    assert_eq!(m.current_time, 0);
    assert_eq!(m.time_zone, Some("UTC".to_string()));
    assert_eq!(m.user_name, Some("bob".to_string()));
}
