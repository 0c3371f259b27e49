use vstd::prelude::*;

use crate::errors::{InfoField, RpcError};

verus! {

/// Decoded telemetry for one host, as pushed by an agent.
#[derive(Debug)]
pub struct SystemInfo {
    pub client_id: String,
    pub hostname: String,
    pub os_type: String,
    pub os_version: String,
    pub os_arch: String,
    pub current_time: i64,
    pub time_zone: String,
    pub user_name: String,
}

/// Mathematical image of a [`SystemInfo`].
#[verifier::ext_equal]
pub struct SystemInfoView {
    pub client_id: Seq<char>,
    pub hostname: Seq<char>,
    pub os_type: Seq<char>,
    pub os_version: Seq<char>,
    pub os_arch: Seq<char>,
    pub current_time: int,
    pub time_zone: Seq<char>,
    pub user_name: Seq<char>,
}

impl View for SystemInfo {
    type V = SystemInfoView;

    open spec fn view(&self) -> SystemInfoView {
        SystemInfoView {
            client_id: self.client_id@,
            hostname: self.hostname@,
            os_type: self.os_type@,
            os_version: self.os_version@,
            os_arch: self.os_arch@,
            current_time: self.current_time as int,
            time_zone: self.time_zone@,
            user_name: self.user_name@,
        }
    }
}

impl Clone for SystemInfo {
    fn clone(&self) -> (r: Self)
        ensures
            r == *self,
    {
        SystemInfo {
            client_id: self.client_id.clone(),
            hostname: self.hostname.clone(),
            os_type: self.os_type.clone(),
            os_version: self.os_version.clone(),
            os_arch: self.os_arch.clone(),
            current_time: self.current_time,
            time_zone: self.time_zone.clone(),
            user_name: self.user_name.clone(),
        }
    }
}

/// One telemetry frame as it arrives off the wire, after the transport has
/// unframed it: each text field may be absent or unreadable (`None`), while
/// the timestamp always decodes (a frame without one carries zero).
pub struct SystemInfoMessage {
    pub client_id: Option<String>,
    pub hostname: Option<String>,
    pub os_type: Option<String>,
    pub os_version: Option<String>,
    pub os_arch: Option<String>,
    pub current_time: i64,
    pub time_zone: Option<String>,
    pub user_name: Option<String>,
}

/// Mathematical image of a [`SystemInfoMessage`].
#[verifier::ext_equal]
pub struct SystemInfoMessageView {
    pub client_id: Option<Seq<char>>,
    pub hostname: Option<Seq<char>>,
    pub os_type: Option<Seq<char>>,
    pub os_version: Option<Seq<char>>,
    pub os_arch: Option<Seq<char>>,
    pub current_time: int,
    pub time_zone: Option<Seq<char>>,
    pub user_name: Option<Seq<char>>,
}

pub open spec fn text_view(o: Option<String>) -> Option<Seq<char>> {
    match o {
        Some(s) => Some(s@),
        None => None,
    }
}

impl View for SystemInfoMessage {
    type V = SystemInfoMessageView;

    open spec fn view(&self) -> SystemInfoMessageView {
        SystemInfoMessageView {
            client_id: text_view(self.client_id),
            hostname: text_view(self.hostname),
            os_type: text_view(self.os_type),
            os_version: text_view(self.os_version),
            os_arch: text_view(self.os_arch),
            current_time: self.current_time as int,
            time_zone: text_view(self.time_zone),
            user_name: text_view(self.user_name),
        }
    }
}

/// What decoding a frame yields: the first missing text field, in wire
/// order, fails the decode; otherwise every field is taken as-is.
pub open spec fn spec_read_message(m: SystemInfoMessageView) -> Result<SystemInfoView, RpcError> {
    if m.client_id is None {
        Err(RpcError::MissingField(InfoField::ClientId))
    } else if m.hostname is None {
        Err(RpcError::MissingField(InfoField::Hostname))
    } else if m.os_type is None {
        Err(RpcError::MissingField(InfoField::OsType))
    } else if m.os_version is None {
        Err(RpcError::MissingField(InfoField::OsVersion))
    } else if m.os_arch is None {
        Err(RpcError::MissingField(InfoField::OsArch))
    } else if m.time_zone is None {
        Err(RpcError::MissingField(InfoField::TimeZone))
    } else if m.user_name is None {
        Err(RpcError::MissingField(InfoField::UserName))
    } else {
        Ok(SystemInfoView {
            client_id: m.client_id->Some_0,
            hostname: m.hostname->Some_0,
            os_type: m.os_type->Some_0,
            os_version: m.os_version->Some_0,
            os_arch: m.os_arch->Some_0,
            current_time: m.current_time,
            time_zone: m.time_zone->Some_0,
            user_name: m.user_name->Some_0,
        })
    }
}

/// What encoding a record yields: every field present.
pub open spec fn spec_build_message(s: SystemInfoView) -> SystemInfoMessageView {
    SystemInfoMessageView {
        client_id: Some(s.client_id),
        hostname: Some(s.hostname),
        os_type: Some(s.os_type),
        os_version: Some(s.os_version),
        os_arch: Some(s.os_arch),
        current_time: s.current_time,
        time_zone: Some(s.time_zone),
        user_name: Some(s.user_name),
    }
}

/// Lifts a decode result to its mathematical image.
pub open spec fn read_result_view(r: Result<SystemInfo, RpcError>) -> Result<SystemInfoView, RpcError> {
    match r {
        Ok(info) => Ok(info@),
        Err(e) => Err(e),
    }
}

impl SystemInfo {
    /// Build this record into a wire frame, with every field present.
    pub fn build_message(&self) -> (m: SystemInfoMessage)
        ensures
            m@ == spec_build_message(self@),
    {
        SystemInfoMessage {
            client_id: Some(self.client_id.clone()),
            hostname: Some(self.hostname.clone()),
            os_type: Some(self.os_type.clone()),
            os_version: Some(self.os_version.clone()),
            os_arch: Some(self.os_arch.clone()),
            current_time: self.current_time,
            time_zone: Some(self.time_zone.clone()),
            user_name: Some(self.user_name.clone()),
        }
    }

    /// Read a wire frame into a [`SystemInfo`] record. Succeeds exactly
    /// when every text field is present; the error names the first field,
    /// in wire order, that is not.
    pub fn read_message(value: &SystemInfoMessage) -> (r: Result<SystemInfo, RpcError>)
        ensures
            read_result_view(r) == spec_read_message(value@),
    {
        let client_id = match &value.client_id {
            Some(s) => s.clone(),
            None => {
                return Err(RpcError::MissingField(InfoField::ClientId));
            },
        };
        let hostname = match &value.hostname {
            Some(s) => s.clone(),
            None => {
                return Err(RpcError::MissingField(InfoField::Hostname));
            },
        };
        let os_type = match &value.os_type {
            Some(s) => s.clone(),
            None => {
                return Err(RpcError::MissingField(InfoField::OsType));
            },
        };
        let os_version = match &value.os_version {
            Some(s) => s.clone(),
            None => {
                return Err(RpcError::MissingField(InfoField::OsVersion));
            },
        };
        let os_arch = match &value.os_arch {
            Some(s) => s.clone(),
            None => {
                return Err(RpcError::MissingField(InfoField::OsArch));
            },
        };
        let time_zone = match &value.time_zone {
            Some(s) => s.clone(),
            None => {
                return Err(RpcError::MissingField(InfoField::TimeZone));
            },
        };
        let user_name = match &value.user_name {
            Some(s) => s.clone(),
            None => {
                return Err(RpcError::MissingField(InfoField::UserName));
            },
        };
        Ok(SystemInfo {
            client_id,
            hostname,
            os_type,
            os_version,
            os_arch,
            current_time: value.current_time,
            time_zone,
            user_name,
        })
    }
}

/// Law: a record survives a round trip through the wire frame unchanged.
pub proof fn lemma_message_round_trip(s: SystemInfoView)
    ensures
        spec_read_message(spec_build_message(s)) == Ok::<SystemInfoView, RpcError>(s),
{
    assert(spec_read_message(spec_build_message(s))->Ok_0 =~= s);
}

} // verus!
