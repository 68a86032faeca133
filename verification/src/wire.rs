//! The messages that the controller and its agents exchange, as plain values.

use vstd::prelude::*;
use vstd::string::*;

use crate::text::{opt_text, texts};

verus! {

/// The version of the protocol that changes when old peers can no longer be understood.
pub const PROTOCOL_MAJOR: u32 = 1;

/// The version of the protocol that changes with every addition.
pub const PROTOCOL_MINOR: u32 = 0;

/// A device in a [`DesiredSnapshot`].
#[derive(Debug, Clone, PartialEq, Eq)]
pub struct WirePeer {
    pub device_id: String,
    pub user_id: String,
    pub public_key: String,
    pub allowed_address: String,
    pub group_ids: Vec<String>,
}

/// An access rule in a [`DesiredSnapshot`].
#[derive(Debug, Clone, PartialEq, Eq)]
pub struct WireRule {
    pub id: String,
    pub position: u32,
    pub action: String,
    pub destination: String,
    pub protocol: String,
    pub port_start: Option<u32>,
    pub port_end: Option<u32>,
    pub user_ids: Vec<String>,
    pub group_ids: Vec<String>,
    pub enabled: bool,
}

/// The state that a gateway is asked to bring about.
#[derive(Debug, Clone, PartialEq, Eq)]
pub struct DesiredSnapshot {
    pub gateway_id: String,
    pub revision: u64,
    pub interface_name: String,
    pub listen_port: u32,
    pub mtu: Option<u32>,
    pub compatibility_address: Option<String>,
    pub routes: Vec<String>,
    pub peers: Vec<WirePeer>,
    pub acl_default: String,
    pub acl_rules: Vec<WireRule>,
    pub terminate_sources: Vec<String>,
    pub credential_envelope: Vec<u8>,
}

/// The contents of a [`WirePeer`].
#[verifier::ext_equal]
pub struct WirePeerView {
    pub device_id: Seq<char>,
    pub user_id: Seq<char>,
    pub public_key: Seq<char>,
    pub allowed_address: Seq<char>,
    pub group_ids: Seq<Seq<char>>,
}

/// The contents of a [`WireRule`].
#[verifier::ext_equal]
pub struct WireRuleView {
    pub id: Seq<char>,
    pub position: u32,
    pub action: Seq<char>,
    pub destination: Seq<char>,
    pub protocol: Seq<char>,
    pub port_start: Option<u32>,
    pub port_end: Option<u32>,
    pub user_ids: Seq<Seq<char>>,
    pub group_ids: Seq<Seq<char>>,
    pub enabled: bool,
}

/// The contents of a [`DesiredSnapshot`].
#[verifier::ext_equal]
pub struct SnapshotView {
    pub gateway_id: Seq<char>,
    pub revision: u64,
    pub interface_name: Seq<char>,
    pub listen_port: u32,
    pub mtu: Option<u32>,
    pub compatibility_address: Option<Seq<char>>,
    pub routes: Seq<Seq<char>>,
    pub peers: Seq<WirePeerView>,
    pub acl_default: Seq<char>,
    pub acl_rules: Seq<WireRuleView>,
    pub terminate_sources: Seq<Seq<char>>,
    pub credential_envelope: Seq<u8>,
}

impl View for WirePeer {
    type V = WirePeerView;

    open spec fn view(&self) -> WirePeerView {
        WirePeerView {
            device_id: self.device_id@,
            user_id: self.user_id@,
            public_key: self.public_key@,
            allowed_address: self.allowed_address@,
            group_ids: texts(self.group_ids@),
        }
    }
}

impl View for WireRule {
    type V = WireRuleView;

    open spec fn view(&self) -> WireRuleView {
        WireRuleView {
            id: self.id@,
            position: self.position,
            action: self.action@,
            destination: self.destination@,
            protocol: self.protocol@,
            port_start: self.port_start,
            port_end: self.port_end,
            user_ids: texts(self.user_ids@),
            group_ids: texts(self.group_ids@),
            enabled: self.enabled,
        }
    }
}

impl View for DesiredSnapshot {
    type V = SnapshotView;

    open spec fn view(&self) -> SnapshotView {
        SnapshotView {
            gateway_id: self.gateway_id@,
            revision: self.revision,
            interface_name: self.interface_name@,
            listen_port: self.listen_port,
            mtu: self.mtu,
            compatibility_address: opt_text(self.compatibility_address),
            routes: texts(self.routes@),
            peers: self.peers@.map_values(|p: WirePeer| p@),
            acl_default: self.acl_default@,
            acl_rules: self.acl_rules@.map_values(|r: WireRule| r@),
            terminate_sources: texts(self.terminate_sources@),
            credential_envelope: self.credential_envelope@,
        }
    }
}

} // verus!
