//! What the crawler records of a node, and what it reports of a version
//! message.

use vstd::prelude::*;
use crate::address::{canonical, NetAddress};
use crate::text::{hex_string, to_hex};

verus! {

/// What a node said of itself in its version message, as recorded by the
/// crawler.
#[derive(Debug)]
pub struct NodeMetadata {
    pub protocol_version: u32,
    pub network: String,
    pub services: u64,
    /// When the version message was received (RFC 3339).
    pub timestamp: String,
    /// The node's id in lower-case hexadecimal.
    pub id: String,
    pub user_agent: String,
    pub disable_relay_tx: bool,
}

/// The mathematical value of a `NodeMetadata`.
pub struct NodeMetadataView {
    pub protocol_version: u32,
    pub network: Seq<char>,
    pub services: u64,
    pub timestamp: Seq<char>,
    pub id: Seq<char>,
    pub user_agent: Seq<char>,
    pub disable_relay_tx: bool,
}

impl View for NodeMetadata {
    type V = NodeMetadataView;

    open spec fn view(&self) -> NodeMetadataView {
        NodeMetadataView {
            protocol_version: self.protocol_version,
            network: self.network@,
            services: self.services,
            timestamp: self.timestamp@,
            id: self.id@,
            user_agent: self.user_agent@,
            disable_relay_tx: self.disable_relay_tx,
        }
    }
}

/// A node that answered the crawler: the address it was reached at, what
/// it said of itself, and, once known, its location as `lat,lon`.
#[derive(Debug)]
pub struct NodeData {
    pub ip: String,
    pub metadata: NodeMetadata,
    pub loc: Option<String>,
}

/// The mathematical value of a `NodeData`.
pub struct NodeDataView {
    pub ip: Seq<char>,
    pub metadata: NodeMetadataView,
    pub loc: Option<Seq<char>>,
}

/// The view of an optional string.
pub open spec fn opt_view(s: Option<String>) -> Option<Seq<char>> {
    match s {
        Some(t) => Some(t@),
        None => None,
    }
}

impl View for NodeData {
    type V = NodeDataView;

    open spec fn view(&self) -> NodeDataView {
        NodeDataView { ip: self.ip@, metadata: self.metadata@, loc: opt_view(self.loc) }
    }
}

/// The fields of a version message that a node sends in its handshake.
/// `address` is the address the node gives for itself, where it gives one
/// that can be read.
#[derive(Debug)]
pub struct VersionFields {
    pub protocol_version: u32,
    pub network: String,
    pub services: u64,
    /// Milliseconds since the UNIX epoch.
    pub timestamp: i64,
    pub address: Option<NetAddress>,
    pub id: Vec<u8>,
    pub user_agent: String,
    pub disable_relay_tx: bool,
    pub subnetwork_id: Option<Vec<u8>>,
}

/// What the `version` request reports of a node's version message.
#[derive(Debug)]
pub struct VersionReport {
    pub protocol_version: u32,
    pub network: String,
    pub services: u64,
    /// The node's time as a UTC date (RFC 3339, `Z` for the offset), where
    /// its milliseconds since the UNIX epoch name a date chrono can hold.
    pub timestamp: Option<String>,
    /// The node's own address, IP address in normal form.
    pub address: Option<NetAddress>,
    /// The node's id in lower-case hexadecimal.
    pub id: String,
    pub user_agent: String,
    pub disable_relay_tx: bool,
    /// The subnetwork id in lower-case hexadecimal.
    pub subnetwork_id: Option<String>,
}

impl NodeMetadata {
    /// A copy of the metadata.
    pub fn duplicate(&self) -> (r: NodeMetadata)
        ensures
            r@ == self@,
    {
        NodeMetadata {
            protocol_version: self.protocol_version,
            network: self.network.clone(),
            services: self.services,
            timestamp: self.timestamp.clone(),
            id: self.id.clone(),
            user_agent: self.user_agent.clone(),
            disable_relay_tx: self.disable_relay_tx,
        }
    }
}

impl NodeData {
    /// A copy of the node with its location set to `loc`.
    pub fn with_location(&self, loc: Option<String>) -> (r: NodeData)
        ensures
            r@ == (NodeDataView { loc: opt_view(loc), ..self@ }),
    {
        NodeData { ip: self.ip.clone(), metadata: self.metadata.duplicate(), loc }
    }

    /// A copy of the node.
    pub fn duplicate(&self) -> (r: NodeData)
        ensures
            r@ == self@,
    {
        let loc = match &self.loc {
            Some(l) => Some(l.clone()),
            None => None,
        };
        self.with_location(loc)
    }
}

/// The metadata recorded of a node from its version message, received at
/// `timestamp`.
pub open spec fn metadata_of(v: VersionFields, timestamp: Seq<char>) -> NodeMetadataView {
    NodeMetadataView {
        protocol_version: v.protocol_version,
        network: v.network@,
        services: v.services,
        timestamp: timestamp,
        id: hex_string(v.id@),
        user_agent: v.user_agent@,
        disable_relay_tx: v.disable_relay_tx,
    }
}

/// The metadata recorded of a node whose version message `v` arrived at
/// `timestamp`.
pub fn node_metadata_at(v: &VersionFields, timestamp: String) -> (m: NodeMetadata)
    ensures
        m@ == metadata_of(*v, timestamp@),
        m.protocol_version == v.protocol_version,
        m.network@ == v.network@,
        m.services == v.services,
        m.timestamp@ == timestamp@,
        m.id@ == hex_string(v.id@),
        m.user_agent@ == v.user_agent@,
        m.disable_relay_tx == v.disable_relay_tx,
{
    NodeMetadata {
        protocol_version: v.protocol_version,
        network: v.network.clone(),
        services: v.services,
        timestamp: timestamp,
        id: to_hex(v.id.as_slice()),
        user_agent: v.user_agent.clone(),
        disable_relay_tx: v.disable_relay_tx,
    }
}

/// The UTC date that a count of milliseconds since the UNIX epoch names, as
/// chrono writes it (RFC 3339, seconds with as many fractional digits as
/// needed, `Z` for the offset); `None` where chrono holds no such date.
pub uninterp spec fn utc_date_text(millis: i64) -> Option<Seq<char>>;

/// chrono's `DateTime::<Utc>::from_timestamp_millis`, written by
/// `DateTime::to_rfc3339_opts` with `SecondsFormat::AutoSi` and `Z` for the
/// offset (the text chrono's serde support writes for a date).  The result
/// is named, not described: it depends on `millis` alone.
#[verifier::external_body]
fn utc_date_of_millis(millis: i64) -> (r: Option<String>)
    ensures
        opt_view(r) == utc_date_text(millis),
{
    match chrono::DateTime::from_timestamp_millis(millis) {
        Some(date) => Some(date.to_rfc3339_opts(chrono::SecondsFormat::AutoSi, true)),
        None => None,
    }
}

/// The report of a version message whose time reads as `date`: the fields
/// as sent, the node's own address in normal form, the id and the
/// subnetwork id in lower-case hexadecimal.
pub fn version_report_with(v: &VersionFields, date: Option<String>) -> (r: VersionReport)
    ensures
        r.protocol_version == v.protocol_version,
        r.network@ == v.network@,
        r.services == v.services,
        opt_view(r.timestamp) == opt_view(date),
        r.address == (match v.address {
            Some(a) => Some(canonical(a)),
            None => None,
        }),
        r.id@ == hex_string(v.id@),
        r.user_agent@ == v.user_agent@,
        r.disable_relay_tx == v.disable_relay_tx,
        opt_view(r.subnetwork_id) == (match v.subnetwork_id {
            Some(s) => Some(hex_string(s@)),
            None => None,
        }),
{
    let address = match &v.address {
        Some(a) => Some(a.to_canonical()),
        None => None,
    };
    let subnetwork_id = match &v.subnetwork_id {
        Some(s) => Some(to_hex(s.as_slice())),
        None => None,
    };
    VersionReport {
        protocol_version: v.protocol_version,
        network: v.network.clone(),
        services: v.services,
        timestamp: date,
        address,
        id: to_hex(v.id.as_slice()),
        user_agent: v.user_agent.clone(),
        disable_relay_tx: v.disable_relay_tx,
        subnetwork_id,
    }
}

/// The report of a version message, its time read as a UTC date.
pub fn version_report(v: &VersionFields) -> (r: VersionReport)
    ensures
        r.protocol_version == v.protocol_version,
        r.network@ == v.network@,
        r.services == v.services,
        opt_view(r.timestamp) == utc_date_text(v.timestamp),
        r.address == (match v.address {
            Some(a) => Some(canonical(a)),
            None => None,
        }),
        r.id@ == hex_string(v.id@),
        r.user_agent@ == v.user_agent@,
        r.disable_relay_tx == v.disable_relay_tx,
        opt_view(r.subnetwork_id) == (match v.subnetwork_id {
            Some(s) => Some(hex_string(s@)),
            None => None,
        }),
{
    let date = utc_date_of_millis(v.timestamp);
    version_report_with(v, date)
}

/// The metadata recorded of a node is what its version message announced,
/// field by field, with the id in hexadecimal and the time it arrived.
pub proof fn law_metadata_is_announced(v: VersionFields, t: Seq<char>)
    ensures
        metadata_of(v, t).protocol_version == v.protocol_version,
        metadata_of(v, t).network == v.network@,
        metadata_of(v, t).services == v.services,
        metadata_of(v, t).timestamp == t,
        metadata_of(v, t).id == hex_string(v.id@),
        metadata_of(v, t).user_agent == v.user_agent@,
        metadata_of(v, t).disable_relay_tx == v.disable_relay_tx,
{
}

} // verus!
