//! The version message the crawler announces itself with.

use vstd::prelude::*;

verus! {

/// What the crawler announces in its handshake.  It gives no address of its
/// own and no subnetwork.
#[derive(Debug)]
pub struct VersionRequest {
    pub protocol_version: u32,
    pub services: u64,
    /// Milliseconds since the UNIX epoch.
    pub timestamp: i64,
    pub id: Vec<u8>,
    pub user_agent: String,
    pub disable_relay_tx: bool,
    pub network: String,
}

/// The lower-case form of a string, as std's `str::to_lowercase` gives it
/// (by the Unicode `Lowercase` property).
pub uninterp spec fn lowercase(s: Seq<char>) -> Seq<char>;

/// std's `str::to_lowercase`.  The result is named, not described: it is
/// the Unicode lower-case mapping of `s`, which depends on `s` alone.
#[verifier::external_body]
fn to_lowercase(s: &str) -> (r: String)
    ensures
        r@ == lowercase(s@),
{
    s.to_lowercase()
}

/// A fresh random node id: the sixteen bytes of a UUID made by uuid's
/// `Uuid::new_v4`.  Its version nibble (high half of byte 6) is 4 and its
/// variant bits (top of byte 8) are `10`; the other bits are random and
/// nothing is stated of them.  uuid panics where the system's random source
/// fails; no input decides that.
#[verifier::external_body]
fn random_node_id() -> (id: Vec<u8>)
    ensures
        id@.len() == 16,
        0x40 <= id@[6] < 0x50,
        0x80 <= id@[8] < 0xc0,
{
    Vec::from(uuid::Uuid::new_v4().as_bytes())
}

/// The network name announced for the network `lowered` (already in lower
/// case): `spectre-` and the name.
pub open spec fn network_tag_of(lowered: Seq<char>) -> Seq<char> {
    "spectre-"@ + lowered
}

/// The network name announced for a network whose name is already in lower
/// case.
pub fn network_tag(lowered: &str) -> (r: String)
    ensures
        r@ == network_tag_of(lowered@),
{
    proof {
        reveal_strlit("spectre-");
    }
    let mut r = String::from_str("spectre-");
    r.append(lowered);
    r
}

/// The user agent the crawler announces.
pub open spec fn user_agent_text() -> Seq<char> {
    seq!['s', 'p', '2', 'p']
}

/// The announcement for the network `lowered` (already in lower case), at
/// `timestamp`, with the node id `id`: protocol version 6, no services,
/// user agent `sp2p`, no transaction relay.
pub fn version_request_with(lowered: &str, timestamp: i64, id: Vec<u8>) -> (r: VersionRequest)
    ensures
        r.protocol_version == 6,
        r.services == 0,
        r.timestamp == timestamp,
        r.id@ == id@,
        r.user_agent@ == user_agent_text(),
        r.disable_relay_tx,
        r.network@ == network_tag_of(lowered@),
{
    proof {
        reveal_strlit("sp2p");
    }
    VersionRequest {
        protocol_version: 6,
        services: 0,
        timestamp,
        id,
        user_agent: String::from_str("sp2p"),
        disable_relay_tx: true,
        network: network_tag(lowered),
    }
}

/// The announcement for the network `network` (any case), at `timestamp`,
/// with a fresh random node id.
pub fn dummy_version_request(network: &str, timestamp: i64) -> (r: VersionRequest)
    ensures
        r.protocol_version == 6,
        r.services == 0,
        r.timestamp == timestamp,
        r.id@.len() == 16,
        0x40 <= r.id@[6] < 0x50,
        0x80 <= r.id@[8] < 0xc0,
        r.user_agent@ == user_agent_text(),
        r.disable_relay_tx,
        r.network@ == network_tag_of(lowercase(network@)),
{
    let lowered = to_lowercase(network);
    let id = random_node_id();
    version_request_with(lowered.as_str(), timestamp, id)
}

} // verus!
