use sp2p::messages::{subscribed_kinds, MessageKind};
use sp2p::address::{IpAddress, NetAddress};
use sp2p::crawl::Crawler;
use sp2p::models::VersionFields;
use sp2p::session::{Listening, PeerEvent, PeerSession};

fn peer(a: u8, port: u16) -> NetAddress {
    NetAddress { ip: IpAddress::V4(u32::from_be_bytes([10, 0, 0, a])), port }
}

fn version(id: Vec<u8>) -> VersionFields {
    VersionFields {
        protocol_version: 6,
        network: "spectre-mainnet".to_string(),
        services: 3,
        timestamp: 1_700_000_000_000,
        address: None,
        id,
        user_agent: "/spectred:0.3/".to_string(),
        disable_relay_tx: false,
        subnetwork_id: None,
    }
}

#[test]
fn session_collects_readable_addresses_in_normal_form() {
    let mut s = PeerSession::new("10.0.0.1:18111".to_string());
    let mapped = NetAddress {
        ip: IpAddress::V6(0xffff_0a00_0002u128),
        port: 18111,
    };
    assert_eq!(
        s.on_event_at(PeerEvent::Addresses(vec![Some(peer(3, 1)), None, Some(mapped)]), String::new()),
        Listening::Continue
    );
    assert_eq!(s.on_event_at(PeerEvent::Other, String::new()), Listening::Continue);
    assert_eq!(
        s.on_event_at(PeerEvent::Version(version(vec![0xab, 0x01])), "2024-01-01T00:00:00+00:00".to_string()),
        Listening::Continue
    );
    assert_eq!(s.on_event_at(PeerEvent::Closed, String::new()), Listening::Stop);
    let rep = s.finish().expect("version was received");
    assert_eq!(rep.url, "10.0.0.1:18111");
    assert_eq!(rep.peers, vec![peer(3, 1), peer(2, 18111)]);
    assert_eq!(rep.metadata.id, "ab01");
    assert_eq!(rep.metadata.timestamp, "2024-01-01T00:00:00+00:00");
    assert_eq!(rep.metadata.network, "spectre-mainnet");
    assert_eq!(rep.metadata.services, 3);
    assert_eq!(rep.metadata.protocol_version, 6);
    assert_eq!(rep.metadata.user_agent, "/spectred:0.3/");
    assert!(!rep.metadata.disable_relay_tx);
}

#[test]
fn session_without_version_is_not_reached() {
    let mut s = PeerSession::new("10.0.0.1:1".to_string());
    s.on_event_at(PeerEvent::Addresses(vec![Some(peer(3, 1))]), String::new());
    assert_eq!(s.on_event_at(PeerEvent::TimedOut, String::new()), Listening::Stop);
    assert!(s.finish().is_none());
}

#[test]
fn session_keeps_repeated_addresses() {
    let mut s = PeerSession::new("x".to_string());
    s.on_event_at(PeerEvent::Addresses(vec![Some(peer(3, 1))]), String::new());
    s.on_event_at(PeerEvent::Addresses(vec![Some(peer(3, 1))]), String::new());
    s.on_event_at(PeerEvent::Version(version(vec![])), String::new());
    let rep = s.finish().unwrap();
    assert_eq!(rep.peers, vec![peer(3, 1), peer(3, 1)]);
}

#[test]
fn session_stamps_version_with_clock() {
    let mut s = PeerSession::new("x".to_string());
    assert_eq!(s.on_event(PeerEvent::Version(version(vec![1]))), Listening::Continue);
    let rep = s.finish().unwrap();
    assert!(rep.metadata.timestamp.len() >= 25);
    assert!(rep.metadata.timestamp.ends_with("+00:00"));
    assert_eq!(&rep.metadata.timestamp[10..11], "T");
    assert_eq!(rep.metadata.id, "01");
}

fn reached(url: &str, peers: Vec<NetAddress>) -> Option<sp2p::session::PeerReport> {
    let mut s = PeerSession::new(url.to_string());
    s.on_event_at(PeerEvent::Addresses(peers.into_iter().map(Some).collect()), String::new());
    s.on_event_at(PeerEvent::Version(version(vec![7])), "t".to_string());
    s.finish()
}

#[test]
fn crawl_queues_each_peer_once() {
    let mut c = Crawler::new("10.0.0.1:18111".to_string());
    assert!(c.has_pending());
    let round = c.take_round();
    assert_eq!(round, vec!["10.0.0.1:18111".to_string()]);
    assert!(!c.has_pending());
    let queued = c.record(reached("10.0.0.1:18111", vec![peer(2, 18111), peer(3, 18111), peer(2, 18111)]));
    assert_eq!(queued, vec!["10.0.0.2:18111".to_string(), "10.0.0.3:18111".to_string()]);
    let round = c.take_round();
    assert_eq!(round, vec!["10.0.0.2:18111".to_string(), "10.0.0.3:18111".to_string()]);
    // both report each other and a new one; a node that is not reached adds nothing
    c.record(reached("10.0.0.2:18111", vec![peer(3, 18111), peer(4, 18111)]));
    assert!(c.record(None).is_empty());
    c.record(reached("10.0.0.3:18111", vec![peer(2, 18111), peer(4, 18111)]));
    let round = c.take_round();
    assert_eq!(round, vec!["10.0.0.4:18111".to_string()]);
    c.record(reached("10.0.0.4:18111", vec![peer(2, 18111)]));
    assert!(!c.has_pending());
    let results = c.into_results();
    let ips: Vec<&str> = results.iter().map(|n| n.ip.as_str()).collect();
    assert_eq!(ips, vec!["10.0.0.1:18111", "10.0.0.2:18111", "10.0.0.3:18111", "10.0.0.4:18111"]);
    assert!(results.iter().all(|n| n.loc.is_none() && n.metadata.id == "07"));
}

#[test]
fn crawl_may_requery_its_start_node() {
    // the start node is not a discovered peer, so a report of it queues it
    let mut c = Crawler::new("10.0.0.1:5".to_string());
    c.take_round();
    c.record(reached("10.0.0.1:5", vec![peer(1, 5)]));
    assert_eq!(c.take_round(), vec!["10.0.0.1:5".to_string()]);
    c.record(reached("10.0.0.1:5", vec![peer(1, 5)]));
    assert!(!c.has_pending());
}

#[test]
fn version_report_normalises_address_and_hex_encodes() {
    let mut v = version(vec![0xde, 0xad, 0x00]);
    v.address = Some(NetAddress { ip: IpAddress::V6(0xffff_c0a8_0001u128), port: 18111 });
    v.subnetwork_id = Some(vec![0x01, 0x02]);
    let r = sp2p::models::version_report(&v);
    assert_eq!(r.address, Some(NetAddress { ip: IpAddress::V4(0xc0a8_0001), port: 18111 }));
    assert_eq!(r.id, "dead00");
    assert_eq!(r.subnetwork_id.as_deref(), Some("0102"));
    assert_eq!(r.timestamp.as_deref(), Some("2023-11-14T22:13:20Z"));
    assert_eq!(r.network, "spectre-mainnet");
    assert_eq!(r.user_agent, "/spectred:0.3/");
    let plain = sp2p::models::version_report(&version(vec![]));
    assert_eq!(plain.address, None);
    assert_eq!(plain.subnetwork_id, None);
    assert_eq!(plain.id, "");
}

#[test]
fn metadata_records_time_of_receipt() {
    let m = sp2p::models::node_metadata_at(&version(vec![0x10]), "now".to_string());
    assert_eq!(m.timestamp, "now");
    assert_eq!(m.id, "10");
    assert_eq!(m.services, 3);
}

fn run_session(events: Vec<PeerEvent>) -> Option<(Vec<NetAddress>, String)> {
    let mut s = PeerSession::new("p".to_string());
    for e in events {
        if s.on_event_at(e, "t".to_string()) == Listening::Stop {
            break;
        }
    }
    s.finish().map(|r| (r.peers, r.metadata.id))
}

#[test]
fn unrelated_messages_change_nothing() {
    let plain = run_session(vec![
        PeerEvent::Addresses(vec![Some(peer(5, 1))]),
        PeerEvent::Version(version(vec![9])),
        PeerEvent::Closed,
        PeerEvent::Addresses(vec![Some(peer(6, 1))]),
    ]);
    let noisy = run_session(vec![
        PeerEvent::Other,
        PeerEvent::Addresses(vec![Some(peer(5, 1))]),
        PeerEvent::Other,
        PeerEvent::Other,
        PeerEvent::Version(version(vec![9])),
        PeerEvent::Other,
        PeerEvent::Closed,
        PeerEvent::Addresses(vec![Some(peer(6, 1))]),
    ]);
    assert_eq!(plain, noisy);
    assert_eq!(plain, Some((vec![peer(5, 1)], "09".to_string())));
}

#[test]
fn version_report_dates() {
    let mut v = version(vec![]);
    v.timestamp = 1_500;
    assert_eq!(sp2p::models::version_report(&v).timestamp.as_deref(), Some("1970-01-01T00:00:01.500Z"));
    v.timestamp = i64::MAX;
    assert_eq!(sp2p::models::version_report(&v).timestamp, None);
    let r = sp2p::models::version_report_with(&version(vec![]), Some("d".to_string()));
    assert_eq!(r.timestamp.as_deref(), Some("d"));
}

#[test]
fn subscription_leaves_out_handshake_kinds() {
    let kinds = subscribed_kinds();
    assert_eq!(kinds.len(), 40);
    assert_eq!(kinds[0], MessageKind::Addresses);
    assert_eq!(kinds[39], MessageKind::RequestNextPruningPointAndItsAnticoneBlocks);
    assert!(!kinds.contains(&MessageKind::Version));
    assert!(!kinds.contains(&MessageKind::Verack));
    assert!(!kinds.contains(&MessageKind::Ready));
}
