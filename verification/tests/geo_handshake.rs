use sp2p::geo::{geolocation_url, host_of, located, GeoAction, Geolocation};
use sp2p::handshake::{dummy_version_request, network_tag, version_request_with};
use sp2p::models::{NodeData, NodeMetadata};
use sp2p::update::{next_update_step, published, UpdateStep};

fn node(ip: &str, loc: Option<&str>) -> NodeData {
    NodeData {
        ip: ip.to_string(),
        metadata: NodeMetadata {
            protocol_version: 6,
            network: "spectre-mainnet".to_string(),
            services: 0,
            timestamp: "t".to_string(),
            id: "00".to_string(),
            user_agent: "u".to_string(),
            disable_relay_tx: true,
        },
        loc: loc.map(|s| s.to_string()),
    }
}

fn fetch_url(a: &GeoAction) -> (Option<String>, bool) {
    match a {
        GeoAction::Fetch { url, pause_first } => (Some(url.clone()), *pause_first),
        GeoAction::Finish { pause_first } => (None, *pause_first),
    }
}

#[test]
fn host_is_text_before_first_colon() {
    assert_eq!(host_of("1.2.3.4:18111"), "1.2.3.4");
    assert_eq!(host_of("1.2.3.4"), "1.2.3.4");
    assert_eq!(host_of("2001:db8::1:18111"), "2001");
    assert_eq!(host_of(":80"), "");
    assert_eq!(host_of(""), "");
}

#[test]
fn url_names_host() {
    assert_eq!(
        geolocation_url("8.8.8.8:18111"),
        "http://ip-api.com/json/8.8.8.8?fields=lat,lon,status"
    );
}

#[test]
fn answer_located_only_on_success_with_coordinates() {
    assert_eq!(
        located(Some("success".to_string()), Some("1.5,2.25".to_string())),
        Some("1.5,2.25".to_string())
    );
    assert_eq!(located(Some("success".to_string()), None), None);
    assert_eq!(located(Some("fail".to_string()), Some("1,2".to_string())), None);
    assert_eq!(located(None, Some("1,2".to_string())), None);
}

#[test]
fn geolocation_of_no_nodes_finishes_at_once() {
    let (g, a) = Geolocation::new(vec![]);
    assert_eq!(fetch_url(&a), (None, false));
    assert!(!g.in_progress());
    assert!(g.into_nodes().is_empty());
}

#[test]
fn geolocation_tries_each_node_three_times() {
    let (mut g, a) = Geolocation::new(vec![node("1.1.1.1:1", Some("old")), node("2.2.2.2:2", None)]);
    let u1 = "http://ip-api.com/json/1.1.1.1?fields=lat,lon,status".to_string();
    let u2 = "http://ip-api.com/json/2.2.2.2?fields=lat,lon,status".to_string();
    assert_eq!(fetch_url(&a), (Some(u1.clone()), false));
    assert_eq!(fetch_url(&g.after_attempt(None)), (Some(u1.clone()), true));
    assert_eq!(fetch_url(&g.after_attempt(None)), (Some(u1.clone()), true));
    // third failure: the node keeps its earlier location, the next one starts
    assert_eq!(fetch_url(&g.after_attempt(None)), (Some(u2.clone()), true));
    assert_eq!(fetch_url(&g.after_attempt(None)), (Some(u2.clone()), true));
    assert_eq!(fetch_url(&g.after_attempt(Some("3,4".to_string()))), (None, true));
    assert!(!g.in_progress());
    let nodes = g.into_nodes();
    assert_eq!(nodes.len(), 2);
    assert_eq!(nodes[0].ip, "1.1.1.1:1");
    assert_eq!(nodes[0].loc.as_deref(), Some("old"));
    assert_eq!(nodes[1].ip, "2.2.2.2:2");
    assert_eq!(nodes[1].loc.as_deref(), Some("3,4"));
}

#[test]
fn network_tag_prefixes_spectre() {
    assert_eq!(network_tag("testnet-11"), "spectre-testnet-11");
}

#[test]
fn version_request_fields() {
    let r = version_request_with("mainnet", 42, vec![1, 2, 3]);
    assert_eq!(r.protocol_version, 6);
    assert_eq!(r.services, 0);
    assert_eq!(r.timestamp, 42);
    assert_eq!(r.id, vec![1, 2, 3]);
    assert_eq!(r.user_agent, "sp2p");
    assert!(r.disable_relay_tx);
    assert_eq!(r.network, "spectre-mainnet");
}

#[test]
fn dummy_version_lowercases_network_and_draws_v4_id() {
    let r = dummy_version_request("TestNet-11", 7);
    assert_eq!(r.network, "spectre-testnet-11");
    assert_eq!(r.timestamp, 7);
    assert_eq!(r.id.len(), 16);
    assert_eq!(r.id[6] >> 4, 4);
    assert_eq!(r.id[8] >> 6, 2);
    let s = dummy_version_request("MAINNET", 7);
    assert_ne!(r.id, s.id);
}

/// Runs a geolocation, node `j` getting the outcomes `outs[j]` in order.
fn run_geo(nodes: Vec<NodeData>, outs: &[Vec<Option<&str>>]) -> Vec<(String, Option<String>)> {
    let (mut g, mut a) = Geolocation::new(nodes);
    let mut tries = vec![0usize; outs.len()];
    while let GeoAction::Fetch { .. } = a {
        let j = g.nodes_done();
        let out = outs[j].get(tries[j]).cloned().flatten().map(|s| s.to_string());
        tries[j] += 1;
        a = g.after_attempt(out);
    }
    g.into_nodes().into_iter().map(|n| (n.ip, n.loc)).collect()
}

#[test]
fn geolocation_of_joined_lists_is_joined_geolocation() {
    let a = || vec![node("1.1.1.1:1", None), node("2.2.2.2:2", Some("old"))];
    let b = || vec![node("3.3.3.3:3", None)];
    let oa = vec![vec![None, Some("1,1")], vec![None, None, None, Some("late")]];
    let ob = vec![vec![Some("3,3")]];
    let mut joined_nodes = a();
    joined_nodes.extend(b());
    let mut joined_outs = oa.clone();
    joined_outs.extend(ob.clone());
    let whole = run_geo(joined_nodes, &joined_outs);
    let mut parts = run_geo(a(), &oa);
    parts.extend(run_geo(b(), &ob));
    assert_eq!(whole, parts);
    assert_eq!(
        whole,
        vec![
            ("1.1.1.1:1".to_string(), Some("1,1".to_string())),
            ("2.2.2.2:2".to_string(), Some("old".to_string())),
            ("3.3.3.3:3".to_string(), Some("3,3".to_string())),
        ]
    );
}

#[test]
fn update_cycle_crawls_publishes_and_waits_a_day() {
    assert_eq!(next_update_step(UpdateStep::Crawl), UpdateStep::Publish);
    assert_eq!(next_update_step(UpdateStep::Publish), UpdateStep::Wait { secs: 86400 });
    assert_eq!(next_update_step(UpdateStep::Wait { secs: 86400 }), UpdateStep::Crawl);
    let served = published(vec![node("1.1.1.1:1", None)], vec![node("2.2.2.2:2", None)]);
    assert_eq!(served.len(), 1);
    assert_eq!(served[0].ip, "2.2.2.2:2");
}

/// The queries a geolocation makes, node `j` getting the outcomes `outs[j]`.
fn geo_queries(nodes: Vec<NodeData>, outs: &[Vec<Option<&str>>]) -> Vec<String> {
    let (mut g, mut a) = Geolocation::new(nodes);
    let mut tries = vec![0usize; outs.len()];
    let mut urls = Vec::new();
    while let GeoAction::Fetch { url, .. } = a {
        urls.push(url);
        let j = g.nodes_done();
        let out = outs[j].get(tries[j]).cloned().flatten().map(|s| s.to_string());
        tries[j] += 1;
        a = g.after_attempt(out);
    }
    urls
}

#[test]
fn geolocation_queries_of_joined_lists_are_joined() {
    let a = || vec![node("1.1.1.1:1", None), node("2.2.2.2:2", None)];
    let b = || vec![node("3.3.3.3:3", None)];
    let oa = vec![vec![None, Some("1,1")], vec![None, None, None]];
    let ob = vec![vec![Some("3,3")]];
    let mut joined_nodes = a();
    joined_nodes.extend(b());
    let mut joined_outs = oa.clone();
    joined_outs.extend(ob.clone());
    let whole = geo_queries(joined_nodes, &joined_outs);
    let mut parts = geo_queries(a(), &oa);
    parts.extend(geo_queries(b(), &ob));
    assert_eq!(whole, parts);
    let u = |h: &str| format!("http://ip-api.com/json/{}?fields=lat,lon,status", h);
    assert_eq!(
        whole,
        vec![u("1.1.1.1"), u("1.1.1.1"), u("2.2.2.2"), u("2.2.2.2"), u("2.2.2.2"), u("3.3.3.3")]
    );
}
