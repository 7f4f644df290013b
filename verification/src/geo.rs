//! Locating the crawled nodes, one after the other, by the IP address they
//! were reached at.  Each node gets up to three attempts, with a pause of a
//! second before each retry and after each node.

use vstd::prelude::*;
use crate::models::{opt_view, NodeData, NodeDataView};

verus! {

/// The host of an address: everything before its first `:`, or the whole
/// text where there is none.
pub open spec fn host_part(s: Seq<char>) -> Seq<char> {
    s.take(host_end(s, 0))
}

/// The index of the first `:` at or after `i`, or the length where there is
/// none.
pub open spec fn host_end(s: Seq<char>, i: int) -> int
    decreases s.len() - i,
{
    if i < 0 || i >= s.len() {
        s.len() as int
    } else if s[i] == ':' {
        i
    } else {
        host_end(s, i + 1)
    }
}

/// The query that locates the host of `ip`.
pub open spec fn geolocation_url_of(ip: Seq<char>) -> Seq<char> {
    "http://ip-api.com/json/"@ + host_part(ip) + "?fields=lat,lon,status"@
}

proof fn host_end_bounds(s: Seq<char>, i: int)
    requires
        0 <= i <= s.len(),
    ensures
        i <= host_end(s, i) <= s.len(),
    decreases s.len() - i,
{
    if i < s.len() && s[i] != ':' {
        host_end_bounds(s, i + 1);
    }
}

/// The host of an address: everything before its first `:`.
pub fn host_of(ip: &str) -> (r: String)
    ensures
        r@ == host_part(ip@),
{
    let n = ip.unicode_len();
    let mut i: usize = 0;
    while i < n && ip.get_char(i) != ':'
        invariant
            n == ip@.len(),
            i <= n,
            host_end(ip@, i as int) == host_end(ip@, 0),
        decreases n - i,
    {
        i = i + 1;
    }
    proof {
        host_end_bounds(ip@, 0);
    }
    String::from_str(ip.substring_char(0, i))
}

/// The query that locates the host of the address `ip`:
/// `http://ip-api.com/json/<host>?fields=lat,lon,status`.
pub fn geolocation_url(ip: &str) -> (r: String)
    ensures
        r@ == geolocation_url_of(ip@),
{
    let mut url = String::from_str("http://ip-api.com/json/");
    let host = host_of(ip);
    url.append(host.as_str());
    url.append("?fields=lat,lon,status");
    proof {
        reveal_strlit("http://ip-api.com/json/");
        reveal_strlit("?fields=lat,lon,status");
    }
    url
}

/// The location an answer gives: its coordinates, where its status is
/// `success` and it holds both coordinates.
pub open spec fn answer_location(status: Option<Seq<char>>, coords: Option<Seq<char>>) -> Option<
    Seq<char>,
> {
    if status == Some("success"@) {
        coords
    } else {
        None
    }
}

/// The location given by an answer with the status `status` and the
/// coordinates `coords` (`lat,lon`, `None` where the answer lacks either).
pub fn located(status: Option<String>, coords: Option<String>) -> (r: Option<String>)
    ensures
        opt_view(r) == answer_location(opt_view(status), opt_view(coords)),
{
    proof {
        reveal_strlit("success");
    }
    match status {
        Some(st) => {
            let success = String::from_str("success");
            if st == success {
                coords
            } else {
                None
            }
        },
        None => None,
    }
}

/// What to do next.
pub enum GeoAction {
    /// Query `url`; after a pause of a second first, where `pause_first`.
    Fetch { url: String, pause_first: bool },
    /// Every node is done; pause a second first, where `pause_first`.
    Finish { pause_first: bool },
}

/// The mathematical value of a `GeoAction`.
pub enum GeoActionView {
    Fetch { url: Seq<char>, pause_first: bool },
    Finish { pause_first: bool },
}

impl View for GeoAction {
    type V = GeoActionView;

    open spec fn view(&self) -> GeoActionView {
        match self {
            GeoAction::Fetch { url, pause_first } => GeoActionView::Fetch {
                url: url@,
                pause_first: *pause_first,
            },
            GeoAction::Finish { pause_first } => GeoActionView::Finish {
                pause_first: *pause_first,
            },
        }
    }
}

/// The state of a geolocation run.
pub struct Geolocation {
    nodes: Vec<NodeData>,
    next: usize,
    retries_left: u8,
    done: Vec<NodeData>,
}

/// The mathematical value of a `Geolocation`.
pub struct GeoView {
    /// The nodes to locate, in order.
    pub nodes: Seq<NodeDataView>,
    /// How many nodes are done.
    pub next: nat,
    /// How many attempts the current node has left.
    pub retries_left: nat,
    /// The nodes done, in order, with their locations.
    pub done: Seq<NodeDataView>,
}

/// The action that follows once `next` nodes are done.
pub open spec fn after_node(nodes: Seq<NodeDataView>, next: nat) -> GeoActionView {
    if next < nodes.len() {
        GeoActionView::Fetch { url: geolocation_url_of(nodes[next as int].ip), pause_first: true }
    } else {
        GeoActionView::Finish { pause_first: true }
    }
}

/// The state and action after an attempt on the current node that found
/// `loc`: a location ends the node with it; a failure retries the node
/// while attempts are left, and otherwise ends it with the location it had.
pub open spec fn geo_step(s: GeoView, loc: Option<Seq<char>>) -> (GeoView, GeoActionView) {
    let node = s.nodes[s.next as int];
    match loc {
        Some(l) => {
            let t = GeoView {
                next: s.next + 1,
                retries_left: 3,
                done: s.done.push(NodeDataView { loc: Some(l), ..node }),
                ..s
            };
            (t, after_node(s.nodes, t.next))
        },
        None => if s.retries_left > 1 {
            (
                GeoView { retries_left: (s.retries_left - 1) as nat, ..s },
                GeoActionView::Fetch { url: geolocation_url_of(node.ip), pause_first: true },
            )
        } else {
            let t = GeoView { next: s.next + 1, retries_left: 3, done: s.done.push(node), ..s };
            (t, after_node(s.nodes, t.next))
        },
    }
}

/// Whether a geolocation state is one a run can reach: the done nodes are
/// the first nodes, in order, with only their locations changed, and the
/// current node has one to three attempts left.
pub open spec fn geo_wf(s: GeoView) -> bool {
    &&& s.next <= s.nodes.len()
    &&& s.done.len() == s.next
    &&& 1 <= s.retries_left <= 3
    &&& forall|j: int|
        0 <= j < s.next ==> (#[trigger] s.done[j]).ip == s.nodes[j].ip && s.done[j].metadata
            == s.nodes[j].metadata
}

impl View for Geolocation {
    type V = GeoView;

    closed spec fn view(&self) -> GeoView {
        GeoView {
            nodes: self.nodes@.map_values(|n: NodeData| n@),
            next: self.next as nat,
            retries_left: self.retries_left as nat,
            done: self.done@.map_values(|n: NodeData| n@),
        }
    }
}

impl Geolocation {
    /// Whether the state is one a run can reach.
    pub closed spec fn wf(&self) -> bool {
        &&& geo_wf(self@)
        &&& self.next <= self.nodes@.len()
        &&& self.done@.len() == self.next
    }

    /// A run over `nodes`, and its first action: query the first node, or
    /// finish at once where there is none.
    pub fn new(nodes: Vec<NodeData>) -> (r: (Geolocation, GeoAction))
        ensures
            r.0.wf(),
            r.0@.nodes == nodes@.map_values(|n: NodeData| n@),
            r.0@.next == 0,
            r.0@.retries_left == 3,
            r.0@.done == Seq::<NodeDataView>::empty(),
            r.1@ == (if nodes@.len() > 0 {
                GeoActionView::Fetch { url: geolocation_url_of(nodes@[0].ip@), pause_first: false }
            } else {
                GeoActionView::Finish { pause_first: false }
            }),
    {
        let action = if nodes.len() > 0 {
            GeoAction::Fetch { url: geolocation_url(nodes[0].ip.as_str()), pause_first: false }
        } else {
            GeoAction::Finish { pause_first: false }
        };
        let g = Geolocation { nodes, next: 0, retries_left: 3, done: Vec::new() };
        assert(g@.done =~= Seq::<NodeDataView>::empty());
        (g, action)
    }

    /// Whether a node is being located.
    pub fn in_progress(&self) -> (r: bool)
        requires
            self.wf(),
        ensures
            r == (self@.next < self@.nodes.len()),
    {
        self.next < self.nodes.len()
    }

    /// How many nodes are done.
    pub fn nodes_done(&self) -> (r: usize)
        ensures
            r == self@.next,
    {
        self.next
    }

    fn action_after_node(&self) -> (a: GeoAction)
        requires
            self.next <= self.nodes@.len(),
        ensures
            a@ == after_node(self@.nodes, self@.next),
    {
        if self.next < self.nodes.len() {
            GeoAction::Fetch {
                url: geolocation_url(self.nodes[self.next].ip.as_str()),
                pause_first: true,
            }
        } else {
            GeoAction::Finish { pause_first: true }
        }
    }

    /// Takes the outcome of an attempt on the current node: the location
    /// found, or `None` where the attempt failed.
    pub fn after_attempt(&mut self, loc: Option<String>) -> (a: GeoAction)
        requires
            old(self).wf(),
            old(self)@.next < old(self)@.nodes.len(),
        ensures
            final(self).wf(),
            (final(self)@, a@) == geo_step(old(self)@, opt_view(loc)),
    {
        let ghost old_view = self@;
        let i = self.next;
        let n = self.nodes.len();
        assert(i < n);
        match loc {
            Some(l) => {
                let node = self.nodes[i].with_location(Some(l));
                self.done.push(node);
                self.next = i + 1;
                self.retries_left = 3;
                proof {
                    assert(self@.done =~= old_view.done.push(
                        NodeDataView { loc: opt_view(loc), ..old_view.nodes[i as int] },
                    ));
                }
                self.action_after_node()
            },
            None => {
                if self.retries_left > 1 {
                    self.retries_left = self.retries_left - 1;
                    GeoAction::Fetch {
                        url: geolocation_url(self.nodes[i].ip.as_str()),
                        pause_first: true,
                    }
                } else {
                    let node = self.nodes[i].duplicate();
                    self.done.push(node);
                    self.next = i + 1;
                    self.retries_left = 3;
                    proof {
                        assert(self@.done =~= old_view.done.push(old_view.nodes[i as int]));
                    }
                    self.action_after_node()
                }
            },
        }
    }

    /// The nodes done, in order, with their locations.
    pub fn into_nodes(self) -> (r: Vec<NodeData>)
        ensures
            r@.map_values(|n: NodeData| n@) == self@.done,
    {
        self.done
    }
}

/// The state after `k` failed attempts in a row.
pub open spec fn after_failures(s: GeoView, k: nat) -> GeoView
    decreases k,
{
    if k == 0 {
        s
    } else {
        geo_step(after_failures(s, (k - 1) as nat), None).0
    }
}

/// Every step keeps a reachable state reachable: the nodes stay as given,
/// and every node done is one of them, in order, with only its location
/// changed.
pub proof fn law_step_keeps_nodes(s: GeoView, loc: Option<Seq<char>>)
    requires
        geo_wf(s),
        s.next < s.nodes.len(),
    ensures
        geo_wf(geo_step(s, loc).0),
        geo_step(s, loc).0.nodes == s.nodes,
        geo_step(s, loc).0.done.len() >= s.done.len(),
        geo_step(s, loc).0.done.subrange(0, s.done.len() as int) == s.done,
{
    let t = geo_step(s, loc).0;
    assert(t.done.subrange(0, s.done.len() as int) =~= s.done);
}

/// No node is attempted more than three times: a node with `k` attempts
/// left stays current through fewer than `k` failures and is done, with the
/// location it had, after `k`.
pub proof fn law_attempts_bounded(s: GeoView, j: nat)
    requires
        geo_wf(s),
        s.next < s.nodes.len(),
        j <= s.retries_left,
    ensures
        j < s.retries_left ==> after_failures(s, j) == (GeoView {
            retries_left: (s.retries_left - j) as nat,
            ..s
        }),
        j == s.retries_left ==> after_failures(s, j) == (GeoView {
            next: s.next + 1,
            retries_left: 3,
            done: s.done.push(s.nodes[s.next as int]),
            ..s
        }),
    decreases j,
{
    if j > 0 {
        law_attempts_bounded(s, (j - 1) as nat);
    }
}

/// The outcome of attempt `k` on a node, from the outcomes its queries
/// give in order: a failure where no outcome is given.
pub open spec fn attempt_outcome(o: Seq<Option<Seq<char>>>, k: int) -> Option<Seq<char>> {
    if 0 <= k < o.len() {
        o[k]
    } else {
        None
    }
}

/// A node located by its attempts from attempt `k` on (of three): with the
/// first location an attempt finds, or as it was where all fail.
pub open spec fn locate_from(node: NodeDataView, o: Seq<Option<Seq<char>>>, k: int) -> NodeDataView
    decreases 3 - k,
{
    if k < 0 || k >= 3 {
        node
    } else {
        match attempt_outcome(o, k) {
            Some(l) => NodeDataView { loc: Some(l), ..node },
            None => if k < 2 {
                locate_from(node, o, k + 1)
            } else {
                node
            },
        }
    }
}

/// Every node located on its own, node `j` by the outcomes `outs[j]`.
pub open spec fn geolocated(nodes: Seq<NodeDataView>, outs: Seq<Seq<Option<Seq<char>>>>) -> Seq<
    NodeDataView,
> {
    Seq::new(nodes.len(), |j: int| locate_from(nodes[j], outs[j], 0))
}

/// The state a run over `nodes` starts in.
pub open spec fn geo_start(nodes: Seq<NodeDataView>) -> GeoView {
    GeoView { nodes, next: 0, retries_left: 3, done: Seq::empty() }
}

/// The state after at most `fuel` attempts, each attempt on node `j`
/// taking its outcome from `outs[j]`, in order.
pub open spec fn geo_run(s: GeoView, outs: Seq<Seq<Option<Seq<char>>>>, fuel: nat) -> GeoView
    decreases fuel,
{
    if fuel == 0 || s.next >= s.nodes.len() {
        s
    } else {
        geo_run(
            geo_step(s, attempt_outcome(outs[s.next as int], 3 - s.retries_left)).0,
            outs,
            (fuel - 1) as nat,
        )
    }
}

/// How many attempts a run has left at most.
spec fn attempts_left(s: GeoView) -> int {
    if s.next < s.nodes.len() {
        3 * (s.nodes.len() - s.next - 1) + s.retries_left
    } else {
        0
    }
}

/// After failed attempts only, locating from the next attempt is locating
/// from the first.
proof fn lemma_failed_prefix(node: NodeDataView, o: Seq<Option<Seq<char>>>, k: int)
    requires
        0 <= k <= 2,
        forall|i: int| 0 <= i < k ==> #[trigger] attempt_outcome(o, i) is None,
    ensures
        locate_from(node, o, 0) == locate_from(node, o, k),
    decreases k,
{
    if k > 0 {
        assert(attempt_outcome(o, k - 1) is None);
        lemma_failed_prefix(node, o, k - 1);
    }
}

/// A run that has located its first nodes as `geolocated` says, and whose
/// current node has only failed so far, ends with every node located so.
proof fn lemma_geo_run(s: GeoView, outs: Seq<Seq<Option<Seq<char>>>>, fuel: nat)
    requires
        geo_wf(s),
        outs.len() == s.nodes.len(),
        s.done == geolocated(s.nodes, outs).take(s.next as int),
        s.next < s.nodes.len() ==> forall|i: int|
            0 <= i < 3 - s.retries_left ==> #[trigger] attempt_outcome(outs[s.next as int], i) is None,
        fuel >= attempts_left(s),
    ensures
        geo_run(s, outs, fuel).done == geolocated(s.nodes, outs),
        geo_run(s, outs, fuel).next == s.nodes.len(),
    decreases fuel,
{
    let g = geolocated(s.nodes, outs);
    if s.next >= s.nodes.len() {
        assert(g.take(s.next as int) =~= g);
    } else {
        let j = s.next as int;
        let k = 3 - s.retries_left;
        let o = outs[j];
        let out = attempt_outcome(o, k);
        let t = geo_step(s, out).0;
        lemma_failed_prefix(s.nodes[j], o, k);
        law_step_keeps_nodes(s, out);
        assert(g[j] == locate_from(s.nodes[j], o, 0));
        if t.next == s.next + 1 {
            assert(g.take(j + 1) =~= g.take(j).push(g[j]));
            assert(t.done == g.take(t.next as int));
        } else {
            assert forall|i: int| 0 <= i < 3 - t.retries_left implies #[trigger] attempt_outcome(
                outs[t.next as int],
                i,
            ) is None by {
                if i < k {
                    assert(attempt_outcome(o, i) is None);
                }
            }
        }
        lemma_geo_run(t, outs, (fuel - 1) as nat);
    }
}

/// A whole run locates every node on its own: node `j` from the outcomes of
/// its own queries, with the first location they find or as it was.
pub proof fn law_geolocation_run(nodes: Seq<NodeDataView>, outs: Seq<Seq<Option<Seq<char>>>>)
    requires
        outs.len() == nodes.len(),
    ensures
        geo_run(geo_start(nodes), outs, 3 * nodes.len()).done == geolocated(nodes, outs),
        geo_run(geo_start(nodes), outs, 3 * nodes.len()).next == nodes.len(),
{
    let s = geo_start(nodes);
    assert(geolocated(nodes, outs).take(0) =~= Seq::<NodeDataView>::empty());
    lemma_geo_run(s, outs, 3 * nodes.len());
}

/// Locating two lists one after the other gives what locating them joined
/// gives, when each node's queries give the same outcomes.
pub proof fn law_geolocation_concat(
    a: Seq<NodeDataView>,
    b: Seq<NodeDataView>,
    oa: Seq<Seq<Option<Seq<char>>>>,
    ob: Seq<Seq<Option<Seq<char>>>>,
)
    requires
        oa.len() == a.len(),
        ob.len() == b.len(),
    ensures
        geo_run(geo_start(a + b), oa + ob, 3 * (a.len() + b.len())).done == geo_run(
            geo_start(a),
            oa,
            3 * a.len(),
        ).done + geo_run(geo_start(b), ob, 3 * b.len()).done,
{
    law_geolocation_run(a + b, oa + ob);
    law_geolocation_run(a, oa);
    law_geolocation_run(b, ob);
    assert(3 * (a + b).len() == 3 * (a.len() + b.len()));
    let whole = geolocated(a + b, oa + ob);
    let parts = geolocated(a, oa) + geolocated(b, ob);
    assert forall|j: int| 0 <= j < whole.len() implies whole[j] == parts[j] by {
        if j < a.len() {
            assert((a + b)[j] == a[j]);
            assert((oa + ob)[j] == oa[j]);
        } else {
            assert((a + b)[j] == b[j - a.len()]);
            assert((oa + ob)[j] == ob[j - a.len()]);
        }
    }
    assert(whole =~= parts);
}

/// The queries a run makes, in order: for every attempt, the query that
/// locates the node it is made on.
pub open spec fn geo_queries(s: GeoView, outs: Seq<Seq<Option<Seq<char>>>>, fuel: nat) -> Seq<
    Seq<char>,
>
    decreases fuel,
{
    if fuel == 0 || s.next >= s.nodes.len() {
        Seq::empty()
    } else {
        seq![geolocation_url_of(s.nodes[s.next as int].ip)] + geo_queries(
            geo_step(s, attempt_outcome(outs[s.next as int], 3 - s.retries_left)).0,
            outs,
            (fuel - 1) as nat,
        )
    }
}

/// The queries made for one node from attempt `k` on: one per attempt, up
/// to the first that finds a location or the third.
pub open spec fn node_queries(node: NodeDataView, o: Seq<Option<Seq<char>>>, k: int) -> Seq<
    Seq<char>,
>
    decreases 3 - k,
{
    if k < 0 || k >= 3 {
        Seq::empty()
    } else {
        seq![geolocation_url_of(node.ip)] + if attempt_outcome(o, k) is None && k < 2 {
            node_queries(node, o, k + 1)
        } else {
            Seq::empty()
        }
    }
}

/// The queries made for the nodes from `j` on, each node's in turn.
pub open spec fn queries_from(
    nodes: Seq<NodeDataView>,
    outs: Seq<Seq<Option<Seq<char>>>>,
    j: int,
) -> Seq<Seq<char>>
    decreases nodes.len() - j,
{
    if j < 0 || j >= nodes.len() {
        Seq::empty()
    } else {
        node_queries(nodes[j], outs[j], 0) + queries_from(nodes, outs, j + 1)
    }
}

/// A run makes the rest of the current node's queries, then every later
/// node's, in order.
proof fn lemma_geo_queries(s: GeoView, outs: Seq<Seq<Option<Seq<char>>>>, fuel: nat)
    requires
        geo_wf(s),
        outs.len() == s.nodes.len(),
        fuel >= attempts_left(s),
    ensures
        geo_queries(s, outs, fuel) == if s.next < s.nodes.len() {
            node_queries(s.nodes[s.next as int], outs[s.next as int], 3 - s.retries_left)
                + queries_from(s.nodes, outs, s.next as int + 1)
        } else {
            Seq::<Seq<char>>::empty()
        },
    decreases fuel,
{
    if s.next < s.nodes.len() {
        let j = s.next as int;
        let k = 3 - s.retries_left;
        let o = outs[j];
        let out = attempt_outcome(o, k);
        let t = geo_step(s, out).0;
        let u = seq![geolocation_url_of(s.nodes[j].ip)];
        law_step_keeps_nodes(s, out);
        lemma_geo_queries(t, outs, (fuel - 1) as nat);
        let rest = queries_from(s.nodes, outs, j + 1);
        if t.next == s.next + 1 {
            assert(node_queries(s.nodes[j], o, k) =~= u);
            if t.next < s.nodes.len() {
                assert(geo_queries(t, outs, (fuel - 1) as nat) == rest);
            } else {
                assert(rest =~= Seq::<Seq<char>>::empty());
            }
            assert(u + rest =~= node_queries(s.nodes[j], o, k) + rest);
        } else {
            assert(node_queries(s.nodes[j], o, k) == u + node_queries(s.nodes[j], o, k + 1));
            assert(u + (node_queries(s.nodes[j], o, k + 1) + rest) =~= (u + node_queries(
                s.nodes[j],
                o,
                k + 1,
            )) + rest);
        }
    }
}

/// The queries a whole run makes are every node's queries, node after node.
pub proof fn law_geolocation_queries(nodes: Seq<NodeDataView>, outs: Seq<Seq<Option<Seq<char>>>>)
    requires
        outs.len() == nodes.len(),
    ensures
        geo_queries(geo_start(nodes), outs, 3 * nodes.len()) == queries_from(nodes, outs, 0),
{
    lemma_geo_queries(geo_start(nodes), outs, 3 * nodes.len());
}

proof fn lemma_queries_from_tail(
    a: Seq<NodeDataView>,
    b: Seq<NodeDataView>,
    oa: Seq<Seq<Option<Seq<char>>>>,
    ob: Seq<Seq<Option<Seq<char>>>>,
    i: int,
)
    requires
        oa.len() == a.len(),
        ob.len() == b.len(),
        0 <= i <= b.len(),
    ensures
        queries_from(a + b, oa + ob, a.len() + i) == queries_from(b, ob, i),
    decreases b.len() - i,
{
    if i < b.len() {
        assert((a + b)[a.len() + i] == b[i]);
        assert((oa + ob)[a.len() + i] == ob[i]);
        lemma_queries_from_tail(a, b, oa, ob, i + 1);
    }
}

proof fn lemma_queries_from_concat(
    a: Seq<NodeDataView>,
    b: Seq<NodeDataView>,
    oa: Seq<Seq<Option<Seq<char>>>>,
    ob: Seq<Seq<Option<Seq<char>>>>,
    j: int,
)
    requires
        oa.len() == a.len(),
        ob.len() == b.len(),
        0 <= j <= a.len(),
    ensures
        queries_from(a + b, oa + ob, j) == queries_from(a, oa, j) + queries_from(b, ob, 0),
    decreases a.len() - j,
{
    if j == a.len() {
        lemma_queries_from_tail(a, b, oa, ob, 0);
        assert(queries_from(a, oa, j) + queries_from(b, ob, 0) =~= queries_from(b, ob, 0));
    } else {
        assert((a + b)[j] == a[j]);
        assert((oa + ob)[j] == oa[j]);
        lemma_queries_from_concat(a, b, oa, ob, j + 1);
        let q = node_queries(a[j], oa[j], 0);
        assert(q + (queries_from(a, oa, j + 1) + queries_from(b, ob, 0)) =~= (q + queries_from(
            a,
            oa,
            j + 1,
        )) + queries_from(b, ob, 0));
    }
}

/// Locating two lists one after the other makes the queries that locating
/// them joined makes, in the same order, when each node's queries give the
/// same outcomes.
pub proof fn law_geolocation_queries_concat(
    a: Seq<NodeDataView>,
    b: Seq<NodeDataView>,
    oa: Seq<Seq<Option<Seq<char>>>>,
    ob: Seq<Seq<Option<Seq<char>>>>,
)
    requires
        oa.len() == a.len(),
        ob.len() == b.len(),
    ensures
        geo_queries(geo_start(a + b), oa + ob, 3 * (a.len() + b.len())) == geo_queries(
            geo_start(a),
            oa,
            3 * a.len(),
        ) + geo_queries(geo_start(b), ob, 3 * b.len()),
{
    law_geolocation_queries(a + b, oa + ob);
    law_geolocation_queries(a, oa);
    law_geolocation_queries(b, ob);
    assert(3 * (a + b).len() == 3 * (a.len() + b.len()));
    lemma_queries_from_concat(a, b, oa, ob, 0);
}

/// Past a stretch free of `:`, the host ends where that stretch does: at the
/// next `:` or at the end.
proof fn lemma_host_end(s: Seq<char>, i: int, h: int)
    requires
        0 <= i <= h <= s.len(),
        forall|j: int| i <= j < h ==> s[j] != ':',
        h == s.len() || s[h] == ':',
    ensures
        host_end(s, i) == h,
    decreases h - i,
{
    if i < h {
        lemma_host_end(s, i + 1, h);
    }
}

/// The host of an address is exactly the text before its first `:`, or the
/// whole text where it has none; the query locates that host.
pub proof fn law_host_is_before_colon(h: Seq<char>, p: Seq<char>)
    requires
        forall|j: int| 0 <= j < h.len() ==> h[j] != ':',
    ensures
        host_part(h + seq![':'] + p) == h,
        host_part(h) == h,
        geolocation_url_of(h + seq![':'] + p) == "http://ip-api.com/json/"@ + h
            + "?fields=lat,lon,status"@,
        geolocation_url_of(h) == "http://ip-api.com/json/"@ + h + "?fields=lat,lon,status"@,
{
    let s = h + seq![':'] + p;
    assert forall|j: int| 0 <= j < h.len() implies s[j] != ':' by {
        assert(s[j] == h[j]);
    }
    assert(s[h.len() as int] == ':');
    lemma_host_end(s, 0, h.len() as int);
    assert(s.take(h.len() as int) =~= h);
    lemma_host_end(h, 0, h.len() as int);
    assert(h.take(h.len() as int) =~= h);
}

/// An answer locates a node only where its status is `success`, and then
/// with its coordinates.
pub proof fn law_answer_location(status: Option<Seq<char>>, coords: Option<Seq<char>>)
    ensures
        answer_location(status, coords) is Some ==> status == Some("success"@)
            && answer_location(status, coords) == coords,
        status == Some("success"@) ==> answer_location(status, coords) == coords,
        status != Some("success"@) ==> answer_location(status, coords) is None,
{
}

/// A node is located by the first of its three attempts that finds a
/// location, with that location and otherwise unchanged.
pub proof fn law_first_location_wins(
    node: NodeDataView,
    o: Seq<Option<Seq<char>>>,
    k: int,
    l: Seq<char>,
)
    requires
        0 <= k < 3,
        forall|i: int| 0 <= i < k ==> #[trigger] attempt_outcome(o, i) is None,
        attempt_outcome(o, k) == Some(l),
    ensures
        locate_from(node, o, 0).ip == node.ip,
        locate_from(node, o, 0).metadata == node.metadata,
        locate_from(node, o, 0).loc == Some(l),
{
    lemma_failed_prefix(node, o, k);
}

/// A node whose three attempts all fail keeps its earlier location.
pub proof fn law_all_attempts_fail(node: NodeDataView, o: Seq<Option<Seq<char>>>)
    requires
        attempt_outcome(o, 0) is None,
        attempt_outcome(o, 1) is None,
        attempt_outcome(o, 2) is None,
    ensures
        locate_from(node, o, 0) == node,
{
    lemma_failed_prefix(node, o, 2);
}

/// One attempt on the current node: a location ends the node with that
/// location; a failure retries the same query after a pause while attempts
/// are left, and otherwise ends the node as it was; a node that ends is
/// followed, after a pause, by the query of the next node or by the end.
pub proof fn law_attempt(s: GeoView, loc: Option<Seq<char>>)
    requires
        geo_wf(s),
        s.next < s.nodes.len(),
    ensures
        ({
            let (t, a) = geo_step(s, loc);
            let node = s.nodes[s.next as int];
            &&& t.nodes == s.nodes
            &&& loc matches Some(l) ==> t.next == s.next + 1 && t.retries_left == 3 && t.done.len()
                == s.done.len() + 1 && t.done.last().ip == node.ip && t.done.last().metadata
                == node.metadata && t.done.last().loc == Some(l)
            &&& (loc is None && s.retries_left > 1) ==> t.next == s.next && t.done == s.done
                && t.retries_left == s.retries_left - 1 && a == GeoActionView::Fetch {
                url: geolocation_url_of(node.ip),
                pause_first: true,
            }
            &&& (loc is None && s.retries_left <= 1) ==> t.next == s.next + 1 && t.retries_left == 3
                && t.done == s.done.push(node)
            &&& t.next == s.next + 1 ==> (if t.next < s.nodes.len() {
                a == GeoActionView::Fetch {
                    url: geolocation_url_of(s.nodes[t.next as int].ip),
                    pause_first: true,
                }
            } else {
                a == GeoActionView::Finish { pause_first: true }
            })
        }),
{
}

} // verus!
