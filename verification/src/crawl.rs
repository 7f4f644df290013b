//! A breadth-first walk over the network.  The crawl starts from one node;
//! each round it takes every queued node at once, and what the reached
//! nodes report adds the peers not seen before to the queue.  The crawl
//! ends when a round leaves nothing queued.

use vstd::prelude::*;
use crate::address::{address_text, contains_address, NetAddress};
use crate::address_laws::law_address_text_injective;
use crate::models::{NodeData, NodeDataView};
use crate::session::PeerReport;

verus! {

/// The state of a crawl.
pub struct Crawler {
    queue: Vec<String>,
    discovered: Vec<NetAddress>,
    results: Vec<NodeData>,
    /// The node the crawl started from.
    start: Ghost<Seq<char>>,
    /// Every node taken from the queue so far, in order.
    taken: Ghost<Seq<Seq<char>>>,
}

/// The mathematical value of a `Crawler`.
pub struct CrawlView {
    /// The nodes waiting for the next round, by URL.
    pub queue: Seq<Seq<char>>,
    /// Every peer some node reported, in the order first reported.
    pub discovered: Seq<NetAddress>,
    /// The nodes reached, in the order their reports were recorded.
    pub results: Seq<NodeDataView>,
}

/// The views of a list of strings.
pub open spec fn texts(v: Seq<String>) -> Seq<Seq<char>> {
    v.map_values(|s: String| s@)
}

/// The queue texts of a list of peers.
pub open spec fn queued_texts(peers: Seq<NetAddress>) -> Seq<Seq<char>> {
    peers.map_values(|a: NetAddress| address_text(a))
}

/// The peers of `reported` that are neither in `known` nor earlier in
/// `reported`, in order: the peers that a report newly discovers.
pub open spec fn fresh_peers(known: Seq<NetAddress>, reported: Seq<NetAddress>) -> Seq<
    NetAddress,
>
    decreases reported.len(),
{
    if reported.len() == 0 {
        Seq::empty()
    } else {
        let before = fresh_peers(known, reported.drop_last());
        let p = reported.last();
        if known.contains(p) || before.contains(p) {
            before
        } else {
            before.push(p)
        }
    }
}

/// The node record of a reached peer, not yet located.
pub open spec fn node_of(rep: PeerReport) -> NodeDataView {
    NodeDataView { ip: rep.url@, metadata: rep.metadata@, loc: None }
}

impl View for Crawler {
    type V = CrawlView;

    closed spec fn view(&self) -> CrawlView {
        CrawlView {
            queue: texts(self.queue@),
            discovered: self.discovered@,
            results: self.results@.map_values(|n: NodeData| n@),
        }
    }
}

impl Crawler {
    /// The node the crawl started from.
    pub closed spec fn start(&self) -> Seq<char> {
        self.start@
    }

    /// Every node taken from the queue so far, in order.
    pub closed spec fn taken(&self) -> Seq<Seq<char>> {
        self.taken@
    }

    /// No peer is discovered twice, and the nodes taken so far followed by
    /// the nodes still queued are the start node and then every discovered
    /// peer, in order of discovery.
    pub closed spec fn wf(&self) -> bool {
        &&& self.discovered@.no_duplicates()
        &&& self.taken@ + texts(self.queue@) == seq![self.start@] + queued_texts(
            self.discovered@,
        )
    }

    /// A crawl from the node at `url`: it alone is queued.
    pub fn new(url: String) -> (c: Crawler)
        ensures
            c.wf(),
            c@.queue == seq![url@],
            c@.discovered == Seq::<NetAddress>::empty(),
            c@.results == Seq::<NodeDataView>::empty(),
            c.start() == url@,
            c.taken() == Seq::<Seq<char>>::empty(),
    {
        let ghost u = url@;
        let mut queue = Vec::new();
        queue.push(url);
        let c = Crawler {
            queue,
            discovered: Vec::new(),
            results: Vec::new(),
            start: Ghost(u),
            taken: Ghost(Seq::empty()),
        };
        assert(texts(c.queue@) =~= seq![u]);
        assert(queued_texts(c.discovered@) =~= Seq::<Seq<char>>::empty());
        assert(c.taken@ + texts(c.queue@) =~= seq![u] + queued_texts(c.discovered@));
        c
    }

    /// Whether nodes are waiting for a round.
    pub fn has_pending(&self) -> (r: bool)
        ensures
            r == (self@.queue.len() > 0),
    {
        self.queue.len() > 0
    }

    /// Takes every queued node for the next round, leaving the queue empty.
    pub fn take_round(&mut self) -> (batch: Vec<String>)
        requires
            old(self).wf(),
        ensures
            final(self).wf(),
            texts(batch@) == old(self)@.queue,
            final(self)@.queue == Seq::<Seq<char>>::empty(),
            final(self)@.discovered == old(self)@.discovered,
            final(self)@.results == old(self)@.results,
            final(self).start() == old(self).start(),
            final(self).taken() == old(self).taken() + old(self)@.queue,
    {
        let mut batch = Vec::new();
        std::mem::swap(&mut batch, &mut self.queue);
        self.taken = Ghost(self.taken@ + texts(batch@));
        assert(texts(self.queue@) =~= Seq::<Seq<char>>::empty());
        assert(self.taken@ + texts(self.queue@) =~= self.taken@);
        assert(old(self).taken@ + texts(old(self).queue@) == self.taken@);
        batch
    }

    /// Records the outcome of querying one node.  A node that was not
    /// reached changes nothing.  A reached node is added to the results, and
    /// each peer it reports that no node reported before is discovered and
    /// queued, once.  Gives the newly queued nodes.
    pub fn record(&mut self, outcome: Option<PeerReport>) -> (queued: Vec<String>)
        requires
            old(self).wf(),
        ensures
            final(self).wf(),
            final(self).start() == old(self).start(),
            final(self).taken() == old(self).taken(),
            match outcome {
                None => final(self)@ == old(self)@ && queued@.len() == 0,
                Some(rep) => {
                    let fresh = fresh_peers(old(self)@.discovered, rep.peers@);
                    &&& final(self)@.results == old(self)@.results.push(node_of(rep))
                    &&& final(self)@.results.last().ip == rep.url@
                    &&& final(self)@.results.last().metadata == rep.metadata@
                    &&& final(self)@.results.last().loc is None
                    &&& final(self)@.discovered == old(self)@.discovered + fresh
                    &&& final(self)@.queue == old(self)@.queue + queued_texts(fresh)
                    &&& texts(queued@) == queued_texts(fresh)
                },
            },
    {
        let mut queued: Vec<String> = Vec::new();
        match outcome {
            None => {},
            Some(rep) => {
                let ghost old_disc = self.discovered@;
                let ghost old_queue = texts(self.queue@);
                let ghost old_results = self.results@;
                let PeerReport { url, peers, metadata } = rep;
                let node = NodeData { ip: url, metadata, loc: None };
                self.results.push(node);
                let n = peers.len();
                for i in 0..n
                    invariant
                        n == peers@.len(),
                        self.discovered@ == old_disc + fresh_peers(old_disc, peers@.take(i as int)),
                        texts(self.queue@) == old_queue + queued_texts(
                            fresh_peers(old_disc, peers@.take(i as int)),
                        ),
                        self.discovered@.no_duplicates(),
                        self.taken@ + texts(self.queue@) == seq![self.start@] + queued_texts(
                            self.discovered@,
                        ),
                        self.results@ == old_results.push(node),
                        self.start == old(self).start,
                        self.taken == old(self).taken,
                        texts(queued@) == queued_texts(fresh_peers(old_disc, peers@.take(i as int))),
                {
                    let p = peers[i];
                    let ghost fresh_before = fresh_peers(old_disc, peers@.take(i as int));
                    proof {
                        assert(peers@.take(i + 1).drop_last() =~= peers@.take(i as int));
                        assert(peers@.take(i + 1).last() == p);
                        lemma_concat_contains(old_disc, fresh_before, p);
                    }
                    if !contains_address(&self.discovered, &p) {
                        let ghost q_before = self.queue@;
                        let ghost d_before = self.discovered@;
                        self.discovered.push(p);
                        let text = p.to_text();
                        let ghost out_before = queued@;
                        queued.push(text.clone());
                        self.queue.push(text);
                        proof {
                            assert(texts(queued@) =~= texts(out_before).push(address_text(p)));
                            assert(texts(self.queue@) =~= texts(q_before).push(address_text(p)));
                            assert(queued_texts(self.discovered@) =~= queued_texts(d_before).push(
                                address_text(p),
                            ));
                            assert(queued_texts(fresh_before.push(p)) =~= queued_texts(
                                fresh_before,
                            ).push(address_text(p)));
                            assert(self.discovered@ =~= old_disc + fresh_before.push(p));
                            assert(texts(self.queue@) =~= old_queue + queued_texts(
                                fresh_before.push(p),
                            ));
                            assert(self.taken@ + texts(q_before) == seq![self.start@]
                                + queued_texts(d_before));
                            assert(self.taken@ + texts(self.queue@) =~= (self.taken@ + texts(
                                q_before,
                            )).push(address_text(p)));
                            assert(seq![self.start@] + queued_texts(self.discovered@) =~= (seq![
                                self.start@,
                            ] + queued_texts(d_before)).push(address_text(p)));
                        }
                    }
                }
                proof {
                    assert(peers@.take(n as int) =~= peers@);
                    assert(self.results@.map_values(|x: NodeData| x@) =~= old_results.map_values(
                        |x: NodeData| x@,
                    ).push(node@));
                }
            },
        }
        proof {
            if outcome is None {
                assert(texts(queued@) =~= Seq::<Seq<char>>::empty());
            }
        }
        queued
    }

    /// The nodes reached, in the order their reports were recorded.
    pub fn into_results(self) -> (r: Vec<NodeData>)
        ensures
            r@.map_values(|n: NodeData| n@) == self@.results,
    {
        self.results
    }
}

/// `p` is in `a + b` exactly when it is in `a` or in `b`.
proof fn lemma_concat_contains<A>(a: Seq<A>, b: Seq<A>, p: A)
    ensures
        (a + b).contains(p) <==> (a.contains(p) || b.contains(p)),
{
    if (a + b).contains(p) {
        let j = choose|j: int| 0 <= j < (a + b).len() && (a + b)[j] == p;
        if j < a.len() {
            assert(a[j] == p);
        } else {
            assert(b[j - a.len()] == p);
        }
    }
    if a.contains(p) {
        let j = choose|j: int| 0 <= j < a.len() && a[j] == p;
        assert((a + b)[j] == p);
    }
    if b.contains(p) {
        let j = choose|j: int| 0 <= j < b.len() && b[j] == p;
        assert((a + b)[a.len() + j] == p);
    }
}

/// Over a whole crawl, the nodes taken from the queue followed by the nodes
/// still queued are the start node and then every discovered peer, in order
/// of discovery, each exactly once: no node but the start node is ever
/// queried twice, however many nodes report it.
pub proof fn law_every_peer_queued_once(c: &Crawler)
    requires
        c.wf(),
    ensures
        c@.discovered.no_duplicates(),
        c.taken() + c@.queue == seq![c.start()] + queued_texts(c@.discovered),
        (c.taken() + c@.queue).drop_first().no_duplicates(),
{
    let d = c@.discovered;
    let q = queued_texts(d);
    assert forall|i: int, j: int| 0 <= i < q.len() && 0 <= j < q.len() && i != j implies q[i]
        != q[j] by {
        if q[i] == q[j] {
            law_address_text_injective(d[i], d[j]);
        }
    }
    assert((seq![c.start()] + q).drop_first() =~= q);
}

/// A report discovers exactly the reported peers that were not known, each
/// once: what it discovers is reported and was not known, and every
/// reported peer is known afterwards.
pub proof fn law_fresh_peers(known: Seq<NetAddress>, reported: Seq<NetAddress>)
    ensures
        fresh_peers(known, reported).no_duplicates(),
        forall|p: NetAddress| #[trigger]
            fresh_peers(known, reported).contains(p) ==> reported.contains(p) && !known.contains(
                p,
            ),
        forall|p: NetAddress| #[trigger]
            reported.contains(p) ==> (known + fresh_peers(known, reported)).contains(p),
    decreases reported.len(),
{
    if reported.len() > 0 {
        let rest = reported.drop_last();
        let last = reported.last();
        law_fresh_peers(known, rest);
        let before = fresh_peers(known, rest);
        let after = fresh_peers(known, reported);
        assert forall|p: NetAddress| #[trigger] after.contains(p) implies reported.contains(p)
            && !known.contains(p) by {
            if before.contains(p) {
                assert(rest.contains(p));
                let j = choose|j: int| 0 <= j < rest.len() && rest[j] == p;
                assert(reported[j] == p);
            } else {
                let j = choose|j: int| 0 <= j < after.len() && after[j] == p;
                assert(p == last);
                assert(reported[reported.len() - 1] == p);
            }
        }
        assert forall|p: NetAddress| #[trigger] reported.contains(p) implies (known
            + after).contains(p) by {
            let j = choose|j: int| 0 <= j < reported.len() && reported[j] == p;
            if j < rest.len() {
                assert(rest[j] == p);
                assert(rest.contains(p));
                lemma_concat_contains(known, before, p);
                lemma_concat_contains(known, after, p);
                if before.contains(p) {
                    let k = choose|k: int| 0 <= k < before.len() && before[k] == p;
                    assert(after[k] == p);
                }
            } else {
                lemma_concat_contains(known, before, p);
                lemma_concat_contains(known, after, p);
                if before.contains(p) {
                    let k = choose|k: int| 0 <= k < before.len() && before[k] == p;
                    assert(after[k] == p);
                }
                if !known.contains(p) && !before.contains(p) {
                    assert(after[after.len() - 1] == p);
                }
            }
        }
    }
}

/// A reached node is recorded with the URL it was reached at and the
/// metadata it gave, unchanged, and no location yet.
pub proof fn law_recorded_node(rep: PeerReport)
    ensures
        node_of(rep).ip == rep.url@,
        node_of(rep).metadata == rep.metadata@,
        node_of(rep).loc is None,
{
}

/// Where each newly discovered peer was first reported.
proof fn fresh_positions(known: Seq<NetAddress>, reported: Seq<NetAddress>) -> (idx: Seq<int>)
    ensures
        idx.len() == fresh_peers(known, reported).len(),
        forall|i: int|
            0 <= i < idx.len() ==> 0 <= #[trigger] idx[i] < reported.len() && reported[idx[i]]
                == fresh_peers(known, reported)[i],
        forall|i: int, k: int|
            #![trigger idx[i], reported[k]]
            0 <= i < idx.len() && 0 <= k < idx[i] ==> reported[k] != fresh_peers(known, reported)[i],
        forall|i: int, j: int| 0 <= i < j < idx.len() ==> #[trigger] idx[i] < #[trigger] idx[j],
    decreases reported.len(),
{
    if reported.len() == 0 {
        Seq::empty()
    } else {
        let rest = reported.drop_last();
        let p = reported.last();
        let before = fresh_peers(known, rest);
        let prev = fresh_positions(known, rest);
        law_fresh_peers(known, rest);
        assert forall|i: int| 0 <= i < prev.len() implies reported[#[trigger] prev[i]] == rest[prev[i]] by {}
        assert forall|i: int, k: int| #![trigger prev[i], reported[k]]
            0 <= i < prev.len() && 0 <= k < prev[i] implies reported[k] != before[i] by {
            assert(reported[k] == rest[k]);
        }
        if known.contains(p) || before.contains(p) {
            prev
        } else {
            let idx = prev.push(reported.len() - 1);
            assert forall|k: int| 0 <= k < reported.len() - 1 implies reported[k] != p by {
                assert(rest[k] == reported[k]);
                if reported[k] == p {
                    assert(rest.contains(p));
                    lemma_concat_contains(known, before, p);
                }
            }
            assert(fresh_peers(known, reported) == before.push(p));
            idx
        }
    }
}

/// `idx` gives, for each peer a report newly discovers, where it was first
/// reported, and these positions increase.
pub open spec fn first_report_positions(
    known: Seq<NetAddress>,
    reported: Seq<NetAddress>,
    idx: Seq<int>,
) -> bool {
    &&& idx.len() == fresh_peers(known, reported).len()
    &&& forall|i: int|
        0 <= i < idx.len() ==> 0 <= #[trigger] idx[i] < reported.len() && reported[idx[i]]
            == fresh_peers(known, reported)[i]
    &&& forall|i: int, k: int|
        #![trigger idx[i], reported[k]]
        0 <= i < idx.len() && 0 <= k < idx[i] ==> reported[k] != fresh_peers(known, reported)[i]
    &&& forall|i: int, j: int| 0 <= i < j < idx.len() ==> #[trigger] idx[i] < #[trigger] idx[j]
}

/// A report queues the peers it newly discovers in the order it first
/// reported them: each at its first report, earlier reports first.
pub proof fn law_fresh_peers_order(known: Seq<NetAddress>, reported: Seq<NetAddress>)
    ensures
        exists|idx: Seq<int>| #[trigger] first_report_positions(known, reported, idx),
{
    let idx = fresh_positions(known, reported);
    assert(first_report_positions(known, reported, idx));
}

} // verus!
