//! One query of one peer: the crawler connects, asks for the peer's
//! addresses and listens until the peer closes or falls silent.  The peer
//! counts as reached only where it sent its version message.

use vstd::prelude::*;
use crate::address::{canonical, NetAddress};
use crate::models::{metadata_of, node_metadata_at, NodeMetadata, NodeMetadataView, VersionFields};

verus! {

/// What a query hears from the peer.
#[derive(Debug)]
pub enum PeerEvent {
    /// A list of addresses; `None` stands for one that could not be read.
    Addresses(Vec<Option<NetAddress>>),
    /// The peer's version message.
    Version(VersionFields),
    /// Any other message.
    Other,
    /// The peer closed the connection.
    Closed,
    /// Nothing came within the waiting time.
    TimedOut,
}

/// Whether the query keeps listening after an event.
#[derive(Clone, Copy, Debug, PartialEq, Eq, Structural)]
pub enum Listening {
    Continue,
    Stop,
}

/// The state of a query of one peer.
pub struct PeerSession {
    url: String,
    addresses: Vec<NetAddress>,
    metadata: Option<NodeMetadata>,
}

/// What a reached peer gave: the URL it was reached at, the peers it
/// reported (in normal form, in the order heard, repeats kept) and its
/// metadata.
pub struct PeerReport {
    pub url: String,
    pub peers: Vec<NetAddress>,
    pub metadata: NodeMetadata,
}

/// The mathematical value of a `PeerSession`.
pub struct PeerSessionView {
    pub url: Seq<char>,
    pub addresses: Seq<NetAddress>,
    pub metadata: Option<NodeMetadataView>,
}

impl View for PeerSession {
    type V = PeerSessionView;

    closed spec fn view(&self) -> PeerSessionView {
        PeerSessionView {
            url: self.url@,
            addresses: self.addresses@,
            metadata: match self.metadata {
                Some(m) => Some(m@),
                None => None,
            },
        }
    }
}

/// The readable addresses of a list, each in normal form, in order.
pub open spec fn readable_peers(raw: Seq<Option<NetAddress>>) -> Seq<NetAddress>
    decreases raw.len(),
{
    if raw.len() == 0 {
        Seq::empty()
    } else {
        let before = readable_peers(raw.drop_last());
        match raw.last() {
            Some(a) => before.push(canonical(a)),
            None => before,
        }
    }
}

/// The state after an event heard at time `now`, and whether to listen on.
pub open spec fn session_step(s: PeerSessionView, e: PeerEvent, now: Seq<char>) -> (
    PeerSessionView,
    Listening,
) {
    match e {
        PeerEvent::Addresses(raw) => (
            PeerSessionView { addresses: s.addresses + readable_peers(raw@), ..s },
            Listening::Continue,
        ),
        PeerEvent::Version(v) => (
            PeerSessionView { metadata: Some(metadata_of(v, now)), ..s },
            Listening::Continue,
        ),
        PeerEvent::Other => (s, Listening::Continue),
        PeerEvent::Closed => (s, Listening::Stop),
        PeerEvent::TimedOut => (s, Listening::Stop),
    }
}

/// Whether `t` has the shape of a UTC time written in RFC 3339: at least
/// a date, `T` and a time (25 characters with the offset), ending with the
/// offset `+00:00`.
pub open spec fn utc_stamp(t: Seq<char>) -> bool {
    &&& t.len() >= 25
    &&& t.subrange(t.len() - 6, t.len() as int) == seq!['+', '0', '0', ':', '0', '0']
}

/// The current time in RFC 3339: chrono's `Utc::now`, written by
/// `DateTime::to_rfc3339`.  The contract claims only its shape (the offset
/// of UTC is written `+00:00`, after at least nineteen characters of date
/// and time); which time it is depends on the clock and is not stated.
/// chrono panics where the system clock reads before 1970; no input decides
/// that.
#[verifier::external_body]
fn utc_now_rfc3339() -> (r: String)
    ensures
        utc_stamp(r@),
{
    chrono::Utc::now().to_rfc3339()
}

impl PeerSession {
    /// A query of the peer at `url` that has heard nothing yet.
    pub fn new(url: String) -> (s: PeerSession)
        ensures
            s@ == (PeerSessionView { url: url@, addresses: Seq::empty(), metadata: None }),
    {
        PeerSession { url, addresses: Vec::new(), metadata: None }
    }

    /// Takes an event heard at time `now` (RFC 3339): a list of addresses
    /// adds its readable ones, in normal form; a version message sets the
    /// metadata, a later one replacing an earlier one; a closed connection or
    /// a silence ends the query.
    pub fn on_event_at(&mut self, event: PeerEvent, now: String) -> (r: Listening)
        ensures
            (final(self)@, r) == session_step(old(self)@, event, now@),
            final(self)@.url == old(self)@.url,
            event matches PeerEvent::Addresses(raw) ==> final(self)@.addresses == old(
                self,
            )@.addresses + readable_peers(raw@) && final(self)@.metadata == old(self)@.metadata,
            event matches PeerEvent::Version(v) ==> final(self)@.metadata == Some(
                metadata_of(v, now@),
            ) && final(self)@.addresses == old(self)@.addresses,
    {
        match event {
            PeerEvent::Addresses(raw) => {
                let n = raw.len();
                let ghost start = self.addresses@;
                for i in 0..n
                    invariant
                        n == raw@.len(),
                        self.addresses@ == start + readable_peers(raw@.take(i as int)),
                        self.url == old(self).url,
                        self.metadata == old(self).metadata,
                {
                    match &raw[i] {
                        Some(a) => self.addresses.push(a.to_canonical()),
                        None => {},
                    }
                    proof {
                        assert(raw@.take(i + 1).drop_last() =~= raw@.take(i as int));
                        assert(self.addresses@ =~= start + readable_peers(raw@.take(i + 1)));
                    }
                }
                proof {
                    assert(raw@.take(n as int) =~= raw@);
                }
                Listening::Continue
            },
            PeerEvent::Version(v) => {
                self.metadata = Some(node_metadata_at(&v, now));
                Listening::Continue
            },
            PeerEvent::Other => Listening::Continue,
            PeerEvent::Closed => Listening::Stop,
            PeerEvent::TimedOut => Listening::Stop,
        }
    }

    /// Takes an event as it arrives; a version message is stamped with the
    /// current time, in UTC.
    pub fn on_event(&mut self, event: PeerEvent) -> (r: Listening)
        ensures
            exists|now: Seq<char>|
                #![trigger session_step(old(self)@, event, now)]
                (event is Version ==> utc_stamp(now)) && (final(self)@, r) == session_step(
                    old(self)@,
                    event,
                    now,
                ),
    {
        let ghost e = event;
        let now = match &event {
            PeerEvent::Version(_) => utc_now_rfc3339(),
            _ => String::new(),
        };
        let ghost stamped = now@;
        let r = self.on_event_at(event, now);
        assert(e is Version ==> utc_stamp(stamped));
        assert((e is Version ==> utc_stamp(stamped)) && (self@, r) == session_step(
            old(self)@,
            e,
            stamped,
        ));
        r
    }

    /// Ends the query: the peer counts as reached, and its report is given,
    /// exactly when it sent a version message.
    pub fn finish(self) -> (r: Option<PeerReport>)
        ensures
            r is Some <==> self@.metadata is Some,
            r matches Some(rep) ==> rep.url@ == self@.url && rep.peers@ == self@.addresses
                && Some(rep.metadata@) == self@.metadata,
    {
        match self.metadata {
            Some(m) => Some(PeerReport { url: self.url, peers: self.addresses, metadata: m }),
            None => None,
        }
    }
}

/// Listening never loses what was heard: the addresses heard so far stay, in
/// order, and a peer that sent its version message stays reached.  Only a
/// closed connection or a silence stops the query.
pub proof fn law_session_keeps_what_was_heard(s: PeerSessionView, e: PeerEvent, now: Seq<char>)
    ensures
        session_step(s, e, now).0.url == s.url,
        session_step(s, e, now).0.addresses.len() >= s.addresses.len(),
        session_step(s, e, now).0.addresses.subrange(0, s.addresses.len() as int) == s.addresses,
        s.metadata is Some ==> session_step(s, e, now).0.metadata is Some,
        (session_step(s, e, now).1 == Listening::Stop) <==> (e is Closed || e is TimedOut),
{
    let t = session_step(s, e, now).0;
    assert(t.addresses.subrange(0, s.addresses.len() as int) =~= s.addresses);
}

/// The state after a run of events, each with the time it arrived, and
/// whether the query still listens: the run stops at the first closed
/// connection or silence, and later events are not heard.
pub open spec fn session_run(s: PeerSessionView, evs: Seq<(PeerEvent, Seq<char>)>) -> (
    PeerSessionView,
    Listening,
)
    decreases evs.len(),
{
    if evs.len() == 0 {
        (s, Listening::Continue)
    } else {
        let step = session_step(s, evs[0].0, evs[0].1);
        match step.1 {
            Listening::Stop => step,
            Listening::Continue => session_run(step.0, evs.drop_first()),
        }
    }
}

/// The events of a run that are not of an unrelated kind, in order.
pub open spec fn without_other(evs: Seq<(PeerEvent, Seq<char>)>) -> Seq<(PeerEvent, Seq<char>)>
    decreases evs.len(),
{
    if evs.len() == 0 {
        evs
    } else if evs[0].0 is Other {
        without_other(evs.drop_first())
    } else {
        seq![evs[0]] + without_other(evs.drop_first())
    }
}

/// Messages of unrelated kinds change nothing: a run with them ends as the
/// run without them does.
pub proof fn law_other_messages_ignored(s: PeerSessionView, evs: Seq<(PeerEvent, Seq<char>)>)
    ensures
        session_run(s, without_other(evs)) == session_run(s, evs),
    decreases evs.len(),
{
    if evs.len() > 0 {
        let rest = evs.drop_first();
        if evs[0].0 is Other {
            law_other_messages_ignored(s, rest);
        } else {
            let w = seq![evs[0]] + without_other(rest);
            assert(w[0] == evs[0]);
            assert(w.drop_first() =~= without_other(rest));
            let step = session_step(s, evs[0].0, evs[0].1);
            law_other_messages_ignored(step.0, rest);
        }
    }
}

/// Every event is taken whatever was heard before: a list of addresses
/// appends its readable peers and keeps the metadata, also once a version
/// message has arrived; a version message sets the metadata and keeps the
/// addresses; any other message changes nothing; only a closed connection
/// or a silence stops the query.
pub proof fn law_session_events(s: PeerSessionView, e: PeerEvent, now: Seq<char>)
    ensures
        session_step(s, e, now).0.url == s.url,
        e matches PeerEvent::Addresses(raw) ==> session_step(s, e, now).0.addresses == s.addresses
            + readable_peers(raw@) && session_step(s, e, now).0.metadata == s.metadata
            && session_step(s, e, now).1 == Listening::Continue,
        e matches PeerEvent::Version(v) ==> session_step(s, e, now).0.metadata == Some(
            metadata_of(v, now),
        ) && session_step(s, e, now).0.addresses == s.addresses && session_step(s, e, now).1
            == Listening::Continue,
        e is Other ==> session_step(s, e, now) == (s, Listening::Continue),
        (e is Closed || e is TimedOut) ==> session_step(s, e, now) == (s, Listening::Stop),
{
}

/// The readable peers of one reported entry: its address in normal form,
/// or none where it could not be read.
pub proof fn law_readable_peers_one(o: Option<NetAddress>)
    ensures
        readable_peers(seq![o]) == (match o {
            Some(a) => seq![canonical(a)],
            None => Seq::<NetAddress>::empty(),
        }),
{
    let one = seq![o];
    assert(one.drop_last() =~= Seq::<Option<NetAddress>>::empty());
    assert(one.last() == o);
    assert(readable_peers(one.drop_last()) == Seq::<NetAddress>::empty());
    match o {
        Some(a) => {
            assert(readable_peers(one) =~= seq![canonical(a)]);
        },
        None => {},
    }
}

/// The readable peers of two lists heard one after the other are those of
/// the first, then those of the second.
pub proof fn law_readable_peers_concat(a: Seq<Option<NetAddress>>, b: Seq<Option<NetAddress>>)
    ensures
        readable_peers(a + b) == readable_peers(a) + readable_peers(b),
    decreases b.len(),
{
    if b.len() == 0 {
        assert(a + b =~= a);
        assert(readable_peers(a) + readable_peers(b) =~= readable_peers(a));
    } else {
        law_readable_peers_concat(a, b.drop_last());
        assert((a + b).drop_last() =~= a + b.drop_last());
        assert((a + b).last() == b.last());
        match b.last() {
            Some(x) => {
                assert(readable_peers(a) + readable_peers(b) =~= (readable_peers(a)
                    + readable_peers(b.drop_last())).push(canonical(x)));
            },
            None => {},
        }
    }
}

} // verus!
