//! Peer addresses: their normal form and their text.

use vstd::prelude::*;
use crate::crawl::fresh_peers;
use crate::session::readable_peers;
use crate::text::{decimal, hex_digits, push_char, push_decimal, push_hex};

verus! {

/// An IP address, held by its bits: an IPv4 address as the 32-bit number of
/// its four octets (first octet most significant), an IPv6 address as the
/// 128-bit number of its sixteen octets.
#[derive(Clone, Copy, Debug, PartialEq, Eq, Hash, Structural)]
pub enum IpAddress {
    V4(u32),
    V6(u128),
}

/// A peer that a node reported: its IP address and its port.
#[derive(Clone, Copy, Debug, PartialEq, Eq, Hash, Structural)]
pub struct NetAddress {
    pub ip: IpAddress,
    pub port: u16,
}

/// Whether the IPv6 address is IPv4-mapped, `::ffff:a.b.c.d`: its first
/// eighty bits are zero and the next sixteen are one.
pub open spec fn is_ipv4_mapped(bits: u128) -> bool {
    bits >> 32u128 == 0xffffu128
}

/// The IPv4 address that an IPv4-mapped IPv6 address carries in its low
/// thirty-two bits.
pub open spec fn mapped_ipv4(bits: u128) -> u32 {
    (bits & 0xffff_ffffu128) as u32
}

/// The normal form of an address: an IPv4-mapped IPv6 address becomes the
/// IPv4 address it carries; every other address stays as it is.
pub open spec fn canonical_ip(ip: IpAddress) -> IpAddress {
    match ip {
        IpAddress::V6(bits) => if is_ipv4_mapped(bits) {
            IpAddress::V4(mapped_ipv4(bits))
        } else {
            ip
        },
        IpAddress::V4(_) => ip,
    }
}

/// A peer address with its IP address in normal form.
pub open spec fn canonical(a: NetAddress) -> NetAddress {
    NetAddress { ip: canonical_ip(a.ip), port: a.port }
}

/// Octet `i` (0 to 3) of an IPv4 address.
pub open spec fn octet(bits: u32, i: int) -> u8 {
    ((bits >> ((24 - 8 * i) as u32)) & 0xffu32) as u8
}

/// The dotted-decimal text of an IPv4 address, `a.b.c.d`.
pub open spec fn ipv4_text(bits: u32) -> Seq<char> {
    decimal(octet(bits, 0) as nat) + seq!['.'] + decimal(octet(bits, 1) as nat) + seq!['.']
        + decimal(octet(bits, 2) as nat) + seq!['.'] + decimal(octet(bits, 3) as nat)
}

/// Segment `i` (0 to 7) of an IPv6 address, a 16-bit group.
pub open spec fn segment(bits: u128, i: int) -> u16 {
    ((bits >> ((112 - 16 * i) as u128)) & 0xffffu128) as u16
}

/// The eight segments of an IPv6 address, first segment first.
pub open spec fn segments(bits: u128) -> Seq<u16> {
    Seq::new(8, |i: int| segment(bits, i))
}

/// The number of zero segments in a row from index `i` on.
pub open spec fn zero_run(s: Seq<u16>, i: int) -> nat
    decreases s.len() - i,
{
    if 0 <= i < s.len() && s[i] == 0 {
        1 + zero_run(s, i + 1)
    } else {
        0
    }
}

/// Start and length of the longest run of zero segments that starts at `i`
/// or later; of runs of equal length, the first.  `(s.len(), 0)` where there
/// is none.
pub open spec fn longest_zero_run(s: Seq<u16>, i: int) -> (int, nat)
    decreases s.len() - i,
{
    if i < 0 || i >= s.len() {
        (s.len() as int, 0)
    } else {
        let later = longest_zero_run(s, i + 1);
        if zero_run(s, i) > 0 && zero_run(s, i) >= later.1 {
            (i, zero_run(s, i))
        } else {
            later
        }
    }
}

/// Segments in lower-case hexadecimal without leading zeros, joined by `:`.
pub open spec fn join_hex(s: Seq<u16>) -> Seq<char>
    decreases s.len(),
{
    if s.len() == 0 {
        Seq::empty()
    } else if s.len() == 1 {
        hex_digits(s[0] as nat)
    } else {
        join_hex(s.drop_last()) + seq![':'] + hex_digits(s.last() as nat)
    }
}

/// The text of an IPv6 address as std writes it: an IPv4-mapped address as
/// `::ffff:` and the dotted IPv4 address; otherwise the segments in
/// lower-case hexadecimal joined by `:`, where the longest run of two or more
/// zero segments (the first of equal runs) is replaced by `::`.
pub open spec fn ipv6_text(bits: u128) -> Seq<char> {
    if is_ipv4_mapped(bits) {
        seq![':', ':', 'f', 'f', 'f', 'f', ':'] + ipv4_text(mapped_ipv4(bits))
    } else {
        let s = segments(bits);
        let run = longest_zero_run(s, 0);
        if run.1 > 1 {
            join_hex(s.subrange(0, run.0)) + seq![':', ':'] + join_hex(
                s.subrange(run.0 + run.1, 8),
            )
        } else {
            join_hex(s)
        }
    }
}

/// The text of an IP address.
pub open spec fn ip_text(ip: IpAddress) -> Seq<char> {
    match ip {
        IpAddress::V4(bits) => ipv4_text(bits),
        IpAddress::V6(bits) => ipv6_text(bits),
    }
}

/// The text under which a peer is queued: its IP address, `:` and its port.
pub open spec fn address_text(a: NetAddress) -> Seq<char> {
    ip_text(a.ip) + seq![':'] + decimal(a.port as nat)
}

impl IpAddress {
    /// The normal form of the address (std's `IpAddr::to_canonical`).
    pub fn to_canonical(&self) -> (r: IpAddress)
        ensures
            r == canonical_ip(*self),
    {
        match *self {
            IpAddress::V6(bits) => {
                if bits >> 32u128 == 0xffffu128 {
                    IpAddress::V4((bits & 0xffff_ffffu128) as u32)
                } else {
                    IpAddress::V6(bits)
                }
            },
            IpAddress::V4(bits) => IpAddress::V4(bits),
        }
    }
}

impl NetAddress {
    /// The same peer with its IP address in normal form.
    pub fn to_canonical(&self) -> (r: NetAddress)
        ensures
            r == canonical(*self),
    {
        NetAddress { ip: self.ip.to_canonical(), port: self.port }
    }
}

/// Appends the dotted-decimal text of an IPv4 address.
fn push_ipv4(s: &mut String, bits: u32)
    ensures
        final(s)@ == old(s)@ + ipv4_text(bits),
{
    let o0 = ((bits >> 24u32) & 0xffu32) as u8;
    let o1 = ((bits >> 16u32) & 0xffu32) as u8;
    let o2 = ((bits >> 8u32) & 0xffu32) as u8;
    let o3 = ((bits >> 0u32) & 0xffu32) as u8;
    assert(o0 == octet(bits, 0) && o1 == octet(bits, 1) && o2 == octet(bits, 2) && o3 == octet(
        bits,
        3,
    ));
    push_decimal(s, o0 as u64);
    push_char(s, '.');
    push_decimal(s, o1 as u64);
    push_char(s, '.');
    push_decimal(s, o2 as u64);
    push_char(s, '.');
    push_decimal(s, o3 as u64);
    assert(s@ =~= old(s)@ + ipv4_text(bits));
}

/// Appends the segments `segs[from..to]`, in hexadecimal, joined by `:`.
fn push_joined_hex(s: &mut String, segs: &Vec<u16>, from: usize, to: usize)
    requires
        from <= to <= segs@.len(),
    ensures
        final(s)@ == old(s)@ + join_hex(segs@.subrange(from as int, to as int)),
{
    let mut k = from;
    assert(segs@.subrange(from as int, from as int) =~= Seq::<u16>::empty());
    while k < to
        invariant
            from <= k <= to <= segs@.len(),
            s@ == old(s)@ + join_hex(segs@.subrange(from as int, k as int)),
        decreases to - k,
    {
        if k > from {
            push_char(s, ':');
        }
        push_hex(s, segs[k] as u64);
        proof {
            let sub = segs@.subrange(from as int, k + 1);
            assert(sub.drop_last() =~= segs@.subrange(from as int, k as int));
            assert(sub.last() == segs@[k as int]);
            if k > from {
                assert(s@ =~= old(s)@ + join_hex(sub));
            } else {
                assert(sub.len() == 1);
                assert(s@ =~= old(s)@ + join_hex(sub));
            }
        }
        k = k + 1;
    }
}

/// Appends the text of an IPv6 address, as `ipv6_text` describes it.
fn push_ipv6(s: &mut String, bits: u128)
    ensures
        final(s)@ == old(s)@ + ipv6_text(bits),
{
    if bits >> 32u128 == 0xffffu128 {
        push_char(s, ':');
        push_char(s, ':');
        push_char(s, 'f');
        push_char(s, 'f');
        push_char(s, 'f');
        push_char(s, 'f');
        push_char(s, ':');
        push_ipv4(s, #[verifier::truncate] ((bits & 0xffff_ffffu128) as u32));
        assert(s@ =~= old(s)@ + ipv6_text(bits));
        return;
    }
    let mut segs: Vec<u16> = Vec::new();
    for i in 0..8usize
        invariant
            segs@.len() == i,
            forall|j: int| 0 <= j < i ==> segs@[j] == segment(bits, j),
    {
        let shift: u128 = (112 - 16 * i) as u128;
        segs.push(#[verifier::truncate] (((bits >> shift) & 0xffffu128) as u16));
    }
    assert(segs@ =~= segments(bits));
    let mut cur: usize = 0;
    let mut best_start: usize = 8;
    let mut best_len: usize = 0;
    let mut i: usize = 8;
    while i > 0
        invariant
            i <= 8,
            segs@ == segments(bits),
            cur as nat == zero_run(segs@, i as int),
            cur <= 8 - i,
            best_len <= 8 - i,
            best_start <= 8,
            (best_start as int, best_len as nat) == longest_zero_run(segs@, i as int),
        decreases i,
    {
        i = i - 1;
        if segs[i] == 0 {
            cur = cur + 1;
        } else {
            cur = 0;
        }
        if cur > 0 && cur >= best_len {
            best_start = i;
            best_len = cur;
        }
    }
    if best_len > 1 {
        proof {
            longest_zero_run_bound(segs@, 0);
        }
        push_joined_hex(s, &segs, 0, best_start);
        push_char(s, ':');
        push_char(s, ':');
        push_joined_hex(s, &segs, best_start + best_len, 8);
        assert(s@ =~= old(s)@ + ipv6_text(bits));
    } else {
        push_joined_hex(s, &segs, 0, 8);
        assert(segs@.subrange(0, 8) =~= segs@);
    }
}

/// A run of zero segments never reaches past the end.
pub(crate) proof fn zero_run_bound(s: Seq<u16>, i: int)
    requires
        0 <= i <= s.len(),
    ensures
        i + zero_run(s, i) <= s.len(),
    decreases s.len() - i,
{
    if i < s.len() {
        zero_run_bound(s, i + 1);
    }
}

/// The longest run found from `i` on lies inside the sequence.
pub(crate) proof fn longest_zero_run_bound(s: Seq<u16>, i: int)
    requires
        0 <= i <= s.len(),
    ensures
        longest_zero_run(s, i).1 > 0 ==> i <= longest_zero_run(s, i).0 && longest_zero_run(s, i).0
            + longest_zero_run(s, i).1 <= s.len(),
    decreases s.len() - i,
{
    if i < s.len() {
        zero_run_bound(s, i);
        longest_zero_run_bound(s, i + 1);
    }
}

/// Appends the text of an IP address.
pub fn push_ip(s: &mut String, ip: &IpAddress)
    ensures
        final(s)@ == old(s)@ + ip_text(*ip),
{
    match ip {
        IpAddress::V4(bits) => push_ipv4(s, *bits),
        IpAddress::V6(bits) => push_ipv6(s, *bits),
    }
}

/// The text of an IP address, as std's `Display` writes it.
pub fn ip_to_text(ip: &IpAddress) -> (r: String)
    ensures
        r@ == ip_text(*ip),
{
    let mut s = String::new();
    push_ip(&mut s, ip);
    s
}

impl NetAddress {
    /// The text under which the peer is queued: `ip:port`
    /// (an IPv6 address stands without brackets).
    pub fn to_text(&self) -> (r: String)
        ensures
            r@ == address_text(*self),
    {
        let mut s = String::new();
        push_ip(&mut s, &self.ip);
        push_char(&mut s, ':');
        push_decimal(&mut s, self.port as u64);
        assert(s@ =~= address_text(*self));
        s
    }
}

/// Whether `a` is in `v`.
pub fn contains_address(v: &Vec<NetAddress>, a: &NetAddress) -> (r: bool)
    ensures
        r == v@.contains(*a),
{
    let n = v.len();
    for i in 0..n
        invariant
            n == v@.len(),
            forall|j: int| 0 <= j < i ==> v@[j] != *a,
    {
        if v[i] == *a {
            assert(v@[i as int] == *a);
            return true;
        }
    }
    false
}

/// The peers named by a list of reported addresses, each in normal form;
/// `None` stands for an address that could not be read and names none.
pub open spec fn reported_peers(raw: Seq<Option<NetAddress>>) -> Set<NetAddress> {
    Set::new(|a: NetAddress| exists|i: int| 0 <= i < raw.len() && #[trigger] raw[i] is Some
        && canonical(raw[i]->0) == a)
}

/// Reporting one more address adds the peer it names, if it names one.
proof fn lemma_reported_push(raw: Seq<Option<NetAddress>>, o: Option<NetAddress>)
    ensures
        reported_peers(raw.push(o)) == (match o {
            Some(a) => reported_peers(raw).insert(canonical(a)),
            None => reported_peers(raw),
        }),
{
    let after = raw.push(o);
    assert forall|x: NetAddress| #[trigger] reported_peers(after).contains(x) implies (match o {
        Some(a) => reported_peers(raw).insert(canonical(a)),
        None => reported_peers(raw),
    }).contains(x) by {
        let j = choose|j: int| 0 <= j < after.len() && #[trigger] after[j] is Some && canonical(after[j]->0) == x;
        if j < raw.len() {
            assert(raw[j] == after[j]);
        }
    }
    assert forall|x: NetAddress| #[trigger] reported_peers(raw).contains(x) implies reported_peers(after).contains(x) by {
        let j = choose|j: int| 0 <= j < raw.len() && #[trigger] raw[j] is Some && canonical(raw[j]->0) == x;
        assert(after[j] == raw[j]);
    }
    if o is Some {
        assert(after[raw.len() as int] == o);
        assert(reported_peers(after).contains(canonical(o->0)));
    }
    assert(reported_peers(after) =~= (match o {
        Some(a) => reported_peers(raw).insert(canonical(a)),
        None => reported_peers(raw),
    }));
}

/// Pushing an element adds it to the set of the sequence.
proof fn lemma_push_to_set<A>(s: Seq<A>, a: A)
    ensures
        s.push(a).to_set() == s.to_set().insert(a),
{
    assert forall|x: A| #[trigger] s.push(a).to_set().contains(x) <==> s.to_set().insert(a).contains(x) by {
        if s.push(a).contains(x) && x != a {
            let j = choose|j: int| 0 <= j < s.push(a).len() && s.push(a)[j] == x;
            assert(s[j] == x);
        }
        if s.contains(x) {
            let j = choose|j: int| 0 <= j < s.len() && s[j] == x;
            assert(s.push(a)[j] == x);
        }
        if x == a {
            assert(s.push(a)[s.len() as int] == a);
        }
    }
    assert(s.push(a).to_set() =~= s.to_set().insert(a));
}

/// The set of distinct peers in a list of reported addresses: every
/// readable address in normal form, each once, in the order of first report.
pub fn distinct_peers(raw: &Vec<Option<NetAddress>>) -> (r: Vec<NetAddress>)
    ensures
        r@ == fresh_peers(Seq::empty(), readable_peers(raw@)),
        r@.no_duplicates(),
        r@.to_set() == reported_peers(raw@),
{
    let mut out: Vec<NetAddress> = Vec::new();
    let n = raw.len();
    for i in 0..n
        invariant
            n == raw@.len(),
            out@ == fresh_peers(Seq::empty(), readable_peers(raw@.take(i as int))),
            out@.no_duplicates(),
            out@.to_set() == reported_peers(raw@.take(i as int)),
    {
        let ghost prev = out@;
        match &raw[i] {
            Some(a) => {
                let c = a.to_canonical();
                if !contains_address(&out, &c) {
                    out.push(c);
                }
            },
            None => {},
        }
        proof {
            let before = raw@.take(i as int);
            let after = raw@.take(i + 1);
            assert(after =~= before.push(raw@[i as int]));
            assert(after.drop_last() =~= before);
            match raw@[i as int] {
                Some(a) => {
                    let rp = readable_peers(before).push(canonical(a));
                    assert(rp.drop_last() =~= readable_peers(before));
                },
                None => {},
            }
            lemma_reported_push(before, raw@[i as int]);
            match raw@[i as int] {
                Some(a) => {
                    if prev.contains(canonical(a)) {
                        assert(out@ == prev);
                        assert(prev.to_set().contains(canonical(a)));
                        assert(out@.to_set() =~= prev.to_set().insert(canonical(a)));
                    } else {
                        assert(out@ == prev.push(canonical(a)));
                        lemma_push_to_set(prev, canonical(a));
                    }
                },
                None => {},
            }
        }
    }
    proof {
        assert(raw@.take(n as int) =~= raw@);
    }
    out
}

/// Putting an address in normal form twice changes nothing more than doing
/// it once.
pub proof fn law_canonical_idempotent(ip: IpAddress)
    ensures
        canonical_ip(canonical_ip(ip)) == canonical_ip(ip),
{
}

/// An IPv4-mapped IPv6 address is written as `::ffff:` and the text of the
/// IPv4 address that its normal form is.
pub proof fn law_mapped_text(bits: u128)
    requires
        is_ipv4_mapped(bits),
    ensures
        canonical_ip(IpAddress::V6(bits)) == IpAddress::V4(mapped_ipv4(bits)),
        ip_text(IpAddress::V6(bits)) == "::ffff:"@ + ip_text(canonical_ip(IpAddress::V6(bits))),
{
    reveal_strlit("::ffff:");
    assert(seq![':', ':', 'f', 'f', 'f', 'f', ':'] =~= "::ffff:"@);
}

/// An address in normal form: IPv4 addresses and IPv6 addresses that are
/// not IPv4-mapped stay as they are; an IPv4-mapped one becomes the IPv4
/// address in its low 32 bits, and only that one changes.
pub proof fn law_canonical(ip: IpAddress)
    ensures
        ip is V4 ==> canonical_ip(ip) == ip,
        ip matches IpAddress::V6(bits) ==> (is_ipv4_mapped(bits) <==> canonical_ip(ip) != ip),
        ip matches IpAddress::V6(bits) ==> (is_ipv4_mapped(bits) ==> canonical_ip(ip) == IpAddress::V4(
            (bits % 0x1_0000_0000) as u32,
        )),
        ip matches IpAddress::V6(bits) ==> (is_ipv4_mapped(bits) <==> bits / 0x1_0000_0000
            == 0xffff),
{
    match ip {
        IpAddress::V6(bits) => {
            assert((bits >> 32u128 == 0xffffu128) <==> (bits / 0x1_0000_0000u128 == 0xffffu128))
                by (bit_vector);
            assert((bits & 0xffff_ffffu128) as u32 == (bits % 0x1_0000_0000u128) as u32)
                by (bit_vector);
        },
        IpAddress::V4(_) => {},
    }
}

/// The four octets of an IPv4 address, first octet most significant, make
/// up its number.
pub proof fn law_octets(bits: u32)
    ensures
        bits as int == octet(bits, 0) as int * 0x100_0000 + octet(bits, 1) as int * 0x1_0000
            + octet(bits, 2) as int * 0x100 + octet(bits, 3) as int,
{
    let o0 = octet(bits, 0);
    let o1 = octet(bits, 1);
    let o2 = octet(bits, 2);
    let o3 = octet(bits, 3);
    assert(o0 == ((bits >> 24u32) & 0xffu32) as u8);
    assert(o1 == ((bits >> 16u32) & 0xffu32) as u8);
    assert(o2 == ((bits >> 8u32) & 0xffu32) as u8);
    assert(o3 == ((bits >> 0u32) & 0xffu32) as u8);
    assert(bits == ((((bits >> 24u32) & 0xffu32) as u8) as u32) * 0x100_0000u32 + ((((bits
        >> 16u32) & 0xffu32) as u8) as u32) * 0x1_0000u32 + ((((bits >> 8u32) & 0xffu32) as u8)
        as u32) * 0x100u32 + ((((bits >> 0u32) & 0xffu32) as u8) as u32)) by (bit_vector);
}

/// The eight segments of an IPv6 address, first segment most significant,
/// make up its number.
pub proof fn law_segments(bits: u128)
    ensures
        bits as int == segment(bits, 0) as int * 0x1_0000_0000_0000_0000_0000_0000_0000
            + segment(bits, 1) as int * 0x1_0000_0000_0000_0000_0000_0000 + segment(bits, 2) as int
            * 0x1_0000_0000_0000_0000_0000 + segment(bits, 3) as int * 0x1_0000_0000_0000_0000
            + segment(bits, 4) as int * 0x1_0000_0000_0000 + segment(bits, 5) as int
            * 0x1_0000_0000 + segment(bits, 6) as int * 0x1_0000 + segment(bits, 7) as int,
{
    assert(segment(bits, 0) == ((bits >> 112u128) & 0xffffu128) as u16);
    assert(segment(bits, 1) == ((bits >> 96u128) & 0xffffu128) as u16);
    assert(segment(bits, 2) == ((bits >> 80u128) & 0xffffu128) as u16);
    assert(segment(bits, 3) == ((bits >> 64u128) & 0xffffu128) as u16);
    assert(segment(bits, 4) == ((bits >> 48u128) & 0xffffu128) as u16);
    assert(segment(bits, 5) == ((bits >> 32u128) & 0xffffu128) as u16);
    assert(segment(bits, 6) == ((bits >> 16u128) & 0xffffu128) as u16);
    assert(segment(bits, 7) == ((bits >> 0u128) & 0xffffu128) as u16);
    assert(bits == ((((bits >> 112u128) & 0xffffu128) as u16) as u128) * 0x1_0000_0000_0000_0000_0000_0000_0000u128
        + ((((bits >> 96u128) & 0xffffu128) as u16) as u128) * 0x1_0000_0000_0000_0000_0000_0000u128
        + ((((bits >> 80u128) & 0xffffu128) as u16) as u128) * 0x1_0000_0000_0000_0000_0000u128
        + ((((bits >> 64u128) & 0xffffu128) as u16) as u128) * 0x1_0000_0000_0000_0000u128
        + ((((bits >> 48u128) & 0xffffu128) as u16) as u128) * 0x1_0000_0000_0000u128
        + ((((bits >> 32u128) & 0xffffu128) as u16) as u128) * 0x1_0000_0000u128
        + ((((bits >> 16u128) & 0xffffu128) as u16) as u128) * 0x1_0000u128
        + ((((bits >> 0u128) & 0xffffu128) as u16) as u128)) by (bit_vector);
}

/// The run that IPv6 text compresses is a run of zero segments, no run is
/// longer, and, where there is a zero segment, every run starting before it
/// is shorter.
pub proof fn law_longest_zero_run(s: Seq<u16>, i: int)
    requires
        0 <= i <= s.len(),
    ensures
        forall|j: int| i <= j < s.len() ==> zero_run(s, j) <= #[trigger] longest_zero_run(s, i).1,
        forall|j: int|
            i <= j < longest_zero_run(s, i).0 && j < s.len() && longest_zero_run(s, i).1 > 0
                ==> zero_run(s, j) < #[trigger] longest_zero_run(
                s,
                i,
            ).1,
        longest_zero_run(s, i).1 > 0 ==> i <= longest_zero_run(s, i).0 < s.len() && zero_run(
            s,
            longest_zero_run(s, i).0,
        ) == longest_zero_run(s, i).1,
        forall|k: int|
            longest_zero_run(s, i).0 <= k < longest_zero_run(s, i).0 + longest_zero_run(s, i).1
                ==> #[trigger] s[k] == 0,
    decreases s.len() - i,
{
    if i < s.len() {
        law_longest_zero_run(s, i + 1);
        zero_run_bound(s, i);
        lemma_zero_run_zeros_from(s, i);
    }
}

/// A run of zero segments holds zeros only.
proof fn lemma_zero_run_zeros_from(s: Seq<u16>, i: int)
    requires
        0 <= i,
    ensures
        forall|k: int| i <= k < i + zero_run(s, i) ==> #[trigger] s[k] == 0,
    decreases s.len() - i,
{
    if i < s.len() && s[i] == 0 {
        lemma_zero_run_zeros_from(s, i + 1);
    }
}

/// An IPv4 address is written as the decimal numbers of its four octets,
/// most significant first, separated by `.`.
pub proof fn law_ipv4_text(bits: u32)
    ensures
        ipv4_text(bits) == decimal((bits / 0x100_0000) as nat) + seq!['.'] + decimal(
            ((bits / 0x1_0000) % 0x100) as nat,
        ) + seq!['.'] + decimal(((bits / 0x100) % 0x100) as nat) + seq!['.'] + decimal(
            (bits % 0x100) as nat,
        ),
{
    assert(((bits >> 24u32) & 0xffu32) as u8 as u32 == bits / 0x100_0000u32) by (bit_vector);
    assert(((bits >> 16u32) & 0xffu32) as u8 as u32 == (bits / 0x1_0000u32) % 0x100u32)
        by (bit_vector);
    assert(((bits >> 8u32) & 0xffu32) as u8 as u32 == (bits / 0x100u32) % 0x100u32)
        by (bit_vector);
    assert(((bits >> 0u32) & 0xffu32) as u8 as u32 == bits % 0x100u32) by (bit_vector);
    assert(octet(bits, 0) == ((bits >> 24u32) & 0xffu32) as u8);
    assert(octet(bits, 1) == ((bits >> 16u32) & 0xffu32) as u8);
    assert(octet(bits, 2) == ((bits >> 8u32) & 0xffu32) as u8);
    assert(octet(bits, 3) == ((bits >> 0u32) & 0xffu32) as u8);
}

} // verus!
