//! Laws of the address text: different peers are written differently.

use vstd::prelude::*;
use crate::address::{
    longest_zero_run_bound, address_text, ip_text, ipv4_text, ipv6_text, is_ipv4_mapped, join_hex, longest_zero_run,
    mapped_ipv4, octet, segment, segments, zero_run, IpAddress, NetAddress,
};
use crate::text::{decimal, digit_char, hex_digits};

verus! {

/// No character of `s` is `c`.
pub open spec fn free_of(s: Seq<char>, c: char) -> bool {
    forall|i: int| 0 <= i < s.len() ==> s[i] != c
}

proof fn lemma_digit_char(d: nat)
    requires
        d < 16,
    ensures
        digit_char(d) != ':',
        digit_char(d) != '.',
        forall|e: nat| e < 16 && digit_char(e) == digit_char(d) ==> e == d,
{
}

/// Decimal text is never empty and holds neither `:` nor `.`.
proof fn lemma_decimal_shape(n: nat)
    ensures
        decimal(n).len() >= 1,
        n >= 10 ==> decimal(n).len() >= 2,
        free_of(decimal(n), ':'),
        free_of(decimal(n), '.'),
    decreases n,
{
    lemma_digit_char(n % 10);
    if n >= 10 {
        lemma_decimal_shape(n / 10);
        assert forall|i: int| 0 <= i < decimal(n).len() implies decimal(n)[i] != ':'
            && decimal(n)[i] != '.' by {
            if i < decimal(n / 10).len() {
                assert(decimal(n)[i] == decimal(n / 10)[i]);
            }
        }
    }
}

/// Different numbers have different decimal texts.
proof fn lemma_decimal_injective(n: nat, m: nat)
    requires
        decimal(n) == decimal(m),
    ensures
        n == m,
    decreases n,
{
    lemma_decimal_shape(n);
    lemma_decimal_shape(m);
    lemma_digit_char(n % 10);
    lemma_digit_char(m % 10);
    if n < 10 {
        assert(m < 10);
        assert(decimal(n)[0] == decimal(m)[0]);
        assert(decimal(n)[0] == digit_char(n % 10));
        assert(decimal(m)[0] == digit_char(m % 10));
    } else {
        assert(m >= 10);
        assert(decimal(n).last() == decimal(m).last());
        assert(decimal(n).last() == digit_char(n % 10));
        assert(decimal(m).last() == digit_char(m % 10));
        assert(n % 10 == m % 10);
        assert(decimal(n).drop_last() =~= decimal(n / 10));
        assert(decimal(m).drop_last() =~= decimal(m / 10));
        lemma_decimal_injective(n / 10, m / 10);
        assert(n == 10 * (n / 10) + n % 10);
        assert(m == 10 * (m / 10) + m % 10);
    }
}

/// Hexadecimal text is never empty and holds neither `:` nor `.`.
proof fn lemma_hex_shape(n: nat)
    ensures
        hex_digits(n).len() >= 1,
        n >= 16 ==> hex_digits(n).len() >= 2,
        free_of(hex_digits(n), ':'),
        free_of(hex_digits(n), '.'),
    decreases n,
{
    lemma_digit_char(n % 16);
    if n >= 16 {
        lemma_hex_shape(n / 16);
        assert forall|i: int| 0 <= i < hex_digits(n).len() implies hex_digits(n)[i] != ':'
            && hex_digits(n)[i] != '.' by {
            if i < hex_digits(n / 16).len() {
                assert(hex_digits(n)[i] == hex_digits(n / 16)[i]);
            }
        }
    }
}

/// Different numbers have different hexadecimal texts.
proof fn lemma_hex_injective(n: nat, m: nat)
    requires
        hex_digits(n) == hex_digits(m),
    ensures
        n == m,
    decreases n,
{
    lemma_digit_char(n % 16);
    lemma_digit_char(m % 16);
    lemma_hex_shape(n);
    lemma_hex_shape(m);
    if n < 16 {
        assert(m < 16);
        assert(hex_digits(n)[0] == hex_digits(m)[0]);
        assert(hex_digits(n)[0] == digit_char(n % 16));
        assert(hex_digits(m)[0] == digit_char(m % 16));
    } else {
        assert(hex_digits(n).last() == hex_digits(m).last());
        assert(hex_digits(n).last() == digit_char(n % 16));
        assert(hex_digits(m).last() == digit_char(m % 16));
        assert(n % 16 == m % 16);
        assert(hex_digits(n).drop_last() =~= hex_digits(n / 16));
        assert(hex_digits(m).drop_last() =~= hex_digits(m / 16));
        lemma_hex_injective(n / 16, m / 16);
        assert(n == 16 * (n / 16) + n % 16);
        assert(m == 16 * (m / 16) + m % 16);
    }
}

/// Two texts that end with a separator and then a part free of it split
/// alike.
proof fn lemma_split_last(u: Seq<char>, v: Seq<char>, u2: Seq<char>, v2: Seq<char>, c: char)
    requires
        u + seq![c] + v == u2 + seq![c] + v2,
        free_of(v, c),
        free_of(v2, c),
    ensures
        u == u2,
        v == v2,
{
    let w = u + seq![c];
    let w2 = u2 + seq![c];
    let t = w + v;
    let t2 = w2 + v2;
    assert(w.len() == u.len() + 1);
    assert(w2.len() == u2.len() + 1);
    assert(t.len() == t2.len());
    if v.len() < v2.len() {
        let p = u.len() as int;
        assert(t[p] == w[p]);
        assert(w[p] == c);
        assert(p >= w2.len());
        assert(t2[p] == v2[p - w2.len()]);
        assert(false);
    } else if v2.len() < v.len() {
        let p = u2.len() as int;
        assert(t2[p] == w2[p]);
        assert(w2[p] == c);
        assert(p >= w.len());
        assert(t[p] == v[p - w.len()]);
        assert(false);
    }
    assert(u.len() == u2.len());
    assert forall|i: int| 0 <= i < u.len() implies u[i] == u2[i] by {
        assert(t[i] == w[i]);
        assert(t2[i] == w2[i]);
    }
    assert forall|i: int| 0 <= i < v.len() implies v[i] == v2[i] by {
        assert(t[w.len() + i] == v[i]);
        assert(t2[w.len() + i] == v2[i]);
    }
    assert(u =~= u2);
    assert(v =~= v2);
}

/// A text free of `c` on both sides of a join is free of it.
proof fn lemma_free_concat(x: Seq<char>, y: Seq<char>, c: char)
    requires
        free_of(x, c),
        free_of(y, c),
    ensures
        free_of(x + y, c),
{
    assert forall|i: int| 0 <= i < (x + y).len() implies (x + y)[i] != c by {
        if i < x.len() {
            assert((x + y)[i] == x[i]);
        } else {
            assert((x + y)[i] == y[i - x.len()]);
        }
    }
}

/// The four octets of an IPv4 address determine it.
proof fn lemma_octets_determine(a: u32, b: u32)
    requires
        octet(a, 0) == octet(b, 0),
        octet(a, 1) == octet(b, 1),
        octet(a, 2) == octet(b, 2),
        octet(a, 3) == octet(b, 3),
    ensures
        a == b,
{
    assert(octet(a, 0) == ((a >> 24u32) & 0xffu32) as u8);
    assert(octet(b, 0) == ((b >> 24u32) & 0xffu32) as u8);
    assert(octet(a, 1) == ((a >> 16u32) & 0xffu32) as u8);
    assert(octet(b, 1) == ((b >> 16u32) & 0xffu32) as u8);
    assert(octet(a, 2) == ((a >> 8u32) & 0xffu32) as u8);
    assert(octet(b, 2) == ((b >> 8u32) & 0xffu32) as u8);
    assert(octet(a, 3) == ((a >> 0u32) & 0xffu32) as u8);
    assert(octet(b, 3) == ((b >> 0u32) & 0xffu32) as u8);
    assert(a == b) by (bit_vector)
        requires
            ((a >> 24u32) & 0xffu32) as u8 == ((b >> 24u32) & 0xffu32) as u8,
            ((a >> 16u32) & 0xffu32) as u8 == ((b >> 16u32) & 0xffu32) as u8,
            ((a >> 8u32) & 0xffu32) as u8 == ((b >> 8u32) & 0xffu32) as u8,
            ((a >> 0u32) & 0xffu32) as u8 == ((b >> 0u32) & 0xffu32) as u8,
    ;
}

/// Dotted-decimal text holds no `:`, and holds a `.`.
proof fn lemma_ipv4_shape(bits: u32)
    ensures
        free_of(ipv4_text(bits), ':'),
        ipv4_text(bits).contains('.'),
{
    let d0 = decimal(octet(bits, 0) as nat);
    let d1 = decimal(octet(bits, 1) as nat);
    let d2 = decimal(octet(bits, 2) as nat);
    let d3 = decimal(octet(bits, 3) as nat);
    lemma_decimal_shape(octet(bits, 0) as nat);
    lemma_decimal_shape(octet(bits, 1) as nat);
    lemma_decimal_shape(octet(bits, 2) as nat);
    lemma_decimal_shape(octet(bits, 3) as nat);
    let dot = seq!['.'];
    assert(free_of(dot, ':'));
    lemma_free_concat(d0, dot, ':');
    lemma_free_concat(d0 + dot, d1, ':');
    lemma_free_concat(d0 + dot + d1, dot, ':');
    lemma_free_concat(d0 + dot + d1 + dot, d2, ':');
    lemma_free_concat(d0 + dot + d1 + dot + d2, dot, ':');
    lemma_free_concat(d0 + dot + d1 + dot + d2 + dot, d3, ':');
    assert(ipv4_text(bits)[d0.len() as int] == '.');
}

/// Different IPv4 addresses have different dotted-decimal texts.
proof fn lemma_ipv4_injective(a: u32, b: u32)
    requires
        ipv4_text(a) == ipv4_text(b),
    ensures
        a == b,
{
    let dot = seq!['.'];
    let da = |i: int| decimal(octet(a, i) as nat);
    let db = |i: int| decimal(octet(b, i) as nat);
    lemma_decimal_shape(octet(a, 0) as nat);
    lemma_decimal_shape(octet(a, 1) as nat);
    lemma_decimal_shape(octet(a, 2) as nat);
    lemma_decimal_shape(octet(a, 3) as nat);
    lemma_decimal_shape(octet(b, 0) as nat);
    lemma_decimal_shape(octet(b, 1) as nat);
    lemma_decimal_shape(octet(b, 2) as nat);
    lemma_decimal_shape(octet(b, 3) as nat);
    lemma_split_last(da(0) + dot + da(1) + dot + da(2), da(3), db(0) + dot + db(1) + dot + db(2), db(3), '.');
    lemma_split_last(da(0) + dot + da(1), da(2), db(0) + dot + db(1), db(2), '.');
    lemma_split_last(da(0), da(1), db(0), db(1), '.');
    lemma_decimal_injective(octet(a, 0) as nat, octet(b, 0) as nat);
    lemma_decimal_injective(octet(a, 1) as nat, octet(b, 1) as nat);
    lemma_decimal_injective(octet(a, 2) as nat, octet(b, 2) as nat);
    lemma_decimal_injective(octet(a, 3) as nat, octet(b, 3) as nat);
    lemma_octets_determine(a, b);
}

/// `t` has `::` at `k`.
pub open spec fn double_colon_at(t: Seq<char>, k: int) -> bool {
    0 <= k && k + 1 < t.len() && t[k] == ':' && t[k + 1] == ':'
}

/// `t` holds no `::`.
pub open spec fn no_double_colon(t: Seq<char>) -> bool {
    forall|i: int| !#[trigger] double_colon_at(t, i)
}

/// Joined hexadecimal segments hold no `.` and no `::`; they are empty
/// only for no segments, never start or end with `:`, and hold a `:` exactly
/// when there are two segments or more.
proof fn lemma_join_shape(s: Seq<u16>)
    ensures
        free_of(join_hex(s), '.'),
        no_double_colon(join_hex(s)),
        s.len() == 0 ==> join_hex(s).len() == 0,
        s.len() >= 1 ==> join_hex(s).len() >= 1 && join_hex(s)[0] != ':' && join_hex(s).last()
            != ':',
        s.len() == 1 ==> free_of(join_hex(s), ':'),
        s.len() >= 2 ==> join_hex(s).contains(':'),
    decreases s.len(),
{
    if s.len() == 1 {
        lemma_hex_shape(s[0] as nat);
    } else if s.len() >= 2 {
        let rest = join_hex(s.drop_last());
        let h = hex_digits(s.last() as nat);
        lemma_join_shape(s.drop_last());
        lemma_hex_shape(s.last() as nat);
        let t = join_hex(s);
        let colon = seq![':'];
        assert(t == rest + colon + h);
        assert(free_of(colon, '.'));
        lemma_free_concat(rest, colon, '.');
        lemma_free_concat(rest + colon, h, '.');
        assert(t[rest.len() as int] == ':');
        assert(t[0] == rest[0]);
        assert(t.last() == h.last());
        assert forall|i: int| !#[trigger] double_colon_at(t, i) by {
            if 0 <= i && i + 1 < t.len() {
            if i + 1 < rest.len() {
                assert(t[i] == rest[i]);
                assert(t[i + 1] == rest[i + 1]);
                assert(!double_colon_at(rest, i));
            } else if i + 1 == rest.len() {
                assert(t[i] == rest[i]);
                assert(rest[i] == rest.last());
            } else if i == rest.len() {
                assert(t[i + 1] == h[0]);
            } else {
                assert(t[i] == h[i - rest.len() - 1]);
            }
            }
        }
    }
}

/// Different segment lists have different joined texts.
proof fn lemma_join_injective(s: Seq<u16>, t: Seq<u16>)
    requires
        join_hex(s) == join_hex(t),
    ensures
        s == t,
    decreases s.len(),
{
    lemma_join_shape(s);
    lemma_join_shape(t);
    if s.len() == 0 {
        assert(t.len() == 0);
        assert(s =~= t);
    } else if s.len() == 1 {
        if t.len() >= 2 {
            let j = choose|j: int| 0 <= j < join_hex(t).len() && join_hex(t)[j] == ':';
            assert(join_hex(s)[j] == ':');
        }
        assert(t.len() == 1);
        lemma_hex_injective(s[0] as nat, t[0] as nat);
        assert(s =~= t);
    } else {
        if t.len() == 1 {
            let j = choose|j: int| 0 <= j < join_hex(s).len() && join_hex(s)[j] == ':';
            assert(join_hex(t)[j] == ':');
        }
        assert(t.len() >= 2);
        lemma_hex_shape(s.last() as nat);
        lemma_hex_shape(t.last() as nat);
        lemma_split_last(
            join_hex(s.drop_last()),
            hex_digits(s.last() as nat),
            join_hex(t.drop_last()),
            hex_digits(t.last() as nat),
            ':',
        );
        lemma_hex_injective(s.last() as nat, t.last() as nat);
        lemma_join_injective(s.drop_last(), t.drop_last());
        assert(s =~= s.drop_last().push(s.last()));
        assert(t =~= t.drop_last().push(t.last()));
    }
}

/// In a compressed text, the first `::` stands right after the segments
/// before the run.
proof fn lemma_first_double_colon(a: Seq<u16>, b: Seq<u16>, t: Seq<char>)
    requires
        t == join_hex(a) + seq![':', ':'] + join_hex(b),
    ensures
        double_colon_at(t, join_hex(a).len() as int),
        forall|k: int| 0 <= k < join_hex(a).len() ==> !#[trigger] double_colon_at(t, k),
{
    let ja = join_hex(a);
    lemma_join_shape(a);
    assert(t[ja.len() as int] == ':');
    assert(t[ja.len() as int + 1] == ':');
    assert forall|k: int| 0 <= k < ja.len() implies !double_colon_at(t, k) by {
        if k + 1 < ja.len() {
            assert(t[k] == ja[k]);
            assert(t[k + 1] == ja[k + 1]);
            assert(!double_colon_at(ja, k));
        } else {
            assert(t[k] == ja[k]);
            assert(ja[k] == ja.last());
        }
    }
}

/// Compressed texts are equal only for the same segments before and after
/// the run.
proof fn lemma_compressed_injective(a: Seq<u16>, b: Seq<u16>, a2: Seq<u16>, b2: Seq<u16>)
    requires
        join_hex(a) + seq![':', ':'] + join_hex(b) == join_hex(a2) + seq![':', ':'] + join_hex(
            b2,
        ),
    ensures
        a == a2,
        b == b2,
{
    let t = join_hex(a) + seq![':', ':'] + join_hex(b);
    let n = join_hex(a).len() as int;
    let n2 = join_hex(a2).len() as int;
    lemma_first_double_colon(a, b, t);
    lemma_first_double_colon(a2, b2, t);
    if n < n2 {
        assert(double_colon_at(t, n));
    } else if n2 < n {
        assert(double_colon_at(t, n2));
    }
    assert(n == n2);
    assert(join_hex(a) =~= t.subrange(0, n));
    assert(join_hex(a2) =~= t.subrange(0, n));
    assert(join_hex(b) =~= t.subrange(n + 2, t.len() as int));
    assert(join_hex(b2) =~= t.subrange(n + 2, t.len() as int));
    lemma_join_injective(a, a2);
    lemma_join_injective(b, b2);
}

/// A run of zero segments holds zeros only.
proof fn lemma_zero_run_zeros(s: Seq<u16>, i: int)
    requires
        0 <= i,
    ensures
        forall|k: int| i <= k < i + zero_run(s, i) ==> #[trigger] s[k] == 0,
    decreases s.len() - i,
{
    if i < s.len() && s[i] == 0 {
        lemma_zero_run_zeros(s, i + 1);
    }
}

/// The longest run found from `i` on is a run of zeros starting at or
/// after `i`.
proof fn lemma_longest_is_run(s: Seq<u16>, i: int)
    requires
        0 <= i <= s.len(),
    ensures
        longest_zero_run(s, i).1 > 0 ==> longest_zero_run(s, i).0 >= i && longest_zero_run(s, i).1
            == zero_run(s, longest_zero_run(s, i).0),
    decreases s.len() - i,
{
    if i < s.len() {
        lemma_longest_is_run(s, i + 1);
    }
}

/// The eight segments of an IPv6 address determine it.
proof fn lemma_segments_determine(a: u128, b: u128)
    requires
        segments(a) == segments(b),
    ensures
        a == b,
{
    assert forall|i: int| 0 <= i < 8 implies #[trigger] segment(a, i) == segment(b, i) by {
        assert(segments(a)[i] == segment(a, i));
        assert(segments(b)[i] == segment(b, i));
        assert(segments(a)[i] == segments(b)[i]);
    }
    assert(segment(a, 0) == segment(b, 0) && segment(a, 1) == segment(b, 1) && segment(a, 2)
        == segment(b, 2) && segment(a, 3) == segment(b, 3) && segment(a, 4) == segment(b, 4)
        && segment(a, 5) == segment(b, 5) && segment(a, 6) == segment(b, 6) && segment(a, 7)
        == segment(b, 7));
    assert(a == b) by (bit_vector)
        requires
            ((a >> 112u128) & 0xffffu128) as u16 == ((b >> 112u128) & 0xffffu128) as u16,
            ((a >> 96u128) & 0xffffu128) as u16 == ((b >> 96u128) & 0xffffu128) as u16,
            ((a >> 80u128) & 0xffffu128) as u16 == ((b >> 80u128) & 0xffffu128) as u16,
            ((a >> 64u128) & 0xffffu128) as u16 == ((b >> 64u128) & 0xffffu128) as u16,
            ((a >> 48u128) & 0xffffu128) as u16 == ((b >> 48u128) & 0xffffu128) as u16,
            ((a >> 32u128) & 0xffffu128) as u16 == ((b >> 32u128) & 0xffffu128) as u16,
            ((a >> 16u128) & 0xffffu128) as u16 == ((b >> 16u128) & 0xffffu128) as u16,
            ((a >> 0u128) & 0xffffu128) as u16 == ((b >> 0u128) & 0xffffu128) as u16,
    ;
}

/// Two IPv4-mapped addresses carrying the same IPv4 address are equal.
proof fn lemma_mapped_determine(a: u128, b: u128)
    requires
        is_ipv4_mapped(a),
        is_ipv4_mapped(b),
        mapped_ipv4(a) == mapped_ipv4(b),
    ensures
        a == b,
{
    assert(a == b) by (bit_vector)
        requires
            a >> 32u128 == 0xffffu128,
            b >> 32u128 == 0xffffu128,
            (a & 0xffff_ffffu128) as u32 == (b & 0xffff_ffffu128) as u32,
    ;
}

/// The text of an IPv6 address always holds a `:`; it holds a `.` exactly
/// when the address is IPv4-mapped.
proof fn lemma_ipv6_shape(bits: u128)
    ensures
        ipv6_text(bits).contains(':'),
        is_ipv4_mapped(bits) ==> ipv6_text(bits).contains('.'),
        !is_ipv4_mapped(bits) ==> free_of(ipv6_text(bits), '.'),
{
    let t = ipv6_text(bits);
    if is_ipv4_mapped(bits) {
        let p = seq![':', ':', 'f', 'f', 'f', 'f', ':'];
        let v = ipv4_text(mapped_ipv4(bits));
        assert(t == p + v);
        assert(t[0] == ':');
        lemma_ipv4_shape(mapped_ipv4(bits));
        let j = choose|j: int| 0 <= j < v.len() && v[j] == '.';
        assert(t[7 + j] == '.');
    } else {
        let s = segments(bits);
        let run = longest_zero_run(s, 0);
        if run.1 > 1 {
            longest_zero_run_bound(s, 0);
            let a = s.subrange(0, run.0);
            let b = s.subrange(run.0 + run.1, 8);
            lemma_join_shape(a);
            lemma_join_shape(b);
            let dd = seq![':', ':'];
            assert(free_of(dd, '.'));
            lemma_free_concat(join_hex(a), dd, '.');
            lemma_free_concat(join_hex(a) + dd, join_hex(b), '.');
            assert(t[join_hex(a).len() as int] == ':');
        } else {
            lemma_join_shape(s);
        }
    }
}

/// Different IPv6 addresses have different texts.
proof fn lemma_ipv6_injective(a: u128, b: u128)
    requires
        ipv6_text(a) == ipv6_text(b),
    ensures
        a == b,
{
    let t = ipv6_text(a);
    lemma_ipv6_shape(a);
    lemma_ipv6_shape(b);
    if is_ipv4_mapped(a) && is_ipv4_mapped(b) {
        let p = seq![':', ':', 'f', 'f', 'f', 'f', ':'];
        assert(ipv4_text(mapped_ipv4(a)) =~= t.subrange(7, t.len() as int));
        assert(ipv4_text(mapped_ipv4(b)) =~= t.subrange(7, t.len() as int));
        lemma_ipv4_injective(mapped_ipv4(a), mapped_ipv4(b));
        lemma_mapped_determine(a, b);
    } else if is_ipv4_mapped(a) || is_ipv4_mapped(b) {
        let j = choose|j: int| 0 <= j < t.len() && t[j] == '.';
        assert(false);
    } else {
        let s = segments(a);
        let s2 = segments(b);
        let run = longest_zero_run(s, 0);
        let run2 = longest_zero_run(s2, 0);
        longest_zero_run_bound(s, 0);
        longest_zero_run_bound(s2, 0);
        if run.1 > 1 && run2.1 > 1 {
            let x = s.subrange(0, run.0);
            let y = s.subrange(run.0 + run.1, 8);
            let x2 = s2.subrange(0, run2.0);
            let y2 = s2.subrange(run2.0 + run2.1, 8);
            lemma_compressed_injective(x, y, x2, y2);
            lemma_longest_is_run(s, 0);
            lemma_longest_is_run(s2, 0);
            lemma_zero_run_zeros(s, run.0);
            lemma_zero_run_zeros(s2, run2.0);
            assert(x.len() == x2.len());
            assert(y.len() == y2.len());
            assert forall|k: int| 0 <= k < 8 implies s[k] == s2[k] by {
                if k < run.0 {
                    assert(s[k] == x[k]);
                    assert(s2[k] == x2[k]);
                } else if k < run.0 + run.1 {
                    assert(s[k] == 0);
                    assert(s2[k] == 0);
                } else {
                    assert(s[k] == y[k - run.0 - run.1]);
                    assert(s2[k] == y2[k - run.0 - run.1]);
                }
            }
            assert(s =~= s2);
            lemma_segments_determine(a, b);
        } else if run.1 > 1 || run2.1 > 1 {
            if run.1 > 1 {
                let x = s.subrange(0, run.0);
                let y = s.subrange(run.0 + run.1, 8);
                lemma_first_double_colon(x, y, t);
                lemma_join_shape(s2);
                assert(!double_colon_at(join_hex(s2), join_hex(x).len() as int));
            } else {
                let x2 = s2.subrange(0, run2.0);
                let y2 = s2.subrange(run2.0 + run2.1, 8);
                lemma_first_double_colon(x2, y2, t);
                lemma_join_shape(s);
                assert(!double_colon_at(join_hex(s), join_hex(x2).len() as int));
            }
        } else {
            lemma_join_injective(s, s2);
            lemma_segments_determine(a, b);
        }
    }
}

/// Different IP addresses have different texts.
pub proof fn law_ip_text_injective(a: IpAddress, b: IpAddress)
    requires
        ip_text(a) == ip_text(b),
    ensures
        a == b,
{
    match (a, b) {
        (IpAddress::V4(x), IpAddress::V4(y)) => lemma_ipv4_injective(x, y),
        (IpAddress::V6(x), IpAddress::V6(y)) => lemma_ipv6_injective(x, y),
        (IpAddress::V4(x), IpAddress::V6(y)) => {
            lemma_ipv4_shape(x);
            lemma_ipv6_shape(y);
            let j = choose|j: int| 0 <= j < ipv6_text(y).len() && ipv6_text(y)[j] == ':';
            assert(ipv4_text(x)[j] == ':');
        },
        (IpAddress::V6(x), IpAddress::V4(y)) => {
            lemma_ipv4_shape(y);
            lemma_ipv6_shape(x);
            let j = choose|j: int| 0 <= j < ipv6_text(x).len() && ipv6_text(x)[j] == ':';
            assert(ipv4_text(y)[j] == ':');
        },
    }
}

/// Different peers are queued under different texts.
pub proof fn law_address_text_injective(a: NetAddress, b: NetAddress)
    requires
        address_text(a) == address_text(b),
    ensures
        a == b,
{
    lemma_decimal_shape(a.port as nat);
    lemma_decimal_shape(b.port as nat);
    lemma_split_last(ip_text(a.ip), decimal(a.port as nat), ip_text(b.ip), decimal(b.port as nat), ':');
    lemma_decimal_injective(a.port as nat, b.port as nat);
    law_ip_text_injective(a.ip, b.ip);
}

} // verus!
