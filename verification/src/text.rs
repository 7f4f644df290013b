//! Writing numbers and bytes as text.

use vstd::prelude::*;

verus! {

/// The character for a digit value below sixteen: `0`-`9`, then `a`-`f`.
pub open spec fn digit_char(d: nat) -> char {
    if d < 10 {
        ((48 + d) as u8) as char
    } else {
        ((87 + d) as u8) as char
    }
}

/// The decimal digits of `n`, most significant first, with no leading zero.
pub open spec fn decimal(n: nat) -> Seq<char>
    decreases n,
{
    if n < 10 {
        seq![digit_char(n)]
    } else {
        decimal(n / 10).push(digit_char(n % 10))
    }
}

/// The lower-case hexadecimal digits of `n`, most significant first, with no
/// leading zero.
pub open spec fn hex_digits(n: nat) -> Seq<char>
    decreases n,
{
    if n < 16 {
        seq![digit_char(n)]
    } else {
        hex_digits(n / 16).push(digit_char(n % 16))
    }
}

/// The two lower-case hexadecimal digits of a byte, leading zero kept.
pub open spec fn byte_hex(b: u8) -> Seq<char> {
    seq![digit_char(b as nat / 16), digit_char(b as nat % 16)]
}

/// The lower-case hexadecimal text of a byte string, two digits per byte.
pub open spec fn hex_string(bytes: Seq<u8>) -> Seq<char>
    decreases bytes.len(),
{
    if bytes.len() == 0 {
        Seq::empty()
    } else {
        hex_string(bytes.drop_last()) + byte_hex(bytes.last())
    }
}

/// Appends one character to a string: std's `String::push`, which the
/// contract takes to append `c` at the end and change nothing else.
#[verifier::external_body]
pub(crate) fn push_char(s: &mut String, c: char)
    ensures
        final(s)@ == old(s)@.push(c),
{
    s.push(c);
}

fn digit(d: u64) -> (c: char)
    requires
        d < 16,
    ensures
        c == digit_char(d as nat),
{
    let b: u8 = d as u8;
    if b < 10 {
        (48 + b) as char
    } else {
        (87 + b) as char
    }
}

/// Appends the decimal digits of `n`.
pub fn push_decimal(s: &mut String, n: u64)
    ensures
        final(s)@ == old(s)@ + decimal(n as nat),
    decreases n,
{
    if n >= 10 {
        push_decimal(s, n / 10);
    }
    push_char(s, digit(n % 10));
    proof {
        assert(decimal(n as nat) == if n < 10 { seq![digit_char(n as nat)] } else {
            decimal((n / 10) as nat).push(digit_char((n % 10) as nat))
        });
    }
}

/// Appends the lower-case hexadecimal digits of `n`.
pub fn push_hex(s: &mut String, n: u64)
    ensures
        final(s)@ == old(s)@ + hex_digits(n as nat),
    decreases n,
{
    if n >= 16 {
        push_hex(s, n / 16);
    }
    push_char(s, digit(n % 16));
}

/// The decimal text of `n`.
pub fn decimal_text(n: u64) -> (r: String)
    ensures
        r@ == decimal(n as nat),
{
    let mut s = String::new();
    push_decimal(&mut s, n);
    s
}

/// The lower-case hexadecimal text of a byte string, two digits for every
/// byte, leading zeros kept: `[0x0a, 0xff]` gives `"0aff"`.
pub fn to_hex(bytes: &[u8]) -> (r: String)
    ensures
        r@ == hex_string(bytes@),
{
    let mut s = String::new();
    let n = bytes.len();
    for i in 0..n
        invariant
            n == bytes@.len(),
            s@ == hex_string(bytes@.take(i as int)),
    {
        let b = bytes[i];
        push_char(&mut s, digit((b / 16) as u64));
        push_char(&mut s, digit((b % 16) as u64));
        proof {
            assert(bytes@.take(i + 1).drop_last() =~= bytes@.take(i as int));
        }
    }
    proof {
        assert(bytes@.take(n as int) =~= bytes@);
    }
    s
}

/// Every byte takes exactly two characters of hexadecimal text.
pub proof fn law_hex_length(bytes: Seq<u8>)
    ensures
        hex_string(bytes).len() == 2 * bytes.len(),
    decreases bytes.len(),
{
    if bytes.len() > 0 {
        law_hex_length(bytes.drop_last());
    }
}

/// Hexadecimal text of a concatenation is the concatenation of the texts.
pub proof fn law_hex_concat(a: Seq<u8>, b: Seq<u8>)
    ensures
        hex_string(a + b) == hex_string(a) + hex_string(b),
    decreases b.len(),
{
    if b.len() == 0 {
        assert(a + b =~= a);
        assert(hex_string(a) + hex_string(b) =~= hex_string(a));
    } else {
        law_hex_concat(a, b.drop_last());
        assert((a + b).drop_last() =~= a + b.drop_last());
        assert(hex_string(a) + hex_string(b) =~= hex_string(a) + hex_string(b.drop_last())
            + byte_hex(b.last()));
    }
}

/// The number that a text of digits in base `base` stands for, most
/// significant digit first (`0`-`9`, then `a`-`f`).
pub open spec fn digits_value(s: Seq<char>, base: nat) -> int
    decreases s.len(),
{
    if s.len() == 0 {
        0
    } else {
        digits_value(s.drop_last(), base) * base + digit_of(s.last())
    }
}

/// The value of a digit character.
pub open spec fn digit_of(c: char) -> int {
    if '0' <= c && c <= '9' {
        c as int - '0' as int
    } else {
        c as int - 'a' as int + 10
    }
}

/// Whether `c` is a digit of base `base` (at most sixteen), lower case.
pub open spec fn is_digit(c: char, base: nat) -> bool {
    ('0' <= c && c <= '9' && (c as int - '0' as int) < base) || (base > 10 && 'a' <= c && (c as int
        - 'a' as int) < base - 10)
}

/// The digit characters are `0` to `9`, then `a` to `f`.
pub proof fn law_digit_char(d: nat)
    requires
        d < 16,
    ensures
        d < 10 ==> digit_char(d) as int == '0' as int + d,
        d >= 10 ==> digit_char(d) as int == 'a' as int + d - 10,
        digit_of(digit_char(d)) == d,
        is_digit(digit_char(d), 16),
        d < 10 ==> is_digit(digit_char(d), 10),
{
}

/// Decimal text is the number's digits: read back it gives the number,
/// every character is a decimal digit, and it has no leading zero.
pub proof fn law_decimal_digits(n: nat)
    ensures
        digits_value(decimal(n), 10) == n,
        forall|i: int| 0 <= i < decimal(n).len() ==> is_digit(#[trigger] decimal(n)[i], 10),
        decimal(n).len() >= 1,
        n > 0 ==> decimal(n)[0] != '0',
    decreases n,
{
    law_digit_char(n % 10);
    if n >= 10 {
        law_decimal_digits(n / 10);
        let d = decimal(n);
        assert(d.drop_last() =~= decimal(n / 10));
        assert(d.last() == digit_char(n % 10));
        assert(digits_value(d, 10) == digits_value(d.drop_last(), 10) * 10 + digit_of(d.last()));
        assert(n == (n / 10) * 10 + n % 10);
        assert forall|i: int| 0 <= i < d.len() implies is_digit(#[trigger] d[i], 10) by {
            if i < d.len() - 1 {
                assert(d[i] == decimal(n / 10)[i]);
            }
        }
        assert(d[0] == decimal(n / 10)[0]);
    } else {
        let d = decimal(n);
        assert(d.drop_last() =~= Seq::<char>::empty());
        assert(d.last() == digit_char(n));
        assert(digits_value(d, 10) == digits_value(d.drop_last(), 10) * 10 + digit_of(d.last()));
        assert(digits_value(d.drop_last(), 10) == 0);
    }
}

/// Hexadecimal text is the number's digits in base sixteen, in lower case,
/// with no leading zero.
pub proof fn law_hex_digits(n: nat)
    ensures
        digits_value(hex_digits(n), 16) == n,
        forall|i: int| 0 <= i < hex_digits(n).len() ==> is_digit(#[trigger] hex_digits(n)[i], 16),
        hex_digits(n).len() >= 1,
        n > 0 ==> hex_digits(n)[0] != '0',
    decreases n,
{
    law_digit_char(n % 16);
    if n >= 16 {
        law_hex_digits(n / 16);
        let d = hex_digits(n);
        assert(d.drop_last() =~= hex_digits(n / 16));
        assert(d.last() == digit_char(n % 16));
        assert(digits_value(d, 16) == digits_value(d.drop_last(), 16) * 16 + digit_of(d.last()));
        assert(n == (n / 16) * 16 + n % 16);
        assert forall|i: int| 0 <= i < d.len() implies is_digit(#[trigger] d[i], 16) by {
            if i < d.len() - 1 {
                assert(d[i] == hex_digits(n / 16)[i]);
            }
        }
        assert(d[0] == hex_digits(n / 16)[0]);
    } else {
        let d = hex_digits(n);
        assert(d.drop_last() =~= Seq::<char>::empty());
        assert(d.last() == digit_char(n));
        assert(digits_value(d, 16) == digits_value(d.drop_last(), 16) * 16 + digit_of(d.last()));
        assert(digits_value(d.drop_last(), 16) == 0);
    }
}

/// A byte is written as its high half then its low half, each one
/// hexadecimal digit, so that the two read back give the byte.
pub proof fn law_byte_hex(b: u8)
    ensures
        hex_string(seq![b]).len() == 2,
        digits_value(hex_string(seq![b]), 16) == b,
        is_digit(hex_string(seq![b])[0], 16),
        is_digit(hex_string(seq![b])[1], 16),
{
    let one = seq![b];
    assert(one.drop_last() =~= Seq::<u8>::empty());
    assert(one.last() == b);
    law_digit_char(b as nat / 16);
    law_digit_char(b as nat % 16);
    let h = hex_string(one);
    assert(h == hex_string(one.drop_last()) + byte_hex(b));
    assert(hex_string(one.drop_last()) == Seq::<char>::empty());
    assert(h =~= seq![digit_char(b as nat / 16), digit_char(b as nat % 16)]);
    let hi = h.drop_last();
    assert(hi =~= seq![digit_char(b as nat / 16)]);
    assert(hi.drop_last() =~= Seq::<char>::empty());
    assert(digits_value(hi, 16) == digits_value(hi.drop_last(), 16) * 16 + digit_of(hi.last()));
    assert(digits_value(h, 16) == digits_value(hi, 16) * 16 + digit_of(h.last()));
    assert(b == (b / 16) * 16 + b % 16);
}

} // verus!
