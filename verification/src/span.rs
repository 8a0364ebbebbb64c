//! Decimal parsing of the `colspan` / `rowspan` attribute values.

use vstd::prelude::*;

verus! {

pub open spec fn is_digit(b: u8) -> bool {
    48 <= b <= 57
}

/// The value of a run of decimal digits, most significant first.
pub open spec fn digits_value(d: Seq<u8>) -> int
    decreases d.len(),
{
    if d.len() == 0 {
        0
    } else {
        digits_value(d.drop_last()) * 10 + (d.last() - 48)
    }
}

/// The digits of an unsigned integer literal: the text after an optional
/// leading `+`.
pub open spec fn unsigned_digits(b: Seq<u8>) -> Seq<u8> {
    if b.len() > 0 && b[0] == 43 {
        b.drop_first()
    } else {
        b
    }
}

/// What `str::parse::<u16>` gives for the UTF-8 text `b`: an optional `+`,
/// then one or more ASCII digits whose value fits in a `u16`.
pub open spec fn spec_parse_u16(b: Seq<u8>) -> Option<u16> {
    let d = unsigned_digits(b);
    if d.len() > 0 && (forall|i: int| 0 <= i < d.len() ==> is_digit(#[trigger] d[i]))
        && digits_value(d) <= u16::MAX {
        Some(digits_value(d) as u16)
    } else {
        None
    }
}

proof fn lemma_digits_value_nonneg(d: Seq<u8>)
    requires
        forall|i: int| 0 <= i < d.len() ==> is_digit(#[trigger] d[i]),
    ensures
        digits_value(d) >= 0,
    decreases d.len(),
{
    if d.len() > 0 {
        lemma_digits_value_nonneg(d.drop_last());
        assert(is_digit(d[d.len() - 1]));
    }
}

/// Parses `s` as an unsigned 16-bit decimal number, as `str::parse::<u16>`
/// does.
pub fn parse_u16(s: &str) -> (r: Option<u16>)
    ensures
        r == spec_parse_u16(vstd::utf8::encode_utf8(s@)),
{
    let b = s.as_bytes();
    let n = b.len();
    let start: usize = if n > 0 && b[0] == 43u8 { 1 } else { 0 };
    let ghost d = unsigned_digits(b@);
    assert(d =~= b@.subrange(start as int, n as int));
    if start >= n {
        return None;
    }
    let mut value: u32 = 0;
    let mut i: usize = start;
    while i < n
        invariant
            start <= i <= n,
            n == b@.len(),
            b@ == vstd::utf8::encode_utf8(s@),
            d == unsigned_digits(b@),
            start < n,
            d =~= b@.subrange(start as int, n as int),
            forall|j: int| start <= j < i ==> is_digit(#[trigger] b@[j]),
            value == digits_value(b@.subrange(start as int, i as int)),
            value <= u16::MAX,
        decreases n - i,
    {
        let c = b[i];
        if c < 48u8 || c > 57u8 {
            proof {
                assert(d[i - start] == c);
            }
            return None;
        }
        let ghost prev = b@.subrange(start as int, i as int);
        let ghost next = b@.subrange(start as int, i + 1);
        assert(next.drop_last() =~= prev);
        let v = value * 10 + (c - 48u8) as u32;
        if v > 65535u32 {
            proof {
                let k = (i + 1 - start) as int;
                assert(d.subrange(0, k) =~= next);
                assert forall|j: int| 0 <= j < k implies is_digit(#[trigger] d[j]) by {
                    assert(d[j] == b@[start + j]);
                }
                lemma_suffix_grows(d, k);
            }
            return None;
        }
        value = v;
        i = i + 1;
    }
    assert(b@.subrange(start as int, n as int) =~= d);
    Some(value as u16)
}

/// A run of digits is worth at least any of its prefixes.
proof fn lemma_suffix_grows(d: Seq<u8>, k: int)
    requires
        0 <= k <= d.len(),
        forall|i: int| 0 <= i < k ==> is_digit(#[trigger] d[i]),
    ensures
        (forall|i: int| 0 <= i < d.len() ==> is_digit(#[trigger] d[i])) ==> digits_value(
            d.subrange(0, k),
        ) <= digits_value(d),
    decreases d.len() - k,
{
    if k < d.len() && (forall|i: int| 0 <= i < d.len() ==> is_digit(#[trigger] d[i])) {
        lemma_suffix_grows(d, k + 1);
        let p = d.subrange(0, k);
        let q = d.subrange(0, k + 1);
        assert(q.drop_last() =~= p);
        lemma_digits_value_nonneg(p);
    } else if k == d.len() {
        assert(d.subrange(0, k) =~= d);
    }
}/// The decimal digits of `n`, most significant first, without leading zeros.
pub open spec fn decimal(n: nat) -> Seq<u8>
    decreases n,
{
    if n < 10 {
        seq![(48 + n) as u8]
    } else {
        decimal(n / 10).push((48 + n % 10) as u8)
    }
}

proof fn lemma_decimal(n: nat)
    ensures
        decimal(n).len() > 0,
        forall|i: int| 0 <= i < decimal(n).len() ==> 48 <= #[trigger] decimal(n)[i] <= 57,
        digits_value(decimal(n)) == n,
    decreases n,
{
    if n >= 10 {
        lemma_decimal(n / 10);
        let d = decimal(n / 10);
        let e = d.push((48 + n % 10) as u8);
        assert(e.drop_last() =~= d);
        assert(forall|i: int| 0 <= i < d.len() ==> e[i] == d[i]);
        assert(n == (n / 10) * 10 + n % 10) by (nonlinear_arith);
        assert(e.last() == 48 + n % 10);
        assert(decimal(n) == e);
        assert(digits_value(e) == digits_value(d) * 10 + (e.last() - 48));
    } else {
        let e = seq![(48 + n) as u8];
        assert(e.drop_last() =~= Seq::<u8>::empty());
        assert(decimal(n) == e);
        assert(e.last() == 48 + n);
        assert(digits_value(e) == digits_value(e.drop_last()) * 10 + (e.last() - 48));
    }
}

/// Parsing reads numbers as written: the decimal digits of any `u16`, with
/// or without a leading `+`, parse to that number.
pub proof fn law_parse_reads_decimal(n: u16)
    ensures
        spec_parse_u16(decimal(n as nat)) == Some(n),
        spec_parse_u16(seq![43u8] + decimal(n as nat)) == Some(n),
{
    lemma_decimal(n as nat);
    let d = decimal(n as nat);
    assert(d[0] != 43);
    assert(unsigned_digits(d) == d);
    assert((seq![43u8] + d).drop_first() =~= d);
    assert(unsigned_digits(seq![43u8] + d) == d);
}

/// Parsing fails on empty text, on a lone sign, on any byte that is not an
/// ASCII digit (other than one leading `+`), and on digits worth more than
/// `u16::MAX`.
pub proof fn law_parse_rejects_what_is_not_a_u16(b: Seq<u8>)
    ensures
        b.len() == 0 ==> spec_parse_u16(b) is None,
        b == seq![43u8] ==> spec_parse_u16(b) is None,
        forall|i: int|
            0 <= i < b.len() && !(48 <= #[trigger] b[i] <= 57) && !(i == 0 && b[0] == 43)
                ==> spec_parse_u16(b) is None,
        (forall|i: int| 0 <= i < b.len() ==> 48 <= #[trigger] b[i] <= 57) && digits_value(b) > 65535
            ==> spec_parse_u16(b) is None,
        spec_parse_u16(b) matches Some(n) ==> n == digits_value(unsigned_digits(b)),
{
    assert forall|i: int|
        0 <= i < b.len() && !(48 <= #[trigger] b[i] <= 57) && !(i == 0 && b[0] == 43)
            implies spec_parse_u16(b) is None by {
        let d = unsigned_digits(b);
        if b.len() > 0 && b[0] == 43 {
            assert(d[i - 1] == b[i]);
        } else {
            assert(d[i] == b[i]);
        }
    }
    if b.len() > 0 && (forall|i: int| 0 <= i < b.len() ==> 48 <= #[trigger] b[i] <= 57) {
        assert(b[0] != 43);
    }
    let d = unsigned_digits(b);
    if d.len() > 0 && (forall|i: int| 0 <= i < d.len() ==> is_digit(#[trigger] d[i])) {
        lemma_digits_value_nonneg(d);
    }
}

} // verus!
