//! Decimal text for the `number` payload: how integers are written and read.
use vstd::prelude::*;

verus! {

/// The ten decimal digit characters, in order of value.
pub open spec fn digit_chars() -> Seq<char> {
    seq!['0', '1', '2', '3', '4', '5', '6', '7', '8', '9']
}

pub open spec fn is_digit(c: char) -> bool {
    '0' <= c && c <= '9'
}

pub open spec fn digit_value(c: char) -> int {
    (c as int) - ('0' as int)
}

pub open spec fn all_digits(s: Seq<char>) -> bool {
    forall|i: int| 0 <= i < s.len() ==> is_digit(#[trigger] s[i])
}

/// The value of a string of decimal digits, most significant first.
pub open spec fn digits_value(s: Seq<char>) -> nat
    decreases s.len(),
{
    if s.len() == 0 {
        0
    } else {
        (digits_value(s.drop_last()) * 10 + digit_value(s.last())) as nat
    }
}

/// The shortest decimal text of a natural number.
pub open spec fn decimal_nat(n: nat) -> Seq<char>
    decreases n,
{
    if n < 10 {
        seq![digit_chars()[n as int]]
    } else {
        decimal_nat(n / 10).push(digit_chars()[(n % 10) as int])
    }
}

/// The decimal text of an integer: its digits, with `-` before a negative value.
pub open spec fn decimal_int(x: int) -> Seq<char> {
    if x < 0 {
        seq!['-'] + decimal_nat((-x) as nat)
    } else {
        decimal_nat(x as nat)
    }
}

/// What a text reads as under the integer grammar of a signed type: an optional
/// `+` or `-`, then one or more decimal digits and nothing else.
pub open spec fn text_int(s: Seq<char>) -> Option<int> {
    if s.len() >= 2 && s[0] == '-' && all_digits(s.drop_first()) {
        Some(-digits_value(s.drop_first()))
    } else if s.len() >= 2 && s[0] == '+' && all_digits(s.drop_first()) {
        Some(digits_value(s.drop_first()) as int)
    } else if s.len() >= 1 && all_digits(s) {
        Some(digits_value(s) as int)
    } else {
        None
    }
}

/// What a text reads as under the integer grammar of an unsigned type: an
/// optional `+`, then one or more decimal digits and nothing else.
pub open spec fn text_nat(s: Seq<char>) -> Option<int> {
    if s.len() >= 2 && s[0] == '+' && all_digits(s.drop_first()) {
        Some(digits_value(s.drop_first()) as int)
    } else if s.len() >= 1 && all_digits(s) {
        Some(digits_value(s) as int)
    } else {
        None
    }
}

/// Relies on `i64`'s `ToString` (its `Display`): the decimal digits of the value,
/// with a leading `-` when it is negative.
#[verifier::external_body]
pub(crate) fn i64_text(x: i64) -> (r: String)
    ensures
        r@ == decimal_int(x as int),
{
    x.to_string()
}

/// Relies on `u64`'s `ToString` (its `Display`): the decimal digits of the value.
#[verifier::external_body]
pub(crate) fn u64_text(x: u64) -> (r: String)
    ensures
        r@ == decimal_int(x as int),
{
    x.to_string()
}

/// Relies on `str::parse::<i64>` (`i64::from_str`): an optional sign and decimal
/// digits are read; anything else, or a value out of range, is an error.
#[verifier::external_body]
pub(crate) fn parse_i64(s: &str) -> (r: Option<i64>)
    ensures
        match r {
            Some(v) => text_int(s@) == Some(v as int),
            None => !(text_int(s@) matches Some(x) && i64::MIN <= x <= i64::MAX),
        },
{
    s.parse::<i64>().ok()
}

/// Relies on `str::parse::<u64>` (`u64::from_str`): an optional `+` and decimal
/// digits are read; anything else, or a value out of range, is an error.
#[verifier::external_body]
pub(crate) fn parse_u64(s: &str) -> (r: Option<u64>)
    ensures
        match r {
            Some(v) => text_nat(s@) == Some(v as int),
            None => !(text_nat(s@) matches Some(x) && 0 <= x <= u64::MAX),
        },
{
    s.parse::<u64>().ok()
}

proof fn lemma_decimal_nat(n: nat)
    ensures
        decimal_nat(n).len() >= 1,
        all_digits(decimal_nat(n)),
        digits_value(decimal_nat(n)) == n,
    decreases n,
{
    let d = digit_chars();
    if n < 10 {
        let s = decimal_nat(n);
        assert(s.drop_last() =~= Seq::<char>::empty());
        assert(digits_value(s.drop_last()) == 0);
    } else {
        lemma_decimal_nat(n / 10);
        let p = decimal_nat(n / 10);
        let s = decimal_nat(n);
        assert(s.drop_last() =~= p);
        assert forall|i: int| 0 <= i < s.len() implies is_digit(#[trigger] s[i]) by {
            if i < p.len() {
                assert(s[i] == p[i]);
            }
        }
    }
}

/// Reading the decimal text of an integer gives the integer back, under both grammars.
pub proof fn lemma_decimal_round_trip(x: int)
    ensures
        text_int(decimal_int(x)) == Some(x),
        x >= 0 ==> text_nat(decimal_int(x)) == Some(x),
{
    if x < 0 {
        let t = decimal_nat((-x) as nat);
        lemma_decimal_nat((-x) as nat);
        let s = seq!['-'] + t;
        assert(s.drop_first() =~= t);
        assert(s[0] == '-');
    } else {
        let t = decimal_nat(x as nat);
        lemma_decimal_nat(x as nat);
        assert(is_digit(t[0]));
    }
}

} // verus!
