//! Integers written as text: what the standard parsers accept and what the
//! standard formatter writes.
use vstd::prelude::*;

verus! {

/// The value of the digit `c` in the given radix (at most 36), if it is one.
pub open spec fn digit_of(c: char, radix: int) -> Option<int> {
    let d = if '0' <= c && c <= '9' {
        c as int - '0' as int
    } else if 'a' <= c && c <= 'z' {
        c as int - 'a' as int + 10
    } else if 'A' <= c && c <= 'Z' {
        c as int - 'A' as int + 10
    } else {
        radix
    };
    if d < radix {
        Some(d)
    } else {
        None
    }
}

/// The value of a non-empty run of digits, most significant first.
pub open spec fn digits_value(s: Seq<char>, radix: int) -> Option<int>
    decreases s.len(),
{
    if s.len() == 0 {
        None
    } else if s.len() == 1 {
        digit_of(s[0], radix)
    } else {
        match (digits_value(s.drop_last(), radix), digit_of(s.last(), radix)) {
            (Some(high), Some(low)) => Some(high * radix + low),
            _ => None,
        }
    }
}

/// The integer that `s` writes in the given radix: an optional `+` or `-`
/// followed by at least one digit, and nothing else.
pub open spec fn int_of_text(s: Seq<char>, radix: int) -> Option<int> {
    if s.len() > 0 && s[0] == '-' {
        match digits_value(s.drop_first(), radix) {
            Some(v) => Some(-v),
            None => None,
        }
    } else if s.len() > 0 && s[0] == '+' {
        digits_value(s.drop_first(), radix)
    } else {
        digits_value(s, radix)
    }
}

/// The `i32` that `s` writes in the given radix, if it is in range.
pub open spec fn i32_of_text(s: Seq<char>, radix: int) -> Option<i32> {
    match int_of_text(s, radix) {
        Some(v) => if i32::MIN <= v <= i32::MAX {
            Some(v as i32)
        } else {
            None
        },
        None => None,
    }
}

/// The character of the decimal digit `d`.
pub open spec fn digit_char(d: int) -> char {
    ('0' as int + d) as char
}

/// The decimal digits of `n`, without leading zeros.
pub open spec fn nat_text(n: nat) -> Seq<char>
    decreases n,
{
    if n < 10 {
        seq![digit_char(n as int)]
    } else {
        nat_text(n / 10).push(digit_char((n % 10) as int))
    }
}

/// The decimal text of `n`, with a `-` when it is negative.
pub open spec fn decimal_text(n: int) -> Seq<char> {
    if n < 0 {
        seq!['-'] + nat_text((-n) as nat)
    } else {
        nat_text(n as nat)
    }
}

pub proof fn lemma_nat_text(n: nat)
    ensures
        nat_text(n).len() >= 1,
        '0' <= nat_text(n)[0] <= '9',
        digits_value(nat_text(n), 10) == Some(n as int),
    decreases n,
{
    let c = digit_char((n % 10) as int);
    assert(c as int == '0' as int + (n % 10));
    if n < 10 {
        assert(nat_text(n) =~= seq![c]);
    } else {
        lemma_nat_text(n / 10);
        let s = nat_text(n);
        assert(s.drop_last() =~= nat_text(n / 10));
        assert(s.last() == c);
        assert(s[0] == nat_text(n / 10)[0]);
        assert((n / 10) * 10 + n % 10 == n) by (nonlinear_arith);
    }
}

/// The decimal text of an `i32` reads back as that `i32`.
pub proof fn lemma_decimal_round_trip(n: i32)
    ensures
        i32_of_text(decimal_text(n as int), 10) == Some(n),
        decimal_text(n as int).len() >= 1,
        decimal_text(n as int)[0] == '-' || '0' <= decimal_text(n as int)[0] <= '9',
{
    if n < 0 {
        lemma_nat_text((-n) as nat);
        assert((seq!['-'] + nat_text((-n) as nat)).drop_first() =~= nat_text((-n) as nat));
    } else {
        lemma_nat_text(n as nat);
    }
}

/// Relies on `str::parse::<i32>` (`i32::from_str`): an optional `+` or `-`
/// followed by decimal digits whose value is in range is accepted, any other
/// text is an error.
#[verifier::external_body]
pub(crate) fn parse_decimal(s: &str) -> (r: Option<i32>)
    ensures
        r == i32_of_text(s@, 10),
{
    s.parse::<i32>().ok()
}

/// Relies on `i32::from_str_radix(_, 16)`: an optional `+` or `-` followed
/// by hexadecimal digits of either case whose value is in range is accepted,
/// any other text is an error.
#[verifier::external_body]
pub(crate) fn parse_hex(s: &str) -> (r: Option<i32>)
    ensures
        r == i32_of_text(s@, 16),
{
    i32::from_str_radix(s, 16).ok()
}

/// Relies on `i32::to_string`: the decimal digits without leading zeros,
/// after a `-` for a negative value.
#[verifier::external_body]
pub(crate) fn decimal(n: i32) -> (r: String)
    ensures
        r@ == decimal_text(n as int),
{
    n.to_string()
}

} // verus!
