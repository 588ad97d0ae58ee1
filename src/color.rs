//! Colors written as `#rrggbb` text.
use vstd::prelude::*;
use crate::numtext::{digit_of, digits_value, i32_of_text, int_of_text, parse_hex};

verus! {

/// A color as its red, green and blue parts.
#[derive(Clone, Copy, PartialEq, Eq, Structural, Debug)]
pub struct Rgb {
    pub r: u8,
    pub g: u8,
    pub b: u8,
}

/// `s` without its leading `#` characters.
pub open spec fn trim_hashes(s: Seq<char>) -> Seq<char>
    decreases s.len(),
{
    if s.len() > 0 && s[0] == '#' {
        trim_hashes(s.drop_first())
    } else {
        s
    }
}

/// The color whose parts are the three low bytes of `c`, red highest.
pub open spec fn rgb_of_code(c: i32) -> Rgb {
    Rgb { r: ((c >> 16u32) & 0xff) as u8, g: ((c >> 8u32) & 0xff) as u8, b: (c & 0xff) as u8 }
}

/// The color that a text gives: after any leading `#`, a hexadecimal
/// number whose three low bytes are the parts; black when there is none.
pub open spec fn rgb_of_text(s: Seq<char>) -> Rgb {
    match i32_of_text(trim_hashes(s), 16) {
        Some(c) => rgb_of_code(c),
        None => Rgb { r: 0, g: 0, b: 0 },
    }
}

/// The lowercase hexadecimal digit of `d`.
pub open spec fn hex_digit(d: int) -> char {
    if d < 10 {
        ('0' as int + d) as char
    } else {
        ('a' as int + d - 10) as char
    }
}

/// Two lowercase hexadecimal digits of a byte.
pub open spec fn hex2(b: u8) -> Seq<char> {
    seq![hex_digit(b as int / 16), hex_digit(b as int % 16)]
}

/// The `#rrggbb` text of a color.
pub open spec fn rgb_text(c: Rgb) -> Seq<char> {
    seq!['#'] + hex2(c.r) + hex2(c.g) + hex2(c.b)
}

/// The index of the first character of `s` from `k` on that is not `#`.
fn skip_hashes(s: &str, k: usize, len: usize) -> (r: usize)
    requires
        len == s@.len(),
        k <= len,
    ensures
        k <= r <= len,
        trim_hashes(s@.subrange(k as int, len as int)) == s@.subrange(r as int, len as int),
    decreases len - k,
{
    if k < len && s.get_char(k) == '#' {
        assert(s@.subrange(k as int, len as int).drop_first() =~= s@.subrange(k + 1, len as int));
        skip_hashes(s, k + 1, len)
    } else {
        k
    }
}

/// The color that a text gives; see [`rgb_of_text`].
pub fn string_to_rgb(s: &str) -> (r: Rgb)
    ensures
        r == rgb_of_text(s@),
{
    let len = s.unicode_len();
    let k = skip_hashes(s, 0, len);
    assert(s@.subrange(0, len as int) =~= s@);
    match parse_hex(s.substring_char(k, len)) {
        Some(c) => Rgb { r: ((c >> 16u32) & 0xff) as u8, g: ((c >> 8u32) & 0xff) as u8, b: (c & 0xff) as u8 },
        None => Rgb { r: 0, g: 0, b: 0 },
    }
}

/// Relies on `format!` with `{:02x}`: two lowercase hexadecimal digits for
/// each part, after a `#`.
#[verifier::external_body]
fn hex_text(c: Rgb) -> (r: String)
    ensures
        r@ == rgb_text(c),
{
    format!("#{:02x}{:02x}{:02x}", c.r, c.g, c.b)
}

proof fn lemma_hex_digit(d: int)
    requires
        0 <= d < 16,
    ensures
        digit_of(hex_digit(d), 16) == Some(d),
        hex_digit(d) != '#' && hex_digit(d) != '-' && hex_digit(d) != '+',
{
}

proof fn lemma_digits_step(s: Seq<char>, k: int, high: int, d: int)
    requires
        2 <= k <= s.len(),
        digits_value(s.subrange(0, k - 1), 16) == Some(high),
        digit_of(s[k - 1], 16) == Some(d),
    ensures
        digits_value(s.subrange(0, k), 16) == Some(high * 16 + d),
{
    assert(s.subrange(0, k).drop_last() =~= s.subrange(0, k - 1));
}

/// The `#rrggbb` text of a color reads back as that color.
pub proof fn lemma_rgb_text_round_trip(c: Rgb)
    ensures
        rgb_of_text(rgb_text(c)) == c,
{
    let t = rgb_text(c);
    let s = t.drop_first();
    let r = c.r as int;
    let g = c.g as int;
    let b = c.b as int;
    assert(s =~= hex2(c.r) + hex2(c.g) + hex2(c.b));
    lemma_hex_digit(r / 16);
    lemma_hex_digit(r % 16);
    lemma_hex_digit(g / 16);
    lemma_hex_digit(g % 16);
    lemma_hex_digit(b / 16);
    lemma_hex_digit(b % 16);
    assert(trim_hashes(t) == trim_hashes(s));
    assert(trim_hashes(s) == s);
    assert(s.subrange(0, 1) =~= seq![hex_digit(r / 16)]);
    assert(digits_value(s.subrange(0, 1), 16) == Some(r / 16));
    lemma_digits_step(s, 2, r / 16, r % 16);
    lemma_digits_step(s, 3, (r / 16) * 16 + r % 16, g / 16);
    lemma_digits_step(s, 4, ((r / 16) * 16 + r % 16) * 16 + g / 16, g % 16);
    lemma_digits_step(s, 5, (((r / 16) * 16 + r % 16) * 16 + g / 16) * 16 + g % 16, b / 16);
    lemma_digits_step(
        s,
        6,
        ((((r / 16) * 16 + r % 16) * 16 + g / 16) * 16 + g % 16) * 16 + b / 16,
        b % 16,
    );
    assert(s.subrange(0, 6) =~= s);
    let v = r * 65536 + g * 256 + b;
    let (rh, rl, gh, gl, bh, bl) = (r / 16, r % 16, g / 16, g % 16, b / 16, b % 16);
    assert(r == rh * 16 + rl && g == gh * 16 + gl && b == bh * 16 + bl) by {
        vstd::arithmetic::div_mod::lemma_fundamental_div_mod(r, 16);
        vstd::arithmetic::div_mod::lemma_fundamental_div_mod(g, 16);
        vstd::arithmetic::div_mod::lemma_fundamental_div_mod(b, 16);
    }
    assert(((((rh * 16 + rl) * 16 + gh) * 16 + gl) * 16 + bh) * 16 + bl == v);
    assert(int_of_text(s, 16) == Some(v));
    lemma_split_code(v as i32, c.r, c.g, c.b);
}

proof fn lemma_split_code(x: i32, r: u8, g: u8, b: u8)
    requires
        x as int == (r as int) * 65536 + (g as int) * 256 + (b as int),
    ensures
        rgb_of_code(x) == (Rgb { r, g, b }),
{
    let r32 = r as i32;
    let g32 = g as i32;
    let b32 = b as i32;
    assert(x == ((r32 * 65536) as i32 + (g32 * 256) as i32) as i32 + b32);
    assert(((x >> 16u32) & 0xff) as u8 == r && ((x >> 8u32) & 0xff) as u8 == g && (x & 0xff) as u8 == b)
        by (bit_vector)
        requires
            x == ((r32 * 65536) as i32 + (g32 * 256) as i32) as i32 + b32,
            r32 == r as i32,
            g32 == g as i32,
            b32 == b as i32,
    ;
}

/// Whether `c` is a lowercase hexadecimal digit.
pub open spec fn is_hex_lower(c: char) -> bool {
    ('0' <= c && c <= '9') || ('a' <= c && c <= 'f')
}

/// Whether `t` is a color written as `#rrggbb` in lowercase.
pub open spec fn is_color_text(t: Seq<char>) -> bool {
    &&& t.len() == 7
    &&& t[0] == '#'
    &&& forall|i: int| 1 <= i < 7 ==> #[trigger] is_hex_lower(t[i])
}

proof fn lemma_hex_char(c: char)
    requires
        is_hex_lower(c),
    ensures
        digit_of(c, 16) is Some,
        0 <= digit_of(c, 16)->0 < 16,
        hex_digit(digit_of(c, 16)->0) == c,
        c != '#' && c != '-' && c != '+',
{
    let d = digit_of(c, 16)->0;
    if '0' <= c && c <= '9' {
        assert(d == c as int - '0' as int);
        assert((('0' as int + d) as char) == c);
    } else {
        assert(d == c as int - 'a' as int + 10);
        assert((('a' as int + d - 10) as char) == c);
    }
}

proof fn lemma_byte_of_digits(h: int, l: int)
    requires
        0 <= h < 16,
        0 <= l < 16,
    ensures
        0 <= h * 16 + l < 256,
        (h * 16 + l) / 16 == h,
        (h * 16 + l) % 16 == l,
{
    vstd::arithmetic::div_mod::lemma_fundamental_div_mod_converse(h * 16 + l, 16, h, l);
}

/// A color written as `#rrggbb` in lowercase reads as a color whose text is
/// the same.
pub proof fn lemma_color_text_round_trip(t: Seq<char>)
    requires
        is_color_text(t),
    ensures
        rgb_text(rgb_of_text(t)) == t,
{
    let s = t.drop_first();
    assert forall|i: int| 0 <= i < 6 implies is_hex_lower(s[i]) by {
        assert(s[i] == t[i + 1]);
    }
    lemma_hex_char(s[0]);
    lemma_hex_char(s[1]);
    lemma_hex_char(s[2]);
    lemma_hex_char(s[3]);
    lemma_hex_char(s[4]);
    lemma_hex_char(s[5]);
    let d0 = digit_of(s[0], 16)->0;
    let d1 = digit_of(s[1], 16)->0;
    let d2 = digit_of(s[2], 16)->0;
    let d3 = digit_of(s[3], 16)->0;
    let d4 = digit_of(s[4], 16)->0;
    let d5 = digit_of(s[5], 16)->0;
    assert(trim_hashes(t) == trim_hashes(s));
    assert(trim_hashes(s) == s);
    assert(s.subrange(0, 1) =~= seq![s[0]]);
    assert(digits_value(s.subrange(0, 1), 16) == Some(d0));
    lemma_digits_step(s, 2, d0, d1);
    lemma_digits_step(s, 3, d0 * 16 + d1, d2);
    lemma_digits_step(s, 4, (d0 * 16 + d1) * 16 + d2, d3);
    lemma_digits_step(s, 5, ((d0 * 16 + d1) * 16 + d2) * 16 + d3, d4);
    lemma_digits_step(s, 6, (((d0 * 16 + d1) * 16 + d2) * 16 + d3) * 16 + d4, d5);
    assert(s.subrange(0, 6) =~= s);
    lemma_byte_of_digits(d0, d1);
    lemma_byte_of_digits(d2, d3);
    lemma_byte_of_digits(d4, d5);
    let r = d0 * 16 + d1;
    let g = d2 * 16 + d3;
    let b = d4 * 16 + d5;
    let v = r * 65536 + g * 256 + b;
    assert(((((d0 * 16 + d1) * 16 + d2) * 16 + d3) * 16 + d4) * 16 + d5 == v);
    assert(int_of_text(s, 16) == Some(v));
    lemma_split_code(v as i32, r as u8, g as u8, b as u8);
    let c = Rgb { r: r as u8, g: g as u8, b: b as u8 };
    assert(rgb_of_text(t) == c);
    assert(rgb_text(c) =~= t);
}

impl Rgb {
    /// The `#rrggbb` text of this color.
    pub fn to_text(&self) -> (r: String)
        ensures
            r@ == rgb_text(*self),
    {
        hex_text(*self)
    }
}

} // verus!
