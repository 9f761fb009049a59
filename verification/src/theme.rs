//! Palette colours as bytes: reading `#rrggbb` / `#rrggbbaa` hex strings
//! and writing them back. (The renderer's `0.0..=1.0` floats are derived
//! from these bytes outside the library.)

use vstd::prelude::*;

use crate::text::{debug_quoted, debug_str, trim, trimmed};

verus! {

/// A colour as four bytes: red, green, blue and alpha.
#[derive(Debug, Clone, Copy, PartialEq, Eq, Structural)]
pub struct Rgba8 {
    pub r: u8,
    pub g: u8,
    pub b: u8,
    pub a: u8,
}

/// `s` without its leading `#` characters (as `trim_start_matches('#')`).
pub open spec fn strip_hashes(s: Seq<char>) -> Seq<char>
    decreases s.len(),
{
    if s.len() > 0 && s[0] == '#' {
        strip_hashes(s.drop_first())
    } else {
        s
    }
}

/// The part of a colour string that holds the digits: trimmed, then
/// without leading `#`s.
pub open spec fn hex_body(s: Seq<char>) -> Seq<char> {
    strip_hashes(trimmed(s))
}

/// The value of the ASCII hex digit `c` (either case).
pub open spec fn hex_value(c: u8) -> Option<u8> {
    if 0x30 <= c <= 0x39 {
        Some((c - 0x30) as u8)
    } else if 0x61 <= c <= 0x66 {
        Some((c - 0x61 + 10) as u8)
    } else if 0x41 <= c <= 0x46 {
        Some((c - 0x41 + 10) as u8)
    } else {
        None
    }
}

/// A two-byte chunk read as a byte in hex: two hex digits.
pub open spec fn hex_pair(c0: u8, c1: u8) -> Option<u8> {
    match (hex_value(c0), hex_value(c1)) {
        (Some(h), Some(l)) => Some((16 * h + l) as u8),
        _ => None,
    }
}

/// The colour spelled by the six or eight bytes `b` (alpha `0xff` when
/// there are six), or `None` when a chunk is not a hex byte.
pub open spec fn parse_hex_bytes(b: Seq<u8>) -> Option<Rgba8> {
    if b.len() == 6 {
        match (hex_pair(b[0], b[1]), hex_pair(b[2], b[3]), hex_pair(b[4], b[5])) {
            (Some(r), Some(g), Some(bl)) => Some(Rgba8 { r, g, b: bl, a: 255 }),
            _ => None,
        }
    } else if b.len() == 8 {
        match (hex_pair(b[0], b[1]), hex_pair(b[2], b[3]), hex_pair(b[4], b[5]), hex_pair(b[6], b[7])) {
            (Some(r), Some(g), Some(bl), Some(a)) => Some(Rgba8 { r, g, b: bl, a }),
            _ => None,
        }
    } else {
        None
    }
}

/// What reading the colour string `s` gives: the colour, or the error
/// message. The length that decides between `#rrggbb` and `#rrggbbaa` is
/// the body's length in UTF-8 bytes.
pub open spec fn from_hex_result(s: Seq<char>) -> Result<Rgba8, Seq<char>> {
    let body = hex_body(s);
    let bytes = vstd::utf8::encode_utf8(body);
    if bytes.len() == 6 || bytes.len() == 8 {
        match parse_hex_bytes(bytes) {
            Some(c) => Ok(c),
            None => Err("invalid color: "@ + debug_quoted(body)),
        }
    } else {
        Err("invalid color: "@ + debug_quoted(body) + " (expected #rrggbb or #rrggbbaa)"@)
    }
}

/// The lowercase hex digit for `d` (`0 <= d < 16`).
pub open spec fn hex_char(d: int) -> char {
    if d < 10 {
        (('0' as u32) + d) as char
    } else {
        (('a' as u32) + d - 10) as char
    }
}

/// The two lowercase hex digits of `v`.
pub open spec fn hex_byte(v: u8) -> Seq<char> {
    seq![hex_char((v / 16) as int), hex_char((v % 16) as int)]
}

/// `#rrggbb`, or `#rrggbbaa` when `alpha` is set.
pub open spec fn hex_string(c: Rgba8, alpha: bool) -> Seq<char> {
    let rgb = "#"@ + hex_byte(c.r) + hex_byte(c.g) + hex_byte(c.b);
    if alpha {
        rgb + hex_byte(c.a)
    } else {
        rgb
    }
}

fn hex_digit(c: u8) -> (v: Option<u8>)
    ensures
        v == hex_value(c),
{
    if 0x30 <= c && c <= 0x39 {
        Some(c - 0x30)
    } else if 0x61 <= c && c <= 0x66 {
        Some(c - 0x61 + 10)
    } else if 0x41 <= c && c <= 0x46 {
        Some(c - 0x41 + 10)
    } else {
        None
    }
}

fn read_pair(c0: u8, c1: u8) -> (v: Option<u8>)
    ensures
        v == hex_pair(c0, c1),
{
    match (hex_digit(c0), hex_digit(c1)) {
        (Some(h), Some(l)) => Some(16 * h + l),
        _ => None,
    }
}

/// The colour spelled by `b`, as [`parse_hex_bytes`] reads it.
fn read_hex_bytes(b: &[u8]) -> (c: Option<Rgba8>)
    requires
        b@.len() == 6 || b@.len() == 8,
    ensures
        c == parse_hex_bytes(b@),
{
    let r = read_pair(b[0], b[1]);
    let g = read_pair(b[2], b[3]);
    let bl = read_pair(b[4], b[5]);
    if b.len() == 6 {
        match (r, g, bl) {
            (Some(r), Some(g), Some(bl)) => Some(Rgba8 { r, g, b: bl, a: 255 }),
            _ => None,
        }
    } else {
        let a = read_pair(b[6], b[7]);
        match (r, g, bl, a) {
            (Some(r), Some(g), Some(bl), Some(a)) => Some(Rgba8 { r, g, b: bl, a }),
            _ => None,
        }
    }
}

/// The one-character string for hex digit `d`.
fn hex_digit_str(d: u8) -> (s: &'static str)
    requires
        d < 16,
    ensures
        s@ == seq![hex_char(d as int)],
{
    proof {
        reveal_strlit("0");
        reveal_strlit("1");
        reveal_strlit("2");
        reveal_strlit("3");
        reveal_strlit("4");
        reveal_strlit("5");
        reveal_strlit("6");
        reveal_strlit("7");
        reveal_strlit("8");
        reveal_strlit("9");
        reveal_strlit("a");
        reveal_strlit("b");
        reveal_strlit("c");
        reveal_strlit("d");
        reveal_strlit("e");
        reveal_strlit("f");
    }
    let s = match d {
        0 => "0",
        1 => "1",
        2 => "2",
        3 => "3",
        4 => "4",
        5 => "5",
        6 => "6",
        7 => "7",
        8 => "8",
        9 => "9",
        10 => "a",
        11 => "b",
        12 => "c",
        13 => "d",
        14 => "e",
        _ => "f",
    };
    assert(s@ =~= seq![hex_char(d as int)]);
    s
}

fn push_hex_byte(out: &mut String, v: u8)
    ensures
        final(out)@ == old(out)@ + hex_byte(v),
{
    out.append(hex_digit_str(v / 16));
    out.append(hex_digit_str(v % 16));
    proof {
        assert(final(out)@ =~= old(out)@ + hex_byte(v));
    }
}

proof fn lemma_strip_no_hash(s: Seq<char>)
    requires
        s.len() == 0 || s[0] != '#',
    ensures
        strip_hashes(s) == s,
{
}

proof fn lemma_hex_char_value(d: int)
    requires
        0 <= d < 16,
    ensures
        hex_value(hex_char(d) as u8) == Some(d as u8),
        hex_char(d) != '#',
        '\0' <= hex_char(d) <= '\u{7f}',
        !crate::text::is_white_space(hex_char(d)),
{
}

proof fn lemma_hex_byte_pair(v: u8)
    ensures
        hex_pair(hex_byte(v)[0] as u8, hex_byte(v)[1] as u8) == Some(v),
{
    lemma_hex_char_value((v / 16) as int);
    lemma_hex_char_value((v % 16) as int);
}

/// Writing a colour in hex and reading it back gives the same colour, as
/// long as the alpha byte is written or is `0xff` (which six digits
/// stand for).
pub proof fn law_hex_round_trip(c: Rgba8, alpha: bool)
    requires
        alpha || c.a == 255,
    ensures
        from_hex_result(hex_string(c, alpha)) == Ok::<Rgba8, Seq<char>>(c),
{
    reveal_strlit("#");
    let s = hex_string(c, alpha);
    let digits = s.drop_first();
    let k: int = if alpha { 8 } else { 6 };
    assert(s.len() == k + 1);
    assert forall|i: int| 0 <= i < k implies {
        &&& digits[i] == hex_byte(#[trigger] component(c, i / 2))[i % 2]
    } by {
        if alpha {
            assert(s =~= "#"@ + hex_byte(c.r) + hex_byte(c.g) + hex_byte(c.b) + hex_byte(c.a));
        } else {
            assert(s =~= "#"@ + hex_byte(c.r) + hex_byte(c.g) + hex_byte(c.b));
        }
    }
    assert forall|i: int| 0 <= i < k implies {
        &&& '\0' <= #[trigger] digits[i] <= '\u{7f}'
        &&& digits[i] != '#'
        &&& !crate::text::is_white_space(digits[i])
    } by {
        let v = component(c, i / 2);
        lemma_hex_char_value((v / 16) as int);
        lemma_hex_char_value((v % 16) as int);
        assert(digits[i] == hex_byte(v)[i % 2]);
    }
    // no white space at either end, so trimming keeps `s`
    assert(s[0] == '#');
    assert(crate::text::trim_start(s) == s);
    assert(s.last() == digits[k - 1]);
    assert(crate::text::trim_end(s) == s);
    assert(trimmed(s) == s);
    // one `#` is stripped, then a digit stops the stripping
    assert(s.drop_first() == digits);
    lemma_strip_no_hash(digits);
    assert(hex_body(s) == digits);
    // the digits are ASCII, so their bytes are their characters
    assert(vstd::utf8::is_ascii_chars(digits));
    vstd::utf8::is_ascii_chars_encode_utf8(digits);
    let bytes = vstd::utf8::encode_utf8(digits);
    assert(bytes.len() == k);
    assert forall|j: int| 0 <= j < k / 2 implies hex_pair(bytes[2 * j], bytes[2 * j + 1]) == Some(
        #[trigger] component(c, j),
    ) by {
        let v = component(c, j);
        assert(digits[2 * j] == hex_byte(v)[(2 * j) % 2]);
        assert(digits[2 * j + 1] == hex_byte(v)[(2 * j + 1) % 2]);
        assert((2 * j) / 2 == j);
        assert((2 * j + 1) / 2 == j);
        lemma_hex_byte_pair(v);
    }
    assert(hex_pair(bytes[0], bytes[1]) == Some(component(c, 0)));
    assert(hex_pair(bytes[2], bytes[3]) == Some(component(c, 1)));
    assert(hex_pair(bytes[4], bytes[5]) == Some(component(c, 2)));
    if alpha {
        assert(hex_pair(bytes[6], bytes[7]) == Some(component(c, 3)));
    }
}

/// The byte of `c` at position `i`: red, green, blue, then alpha.
spec fn component(c: Rgba8, i: int) -> u8 {
    if i == 0 {
        c.r
    } else if i == 1 {
        c.g
    } else if i == 2 {
        c.b
    } else {
        c.a
    }
}

impl Rgba8 {
    /// Read a `#rrggbb` or `#rrggbbaa` colour (surrounding white space and
    /// any number of leading `#`s are ignored; six digits give alpha
    /// `0xff`).
    pub fn from_hex(s: &str) -> (r: Result<Rgba8, String>)
        ensures
            match r {
                Ok(c) => from_hex_result(s@) == Ok::<Rgba8, Seq<char>>(c),
                Err(e) => from_hex_result(s@) == Err::<Rgba8, Seq<char>>(e@),
            },
    {
        let t = trim(s);
        let n = t.unicode_len();
        let mut k: usize = 0;
        assert(t@.subrange(0, n as int) =~= t@);
        while k < n && t.get_char(k) == '#'
            invariant
                k <= n,
                n == t@.len(),
                strip_hashes(t@) == strip_hashes(t@.subrange(k as int, n as int)),
            decreases n - k,
        {
            proof {
                let rest = t@.subrange(k as int, n as int);
                assert(rest[0] == '#');
                assert(rest.drop_first() =~= t@.subrange(k + 1, n as int));
            }
            k = k + 1;
        }
        let body = t.substring_char(k, n);
        proof {
            if k < n {
                assert(body@[0] == t@[k as int]);
            }
            lemma_strip_no_hash(body@);
            assert(hex_body(s@) == body@);
        }
        let bytes = body.as_bytes();
        let len = bytes.len();
        let q = debug_str(body);
        if len == 6 || len == 8 {
            match read_hex_bytes(bytes) {
                Some(c) => Ok(c),
                None => {
                    let mut e = String::from_str("invalid color: ");
                    e.append(q.as_str());
                    Err(e)
                },
            }
        } else {
            let mut e = String::from_str("invalid color: ");
            e.append(q.as_str());
            e.append(" (expected #rrggbb or #rrggbbaa)");
            Err(e)
        }
    }

    /// `#rrggbb`, or `#rrggbbaa` when `alpha` is set, in lowercase hex.
    pub fn to_hex(&self, alpha: bool) -> (s: String)
        ensures
            s@ == hex_string(*self, alpha),
    {
        let mut s = String::from_str("#");
        push_hex_byte(&mut s, self.r);
        push_hex_byte(&mut s, self.g);
        push_hex_byte(&mut s, self.b);
        if alpha {
            push_hex_byte(&mut s, self.a);
        }
        s
    }
}

} // verus!
