//! Decimal formatting of integers.

use vstd::prelude::*;

verus! {

/// The decimal digit character for `d` (`0 <= d < 10`).
pub open spec fn digit_char(d: int) -> char {
    (('0' as u32) + d) as char
}

/// The decimal digits of `n`, most significant first, without leading
/// zeros (`"0"` for zero).
pub open spec fn digits(n: nat) -> Seq<char>
    decreases n,
{
    if n < 10 {
        seq![digit_char(n as int)]
    } else {
        digits(n / 10) + seq![digit_char((n % 10) as int)]
    }
}

/// `n` in decimal, with a leading `-` when negative.
pub open spec fn decimal(n: int) -> Seq<char> {
    if n < 0 {
        seq!['-'] + digits((-n) as nat)
    } else {
        digits(n as nat)
    }
}

/// The one-character string for digit `d`.
fn digit_str(d: u64) -> (s: &'static str)
    requires
        d < 10,
    ensures
        s@ == seq![digit_char(d as int)],
{
    proof {
        reveal_strlit("0");
        reveal_strlit("1");
        reveal_strlit("2");
        reveal_strlit("3");
        reveal_strlit("4");
        reveal_strlit("5");
        reveal_strlit("6");
        reveal_strlit("7");
        reveal_strlit("8");
        reveal_strlit("9");
    }
    let s = match d {
        0 => "0",
        1 => "1",
        2 => "2",
        3 => "3",
        4 => "4",
        5 => "5",
        6 => "6",
        7 => "7",
        8 => "8",
        _ => "9",
    };
    assert(s@ =~= seq![digit_char(d as int)]);
    s
}

/// Append the decimal digits of `n`.
pub fn push_digits(out: &mut String, n: u64)
    ensures
        final(out)@ == old(out)@ + digits(n as nat),
    decreases n,
{
    if n >= 10 {
        push_digits(out, n / 10);
    }
    out.append(digit_str(n % 10));
    proof {
        if n >= 10 {
            assert(old(out)@ + digits((n / 10) as nat) + seq![digit_char((n % 10) as int)] =~= old(out)@ + digits(n as nat));
        } else {
            assert(digits(n as nat) == seq![digit_char(n as int)]);
        }
    }
}

/// Append `n` in decimal.
pub fn push_decimal(out: &mut String, n: i32)
    ensures
        final(out)@ == old(out)@ + decimal(n as int),
{
    if n < 0 {
        proof {
            reveal_strlit("-");
        }
        out.append("-");
        let m: u64 = if n == i32::MIN {
            2147483648u64
        } else {
            (-n) as u64
        };
        push_digits(out, m);
        proof {
            assert(old(out)@ + seq!['-'] + digits(m as nat) =~= old(out)@ + decimal(n as int));
        }
    } else {
        push_digits(out, n as u64);
    }
}

} // verus!

verus! {

/// Unicode's `White_Space` characters, which `str::trim` removes.
pub open spec fn is_white_space(c: char) -> bool {
    let u = c as u32;
    ||| 0x09 <= u <= 0x0d
    ||| u == 0x20
    ||| u == 0x85
    ||| u == 0xa0
    ||| u == 0x1680
    ||| 0x2000 <= u <= 0x200a
    ||| u == 0x2028
    ||| u == 0x2029
    ||| u == 0x202f
    ||| u == 0x205f
    ||| u == 0x3000
}

pub fn white_space(c: char) -> (b: bool)
    ensures
        b == is_white_space(c),
{
    let u = c as u32;
    (0x09 <= u && u <= 0x0d) || u == 0x20 || u == 0x85 || u == 0xa0 || u == 0x1680 || (0x2000 <= u && u <= 0x200a)
        || u == 0x2028 || u == 0x2029 || u == 0x202f || u == 0x205f || u == 0x3000
}

/// `s` without its leading white space.
pub open spec fn trim_start(s: Seq<char>) -> Seq<char>
    decreases s.len(),
{
    if s.len() > 0 && is_white_space(s[0]) {
        trim_start(s.drop_first())
    } else {
        s
    }
}

/// `s` without its trailing white space.
pub open spec fn trim_end(s: Seq<char>) -> Seq<char>
    decreases s.len(),
{
    if s.len() > 0 && is_white_space(s.last()) {
        trim_end(s.drop_last())
    } else {
        s
    }
}

/// `s` without leading and trailing white space.
pub open spec fn trimmed(s: Seq<char>) -> Seq<char> {
    trim_end(trim_start(s))
}

proof fn lemma_trim_start_skip(s: Seq<char>, a: int)
    requires
        0 <= a <= s.len(),
        forall|i: int| 0 <= i < a ==> is_white_space(#[trigger] s[i]),
    ensures
        trim_start(s) == trim_start(s.subrange(a, s.len() as int)),
    decreases a,
{
    if a > 0 {
        assert(s.drop_first().subrange(a - 1, s.drop_first().len() as int) =~= s.subrange(a, s.len() as int));
        assert forall|i: int| 0 <= i < a - 1 implies is_white_space(#[trigger] s.drop_first()[i]) by {
            assert(s.drop_first()[i] == s[i + 1]);
        }
        lemma_trim_start_skip(s.drop_first(), a - 1);
    } else {
        assert(s.subrange(0, s.len() as int) =~= s);
    }
}

proof fn lemma_trim_end_cut(s: Seq<char>, b: int)
    requires
        0 <= b <= s.len(),
        forall|i: int| b <= i < s.len() ==> is_white_space(#[trigger] s[i]),
    ensures
        trim_end(s) == trim_end(s.subrange(0, b)),
    decreases s.len() - b,
{
    if b < s.len() {
        assert(s.drop_last().subrange(0, b) =~= s.subrange(0, b));
        assert(is_white_space(s[s.len() - 1]));
        lemma_trim_end_cut(s.drop_last(), b);
    } else {
        assert(s.subrange(0, b) =~= s);
    }
}

/// `s` without leading and trailing white space (as `str::trim`).
pub fn trim(s: &str) -> (r: &str)
    ensures
        r@ == trimmed(s@),
{
    let n = s.unicode_len();
    let mut a: usize = 0;
    while a < n && white_space(s.get_char(a))
        invariant
            a <= n,
            n == s@.len(),
            forall|i: int| 0 <= i < a ==> is_white_space(#[trigger] s@[i]),
        decreases n - a,
    {
        a = a + 1;
    }
    let mut b: usize = n;
    while b > a && white_space(s.get_char(b - 1))
        invariant
            a <= b <= n,
            n == s@.len(),
            forall|i: int| b <= i < n ==> is_white_space(#[trigger] s@[i]),
        decreases b - a,
    {
        b = b - 1;
    }
    proof {
        lemma_trim_start_skip(s@, a as int);
        let rest = s@.subrange(a as int, n as int);
        if a < n {
            assert(rest[0] == s@[a as int]);
        }
        assert(trim_start(rest) == rest);
        assert forall|i: int| (b - a) <= i < rest.len() implies is_white_space(#[trigger] rest[i]) by {
            assert(rest[i] == s@[a + i]);
        }
        lemma_trim_end_cut(rest, (b - a) as int);
        let cut = rest.subrange(0, (b - a) as int);
        assert(cut =~= s@.subrange(a as int, b as int));
        if b > a {
            assert(cut.last() == s@[b - 1]);
        }
        assert(trim_end(cut) == cut);
    }
    s.substring_char(a, b)
}

/// `s` cut at every `sep`: the pieces between separators, in order (one
/// piece, `s` itself, when there is no separator).
pub open spec fn split_on(s: Seq<char>, sep: char) -> Seq<Seq<char>>
    decreases s.len(),
{
    match s.index_of_first(sep) {
        Some(i) => if 0 <= i < s.len() {
            seq![s.take(i)] + split_on(s.skip(i + 1), sep)
        } else {
            seq![s]
        },
        None => seq![s],
    }
}

/// The pieces of `s` between `sep` characters (as `str::split`).
pub fn split<'a>(s: &'a str, sep: char) -> (r: Vec<&'a str>)
    ensures
        r@.len() == split_on(s@, sep).len(),
        forall|k: int| 0 <= k < r@.len() ==> (#[trigger] r@[k])@ == split_on(s@, sep)[k],
{
    let n = s.unicode_len();
    let mut r: Vec<&'a str> = Vec::new();
    let mut start: usize = 0;
    let mut i: usize = 0;
    proof {
        assert(s@.skip(0) =~= s@);
    }
    while i < n
        invariant
            start <= i <= n,
            n == s@.len(),
            forall|j: int| start <= j < i ==> s@[j] != sep,
            r@.len() + split_on(s@.skip(start as int), sep).len() == split_on(s@, sep).len(),
            forall|k: int| 0 <= k < r@.len() ==> (#[trigger] r@[k])@ == split_on(s@, sep)[k],
            forall|k: int|
                0 <= k < split_on(s@.skip(start as int), sep).len() ==> #[trigger] split_on(s@.skip(start as int), sep)[k]
                    == split_on(s@, sep)[r@.len() + k],
        decreases n - i,
    {
        if s.get_char(i) == sep {
            let ghost rest = s@.skip(start as int);
            let ghost p = (i - start) as int;
            let ghost r0 = r@;
            proof {
                assert(rest[p] == sep);
                assert forall|j: int| 0 <= j < p implies rest[j] != sep by {
                    assert(rest[j] == s@[start + j]);
                }
                rest.index_of_first_ensures(sep);
                let q = rest.index_of_first(sep).unwrap();
                if q < p {
                    assert(rest[q] != sep);
                }
                if p < q {
                    assert(rest[p] != sep);
                }
                assert(q == p);
                assert(rest.take(p) =~= s@.subrange(start as int, i as int));
                assert(rest.skip(p + 1) =~= s@.skip(i + 1));
                assert(split_on(rest, sep) == seq![rest.take(p)] + split_on(rest.skip(p + 1), sep));
            }
            let piece = s.substring_char(start, i);
            r.push(piece);
            start = i + 1;
            proof {
                let nrest = s@.skip(start as int);
                assert(nrest == rest.skip(p + 1));
                assert(split_on(rest, sep)[0] == rest.take(p));
                assert(split_on(rest, sep)[0] == split_on(s@, sep)[r0.len() as int]);
                assert forall|k: int| 0 <= k < r@.len() implies (#[trigger] r@[k])@ == split_on(s@, sep)[k] by {
                    if k < r0.len() {
                        assert(r@[k] == r0[k]);
                    }
                }
                assert forall|k: int| 0 <= k < split_on(nrest, sep).len() implies #[trigger] split_on(nrest, sep)[k]
                    == split_on(s@, sep)[r@.len() + k] by {
                    assert(split_on(nrest, sep)[k] == split_on(rest, sep)[k + 1]);
                    assert(split_on(rest, sep)[k + 1] == split_on(s@, sep)[r0.len() + (k + 1)]);
                }
            }
        }
        i = i + 1;
    }
    proof {
        let rest = s@.skip(start as int);
        assert forall|j: int| 0 <= j < rest.len() implies rest[j] != sep by {
            assert(rest[j] == s@[start + j]);
        }
        rest.index_of_first_ensures(sep);
        assert(split_on(rest, sep) == seq![rest]);
        assert(rest =~= s@.subrange(start as int, n as int));
    }
    let ghost r0 = r@;
    let piece = s.substring_char(start, n);
    r.push(piece);
    proof {
        let rest = s@.skip(start as int);
        assert(split_on(rest, sep)[0] == split_on(s@, sep)[r0.len() as int]);
        assert forall|k: int| 0 <= k < r@.len() implies (#[trigger] r@[k])@ == split_on(s@, sep)[k] by {
            if k < r0.len() {
                assert(r@[k] == r0[k]);
            }
        }
    }
    r
}

/// ASCII `A`..`Z` mapped to `a`..`z`, everything else unchanged.
pub open spec fn ascii_lower(c: char) -> char {
    if 'A' <= c <= 'Z' {
        ((c as u32) + 32) as char
    } else {
        c
    }
}

/// `s` with ASCII letters lowercased.
pub open spec fn lowercase(s: Seq<char>) -> Seq<char> {
    s.map_values(|c: char| ascii_lower(c))
}

/// The one-character string for the lowercase of the ASCII capital `c`.
fn lower_letter(c: char) -> (r: &'static str)
    requires
        'A' <= c <= 'Z',
    ensures
        r@ == seq![ascii_lower(c)],
{
    proof {
        reveal_strlit("a");
        reveal_strlit("b");
        reveal_strlit("c");
        reveal_strlit("d");
        reveal_strlit("e");
        reveal_strlit("f");
        reveal_strlit("g");
        reveal_strlit("h");
        reveal_strlit("i");
        reveal_strlit("j");
        reveal_strlit("k");
        reveal_strlit("l");
        reveal_strlit("m");
        reveal_strlit("n");
        reveal_strlit("o");
        reveal_strlit("p");
        reveal_strlit("q");
        reveal_strlit("r");
        reveal_strlit("s");
        reveal_strlit("t");
        reveal_strlit("u");
        reveal_strlit("v");
        reveal_strlit("w");
        reveal_strlit("x");
        reveal_strlit("y");
        reveal_strlit("z");
    }
    let r = match c {
        'A' => "a",
        'B' => "b",
        'C' => "c",
        'D' => "d",
        'E' => "e",
        'F' => "f",
        'G' => "g",
        'H' => "h",
        'I' => "i",
        'J' => "j",
        'K' => "k",
        'L' => "l",
        'M' => "m",
        'N' => "n",
        'O' => "o",
        'P' => "p",
        'Q' => "q",
        'R' => "r",
        'S' => "s",
        'T' => "t",
        'U' => "u",
        'V' => "v",
        'W' => "w",
        'X' => "x",
        'Y' => "y",
        _ => "z",
    };
    assert(r@ =~= seq![ascii_lower(c)]);
    r
}

/// A copy of `s` with ASCII letters lowercased (as
/// `str::to_ascii_lowercase`).
pub(crate) fn to_ascii_lowercase(s: &str) -> (r: String)
    ensures
        r@ == lowercase(s@),
{
    let n = s.unicode_len();
    let mut r = String::new();
    let mut i: usize = 0;
    while i < n
        invariant
            i <= n,
            n == s@.len(),
            r@ == lowercase(s@.subrange(0, i as int)),
        decreases n - i,
    {
        let c = s.get_char(i);
        let ghost before = r@;
        if 'A' <= c && c <= 'Z' {
            r.append(lower_letter(c));
        } else {
            r.append(s.substring_char(i, i + 1));
        }
        proof {
            assert(s@.subrange(i as int, i + 1) =~= seq![c]);
            assert(r@ =~= before + seq![ascii_lower(c)]);
            assert(lowercase(s@.subrange(0, i + 1)) =~= lowercase(s@.subrange(0, i as int)) + seq![ascii_lower(c)]);
        }
        i = i + 1;
    }
    proof {
        assert(s@.subrange(0, n as int) =~= s@);
    }
    r
}

/// Whether `s`, ASCII-lowercased, is `lit`.
pub fn lower_eq(s: &str, lit: &str) -> (b: bool)
    ensures
        b == (lowercase(s@) == lit@),
{
    let n = s.unicode_len();
    let m = lit.unicode_len();
    if n != m {
        proof {
            assert(lowercase(s@).len() == n);
        }
        return false;
    }
    let mut i: usize = 0;
    while i < n
        invariant
            i <= n,
            n == s@.len(),
            n == lit@.len(),
            forall|j: int| 0 <= j < i ==> ascii_lower(#[trigger] s@[j]) == lit@[j],
        decreases n - i,
    {
        let c = s.get_char(i);
        let l = if 'A' <= c && c <= 'Z' {
            ((c as u32) + 32) as u8 as char
        } else {
            c
        };
        proof {
            if 'A' <= c && c <= 'Z' {
                assert(((c as u32) + 32) as u8 as char == ((c as u32) + 32) as char);
            }
        }
        if l != lit.get_char(i) {
            proof {
                assert(lowercase(s@)[i as int] != lit@[i as int]);
            }
            return false;
        }
        i = i + 1;
    }
    proof {
        assert(lowercase(s@) =~= lit@);
    }
    true
}

/// The `Debug` rendering of a string: quoted, with characters escaped as
/// `str::escape_debug` does.
pub uninterp spec fn debug_quoted(s: Seq<char>) -> Seq<char>;

/// `format!("{:?}", s)`: `s` quoted and escaped by `str`'s `Debug`
/// implementation; its result depends on `s` alone.
#[verifier::external_body]
pub(crate) fn debug_str(s: &str) -> (r: String)
    ensures
        r@ == debug_quoted(s@),
{
    format!("{:?}", s)
}

} // verus!

verus! {

/// Whether `a` and `b` hold the same characters.
pub fn same_text(a: &str, b: &str) -> (r: bool)
    ensures
        r == (a@ == b@),
{
    let n = a.unicode_len();
    if n != b.unicode_len() {
        return false;
    }
    let mut i: usize = 0;
    while i < n
        invariant
            i <= n,
            n == a@.len(),
            n == b@.len(),
            forall|j: int| 0 <= j < i ==> a@[j] == b@[j],
        decreases n - i,
    {
        if a.get_char(i) != b.get_char(i) {
            return false;
        }
        i = i + 1;
    }
    proof {
        assert(a@ =~= b@);
    }
    true
}

/// Whether every character of `s` is an ASCII decimal digit.
pub open spec fn all_digits(s: Seq<char>) -> bool {
    forall|i: int| 0 <= i < s.len() ==> '0' <= #[trigger] s[i] <= '9'
}

/// The number spelled by the decimal digits `s` (zero when empty).
pub open spec fn digits_value(s: Seq<char>) -> nat
    decreases s.len(),
{
    if s.len() == 0 {
        0
    } else {
        10 * digits_value(s.drop_last()) + ((s.last() as u32) - ('0' as u32)) as nat
    }
}

/// The integer that `s` spells in the form that `str::parse::<i32>`
/// reads: an optional `+` or `-`, then one or more ASCII digits.
pub open spec fn signed_value(s: Seq<char>) -> Option<int> {
    if s.len() > 0 && (s[0] == '+' || s[0] == '-') {
        let rest = s.drop_first();
        if rest.len() > 0 && all_digits(rest) {
            if s[0] == '-' {
                Some(-(digits_value(rest) as int))
            } else {
                Some(digits_value(rest) as int)
            }
        } else {
            None
        }
    } else if s.len() > 0 && all_digits(s) {
        Some(digits_value(s) as int)
    } else {
        None
    }
}

/// What `str::parse::<i32>` gives for `s`: the value, when `s` is well
/// formed and the value fits in an `i32`.
pub open spec fn parsed_i32(s: Seq<char>) -> Option<i32> {
    match signed_value(s) {
        Some(v) => if i32::MIN <= v <= i32::MAX {
            Some(v as i32)
        } else {
            None
        },
        None => None,
    }
}

proof fn lemma_digits_value_grows(s: Seq<char>, i: int)
    requires
        0 <= i <= s.len(),
        all_digits(s),
    ensures
        digits_value(s.subrange(0, i)) <= digits_value(s),
    decreases s.len() - i,
{
    if i < s.len() {
        lemma_digits_value_grows(s, i + 1);
        assert(s.subrange(0, i + 1).drop_last() =~= s.subrange(0, i));
    } else {
        assert(s.subrange(0, i) =~= s);
    }
}

proof fn lemma_digits_read_back(n: nat)
    ensures
        digits(n).len() > 0,
        all_digits(digits(n)),
        digits_value(digits(n)) == n,
    decreases n,
{
    let s = digits(n);
    let d = (n % 10) as int;
    assert(digit_char(d) as u32 == 48 + d);
    assert('0' <= digit_char(d) <= '9');
    assert(((digit_char(d) as u32) - ('0' as u32)) as nat == d);
    assert(n == 10 * (n / 10) + d);
    if n >= 10 {
        lemma_digits_read_back(n / 10);
        assert(s.drop_last() =~= digits(n / 10));
        assert(s.last() == digit_char(d));
        assert(digits_value(s) == 10 * digits_value(digits(n / 10)) + d);
        assert forall|i: int| 0 <= i < s.len() implies '0' <= #[trigger] s[i] <= '9' by {
            if i < s.len() - 1 {
                assert(s[i] == digits(n / 10)[i]);
            } else {
                assert(s[i] == digit_char(d));
            }
        }
    } else {
        assert(s =~= seq![digit_char(d)]);
        assert(s.drop_last() =~= Seq::<char>::empty());
        assert(digits_value(s) == 10 * digits_value(s.drop_last()) + d);
        assert forall|i: int| 0 <= i < s.len() implies '0' <= #[trigger] s[i] <= '9' by {
            assert(s[i] == digit_char(d));
        }
    }
}

/// Reading back a number written in decimal gives the number: for every
/// `i32`, [`parsed_i32`] of [`decimal`] is the number itself.
pub proof fn law_decimal_reads_back(n: i32)
    ensures
        parsed_i32(decimal(n as int)) == Some(n),
{
    if n < 0 {
        let m = (-(n as int)) as nat;
        lemma_digits_read_back(m);
        let s = decimal(n as int);
        assert(s.drop_first() =~= digits(m));
    } else {
        lemma_digits_read_back(n as nat);
        let s = digits(n as nat);
        assert(s[0] != '+' && s[0] != '-');
    }
}

/// `s` read as a decimal `i32`, as `str::parse::<i32>` reads it.
pub fn parse_i32(s: &str) -> (r: Option<i32>)
    ensures
        r == parsed_i32(s@),
{
    let n = s.unicode_len();
    if n == 0 {
        return None;
    }
    let first = s.get_char(0);
    let negative = first == '-';
    let start: usize = if first == '+' || first == '-' {
        1
    } else {
        0
    };
    if start == n {
        return None;
    }
    let ghost digits = s@.subrange(start as int, n as int);
    proof {
        if start == 1 {
            assert(digits =~= s@.drop_first());
        } else {
            assert(digits =~= s@);
        }
    }
    let ghost whole: Option<int> = if all_digits(digits) {
        if negative {
            Some(-(digits_value(digits) as int))
        } else {
            Some(digits_value(digits) as int)
        }
    } else {
        None
    };
    assert(signed_value(s@) == whole);
    let mut acc: i64 = 0;
    let mut i: usize = start;
    while i < n
        invariant
            start <= i <= n,
            n == s@.len(),
            digits == s@.subrange(start as int, n as int),
            signed_value(s@) == whole,
            whole == (if all_digits(digits) {
                if negative {
                    Some(-(digits_value(digits) as int))
                } else {
                    Some(digits_value(digits) as int)
                }
            } else {
                None::<int>
            }),
            all_digits(s@.subrange(start as int, i as int)),
            acc == digits_value(s@.subrange(start as int, i as int)),
            acc <= 2147483648,
        decreases n - i,
    {
        let c = s.get_char(i);
        if c < '0' || c > '9' {
            proof {
                assert(digits[i - start] == c);
                assert(!all_digits(digits));
            }
            return None;
        }
        let ghost prefix = s@.subrange(start as int, i as int);
        let ghost next = s@.subrange(start as int, i + 1);
        proof {
            assert(next.drop_last() =~= prefix);
            assert(next.last() == c);
        }
        acc = 10 * acc + ((c as u32) - ('0' as u32)) as i64;
        i = i + 1;
        if acc > 2147483648 {
            proof {
                if all_digits(digits) {
                    assert(s@.subrange(start as int, i as int) =~= digits.subrange(0, i - start));
                    lemma_digits_value_grows(digits, i - start);
                }
            }
            return None;
        }
        proof {
            assert forall|j: int| 0 <= j < next.len() implies '0' <= #[trigger] next[j] <= '9' by {
                if j < prefix.len() {
                    assert(next[j] == prefix[j]);
                }
            }
        }
    }
    proof {
        assert(s@.subrange(start as int, n as int) == digits);
    }
    if negative {
        Some((-acc) as i32)
    } else if acc > 2147483647 {
        None
    } else {
        Some(acc as i32)
    }
}

} // verus!
