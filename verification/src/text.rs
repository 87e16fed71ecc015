//! Character-level text helpers: decimal rendering and parsing of integers,
//! trimming, joining and comparison of strings.

use vstd::prelude::*;

verus! {

// ---------------------------------------------------------------------------
// Appending characters
// ---------------------------------------------------------------------------

/// Appends one character to a string.
///
/// Trusted: calls std's `String::push`, whose documentation says that it
/// appends the given `char` to the end of the `String`.
#[verifier::external_body]
pub(crate) fn push_char(s: &mut String, c: char)
    ensures
        final(s)@ == old(s)@.push(c),
{
    s.push(c);
}

/// Appends a string slice to a string.
pub(crate) fn push_str(s: &mut String, t: &str)
    ensures
        final(s)@ == old(s)@ + t@,
{
    s.append(t);
}

// ---------------------------------------------------------------------------
// Decimal rendering
// ---------------------------------------------------------------------------

/// The ASCII character of a decimal digit.
pub open spec fn digit_char(d: nat) -> char {
    (48 + d) as char
}

/// Whether `c` is an ASCII decimal digit.
pub open spec fn is_digit(c: char) -> bool {
    '0' <= c && c <= '9'
}

/// The numeric value of an ASCII decimal digit.
pub open spec fn digit_value(c: char) -> nat {
    (c as int - 48) as nat
}

/// The shortest decimal representation of a natural number.
pub open spec fn decimal(n: nat) -> Seq<char>
    decreases n,
{
    if n < 10 {
        seq![digit_char(n)]
    } else {
        decimal(n / 10).push(digit_char(n % 10))
    }
}

/// The decimal representation of an integer, with a leading `-` when negative
/// (what `Display` prints for Rust's integer types).
pub open spec fn signed_decimal(n: int) -> Seq<char> {
    if n < 0 {
        seq!['-'] + decimal((-n) as nat)
    } else {
        decimal(n as nat)
    }
}

fn digit_to_char(d: u64) -> (c: char)
    requires
        d < 10,
    ensures
        c == digit_char(d as nat),
{
    let b: u8 = d as u8;
    (b + 48) as char
}

fn push_decimal(s: &mut String, n: u64)
    ensures
        final(s)@ == old(s)@ + decimal(n as nat),
    decreases n,
{
    if n >= 10 {
        push_decimal(s, n / 10);
    }
    let c = digit_to_char(n % 10);
    push_char(s, c);
    assert(n >= 10 ==> decimal(n as nat) == decimal((n / 10) as nat).push(digit_char((n % 10) as nat)));
}

/// Renders an unsigned integer in decimal, as `u64::to_string` does.
pub fn format_u64(n: u64) -> (r: String)
    ensures
        r@ == decimal(n as nat),
{
    let mut s = String::new();
    push_decimal(&mut s, n);
    assert(s@ =~= decimal(n as nat));
    s
}

/// Renders a signed integer in decimal, as `i64::to_string` does.
pub fn format_i64(n: i64) -> (r: String)
    ensures
        r@ == signed_decimal(n as int),
{
    let mut s = String::new();
    if n < 0 {
        push_char(&mut s, '-');
        let wide: i128 = n as i128;
        let magnitude: u64 = (0i128 - wide) as u64;
        push_decimal(&mut s, magnitude);
        assert(s@ =~= signed_decimal(n as int));
    } else {
        let magnitude: u64 = n as u64;
        push_decimal(&mut s, magnitude);
        assert(s@ =~= signed_decimal(n as int));
    }
    s
}

// ---------------------------------------------------------------------------
// Decimal parsing
// ---------------------------------------------------------------------------

/// The value of a sequence of decimal digits, most significant first.
pub open spec fn digits_value(ds: Seq<char>) -> nat
    decreases ds.len(),
{
    if ds.len() == 0 {
        0
    } else {
        10 * digits_value(ds.drop_last()) + digit_value(ds.last())
    }
}

/// Whether every character of `ds` is an ASCII digit.
pub open spec fn all_digits(ds: Seq<char>) -> bool {
    forall|i: int| 0 <= i < ds.len() ==> is_digit(#[trigger] ds[i])
}

/// The digits that follow an optional leading `+`.
pub open spec fn unsigned_digits(s: Seq<char>) -> Seq<char> {
    if s.len() > 0 && s[0] == '+' {
        s.skip(1)
    } else {
        s
    }
}

/// What `str::parse::<u64>` accepts: an optional `+`, then one or more ASCII
/// digits whose value fits in a `u64`.
pub open spec fn parse_u64_spec(s: Seq<char>) -> Option<u64> {
    let ds = unsigned_digits(s);
    if ds.len() > 0 && all_digits(ds) && digits_value(ds) <= u64::MAX {
        Some(digits_value(ds) as u64)
    } else {
        None
    }
}

proof fn lemma_digits_value_monotone(ds: Seq<char>, k: int)
    requires
        0 <= k <= ds.len(),
        all_digits(ds),
    ensures
        digits_value(ds.take(k)) <= digits_value(ds),
    decreases ds.len() - k,
{
    if k < ds.len() {
        lemma_digits_value_monotone(ds, k + 1);
        assert(ds.take(k + 1).drop_last() =~= ds.take(k));
        assert(is_digit(ds[k]));
    } else {
        assert(ds.take(k) =~= ds);
    }
}

/// Parses a decimal unsigned integer, as `str::parse::<u64>` does.
pub fn parse_u64(s: &str) -> (r: Option<u64>)
    ensures
        r == parse_u64_spec(s@),
{
    let ghost chars = s@;
    let ghost ds = unsigned_digits(chars);
    let len: usize = s.unicode_len();
    let mut value: u64 = 0;
    let mut pos: usize = 0;
    let mut skip_sign: bool = false;
    let mut ok: bool = true;
    let mut ndigits: usize = 0;
    for c in it: s.chars()
        invariant
            it.seq() == chars,
            len == chars.len(),
            pos == it.index(),
            pos <= len,
            skip_sign == (pos > 0 && chars[0] == '+'),
            ds == unsigned_digits(chars),
            ok ==> {
                &&& ndigits == (if skip_sign { pos - 1 } else { pos as int })
                &&& all_digits(ds.take(ndigits as int))
                &&& value == digits_value(ds.take(ndigits as int))
                &&& ndigits <= ds.len()
            },
            !ok ==> parse_u64_spec(chars) is None,
    {
        assert(pos < len);
        assert(c == chars[pos as int]);
        if ok {
            if pos == 0 && c == '+' {
            } else if '0' <= c && c <= '9' {
                let d: u64 = ((c as u32) - 48) as u64;
                proof {
                    assert(ds[ndigits as int] == c);
                    assert(ds.take(ndigits + 1).drop_last() =~= ds.take(ndigits as int));
                    assert(digit_value(c) == d);
                }
                if value > (u64::MAX - d) / 10 {
                    proof {
                        assert(digits_value(ds.take(ndigits + 1)) == 10 * value + d);
                        if all_digits(ds) {
                            lemma_digits_value_monotone(ds, ndigits + 1);
                        }
                    }
                    ok = false;
                } else {
                    value = value * 10 + d;
                    ndigits = ndigits + 1;
                    proof {
                        assert(all_digits(ds.take(ndigits as int)));
                    }
                }
            } else {
                proof {
                    assert(ds[ndigits as int] == c);
                    assert(!is_digit(ds[ndigits as int]));
                }
                ok = false;
            }
        }
        if pos == 0 {
            skip_sign = c == '+';
        }
        pos = pos + 1;
    }
    if ok && ndigits > 0 {
        proof {
            assert(ndigits == ds.len());
            assert(ds.take(ndigits as int) =~= ds);
        }
        Some(value)
    } else {
        proof {
            if ok {
                assert(ds.len() == 0);
            }
        }
        None
    }
}

// ---------------------------------------------------------------------------
// Round trip between rendering and parsing
// ---------------------------------------------------------------------------

proof fn lemma_decimal_digits(n: nat)
    ensures
        decimal(n).len() > 0,
        all_digits(decimal(n)),
        digits_value(decimal(n)) == n,
        decimal(n)[0] != '+',
    decreases n,
{
    if n >= 10 {
        lemma_decimal_digits(n / 10);
        let d = decimal(n);
        assert(digit_value(digit_char(n % 10)) == n % 10);
        assert(n == 10 * (n / 10) + n % 10);
        assert(d.drop_last() =~= decimal(n / 10));
        assert forall|i: int| 0 <= i < d.len() implies is_digit(#[trigger] d[i]) by {
            if i < d.len() - 1 {
                assert(d[i] == decimal(n / 10)[i]);
            }
        }
        assert(d.last() == digit_char(n % 10));
        assert(digits_value(d) == 10 * digits_value(decimal(n / 10)) + n % 10);
    } else {
        let d = decimal(n);
        assert(d.drop_last() =~= Seq::<char>::empty());
        assert(digit_value(digit_char(n)) == n);
        assert(digits_value(d) == 10 * digits_value(d.drop_last()) + digit_value(d.last()));
    }
}

/// Reading back the decimal rendering of a `u64` gives the same number.
pub proof fn lemma_parse_format_u64(n: u64)
    ensures
        parse_u64_spec(decimal(n as nat)) == Some(n),
{
    lemma_decimal_digits(n as nat);
}

/// Reading back the decimal rendering of an `i64`: a non-negative number
/// reads back as itself; a negative one is a `-` followed by digits that read
/// back as its magnitude.
pub proof fn lemma_signed_decimal_reads_back(n: i64)
    ensures
        n >= 0 ==> parse_u64_spec(signed_decimal(n as int)) == Some(n as u64),
        n < 0 ==> signed_decimal(n as int)[0] == '-' && parse_u64_spec(
            signed_decimal(n as int).skip(1),
        ) == Some((-(n as int)) as u64),
{
    if n >= 0 {
        lemma_parse_format_u64(n as u64);
    } else {
        let m: u64 = (-(n as int)) as u64;
        lemma_parse_format_u64(m);
        assert(signed_decimal(n as int).skip(1) =~= decimal(m as nat));
    }
}

// ---------------------------------------------------------------------------
// Trimming, joining and comparing
// ---------------------------------------------------------------------------

/// `s` without all of its trailing `c` characters (what `trim_end_matches(c)`
/// leaves).
pub open spec fn trim_end_char(s: Seq<char>, c: char) -> Seq<char>
    decreases s.len(),
{
    if s.len() > 0 && s.last() == c {
        trim_end_char(s.drop_last(), c)
    } else {
        s
    }
}

/// The trimmed sequence is a prefix of the original, and what was cut is all `c`.
pub proof fn lemma_trim_end_char(s: Seq<char>, c: char)
    ensures
        trim_end_char(s, c).len() <= s.len(),
        trim_end_char(s, c) =~= s.take(trim_end_char(s, c).len() as int),
        forall|i: int| trim_end_char(s, c).len() <= i < s.len() ==> #[trigger] s[i] == c,
        trim_end_char(s, c).len() > 0 ==> trim_end_char(s, c).last() != c,
    decreases s.len(),
{
    if s.len() > 0 && s.last() == c {
        lemma_trim_end_char(s.drop_last(), c);
        assert forall|i: int| trim_end_char(s, c).len() <= i < s.len() implies #[trigger] s[i] == c by {
            if i < s.len() - 1 {
                assert(s[i] == s.drop_last()[i]);
            }
        }
    }
}

proof fn lemma_trim_end_char_prefix(s: Seq<char>, c: char, k: int)
    requires
        0 <= k <= s.len(),
        k == 0 || s[k - 1] != c,
        forall|i: int| k <= i < s.len() ==> #[trigger] s[i] == c,
    ensures
        trim_end_char(s, c) =~= s.take(k),
    decreases s.len(),
{
    if s.len() > k {
        lemma_trim_end_char_prefix(s.drop_last(), c, k);
        assert(s.drop_last().take(k) =~= s.take(k));
    } else {
        assert(s.take(k) =~= s);
    }
}

/// Removes every trailing `c` from `s`, as `str::trim_end_matches(c)` does.
pub fn trim_end_char_str(s: &str, c: char) -> (r: &str)
    ensures
        r@ == trim_end_char(s@, c),
{
    let len: usize = s.unicode_len();
    let mut keep: usize = 0;
    let mut pos: usize = 0;
    for x in it: s.chars()
        invariant
            it.seq() == s@,
            len == s@.len(),
            pos <= len,
            pos == it.index(),
            keep <= pos,
            keep == 0 || s@[keep - 1] != c,
            forall|i: int| keep <= i < pos ==> #[trigger] s@[i] == c,
    {
        pos = pos + 1;
        if x != c {
            keep = pos;
        }
    }
    proof {
        lemma_trim_end_char_prefix(s@, c, keep as int);
    }
    s.substring_char(0, keep)
}

/// The parts laid end to end, with `sep` between each part and the next.
pub open spec fn joined_with(parts: Seq<Seq<char>>, sep: Seq<char>) -> Seq<char>
    decreases parts.len(),
{
    if parts.len() >= 2 {
        joined_with(parts.drop_last(), sep) + sep + parts.last()
    } else if parts.len() == 1 {
        parts[0]
    } else {
        seq![]
    }
}

/// Whether two string slices hold the same characters.
pub fn str_equal(a: &str, b: &str) -> (r: bool)
    ensures
        r == (a@ == b@),
{
    let x = String::from_str(a);
    let y = String::from_str(b);
    x == y
}

} // verus!
