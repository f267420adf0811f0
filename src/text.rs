//! Character-level helpers shared by the scanners of the processor's output.

use vstd::prelude::*;

verus! {

/// Whitespace as Unicode's White_Space property has it: tab, line feed,
/// vertical tab, form feed, carriage return, space, next line, no-break
/// space, the ogham space mark, the spaces U+2000 to U+200A, the line and
/// paragraph separators, the narrow no-break space, the medium mathematical
/// space and the ideographic space.
pub open spec fn is_space(c: char) -> bool {
    ('\t' <= c && c <= '\r') || c == ' ' || c == '\u{85}' || c == '\u{a0}' || c == '\u{1680}'
        || ('\u{2000}' <= c && c <= '\u{200a}') || c == '\u{2028}' || c == '\u{2029}' || c
        == '\u{202f}' || c == '\u{205f}' || c == '\u{3000}'
}

/// An ASCII decimal digit.
pub open spec fn is_digit(c: char) -> bool {
    '0' <= c && c <= '9'
}

pub fn char_is_space(c: char) -> (r: bool)
    ensures
        r == is_space(c),
{
    ('\t' <= c && c <= '\r') || c == ' ' || c == '\u{85}' || c == '\u{a0}' || c == '\u{1680}'
        || ('\u{2000}' <= c && c <= '\u{200a}') || c == '\u{2028}' || c == '\u{2029}' || c
        == '\u{202f}' || c == '\u{205f}' || c == '\u{3000}'
}

/// The characters of `s`, in order.
pub fn chars_of(s: &str) -> (r: Vec<char>)
    ensures
        r@ == s@,
{
    let mut r: Vec<char> = Vec::new();
    for c in it: s.chars()
        invariant
            r@ == it.seq().take(it.index() as int),
    {
        r.push(c);
    }
    r
}

/// The value of the decimal digits of `s`, read left to right; any `.` in
/// `s` is passed over.
pub open spec fn digits_value(s: Seq<char>) -> nat
    decreases s.len(),
{
    if s.len() == 0 {
        0
    } else if s.last() == '.' {
        digits_value(s.drop_last())
    } else {
        digits_value(s.drop_last()) * 10 + digit_value(s.last())
    }
}

/// The value of the digit `c`.
pub open spec fn digit_value(c: char) -> nat {
    (c as int - '0' as int) as nat
}

/// The digit character for `d < 10`.
pub open spec fn digit_char(d: nat) -> char {
    ('0' as nat + d) as char
}

/// The decimal form of `n`, without leading zeros (`0` for zero).
pub open spec fn digits_of(n: nat) -> Seq<char>
    decreases n,
{
    if n < 10 {
        seq![digit_char(n)]
    } else {
        digits_of(n / 10).push(digit_char(n % 10))
    }
}

pub proof fn lemma_digits_of_len(n: nat)
    ensures
        digits_of(n).len() >= 1,
    decreases n,
{
    if n >= 10 {
        lemma_digits_of_len(n / 10);
    }
}

/// Appends the decimal form of `n` to `out`.
pub fn push_digits(out: &mut Vec<char>, n: u64)
    ensures
        final(out)@ == old(out)@ + digits_of(n as nat),
    decreases n,
{
    if n < 10 {
        out.push(((n as u8) + 48u8) as char);
        assert(final(out)@ =~= old(out)@ + digits_of(n as nat));
    } else {
        push_digits(out, n / 10);
        out.push((((n % 10) as u8) + 48u8) as char);
        assert(final(out)@ =~= old(out)@ + digits_of(n as nat));
    }
}

/// Relies on `String::push`: the character is appended.
#[verifier::external_body]
pub fn push_char(s: &mut String, c: char)
    ensures
        final(s)@ == old(s)@.push(c),
{
    s.push(c);
}

/// Appends the characters of `v` to `s`.
pub fn push_chars(s: &mut String, v: &[char])
    ensures
        final(s)@ == old(s)@ + v@,
{
    let mut i: usize = 0;
    while i < v.len()
        invariant
            0 <= i <= v@.len(),
            s@ == old(s)@ + v@.take(i as int),
        decreases v@.len() - i,
    {
        push_char(s, v[i]);
        i = i + 1;
        assert(v@.take(i as int) =~= v@.take(i - 1).push(v@[i - 1]));
    }
    assert(v@.take(v@.len() as int) =~= v@);
}

/// A string holding the characters of `v`.
pub fn string_of(v: &[char]) -> (r: String)
    ensures
        r@ == v@,
{
    let mut r = String::new();
    push_chars(&mut r, v);
    r
}

/// The characters of each string of `v`.
pub open spec fn views_of(v: Seq<String>) -> Seq<Seq<char>> {
    v.map_values(|s: String| s@)
}

/// The characters of a string literal, as a vector.
pub fn literal(s: &str) -> (r: Vec<char>)
    ensures
        r@ == s@,
{
    chars_of(s)
}

/// Appends the characters of `t` to `out`.
pub fn push_text(out: &mut Vec<char>, t: &str)
    ensures
        final(out)@ == old(out)@ + t@,
{
    let mut c = chars_of(t);
    out.append(&mut c);
}

/// The length of the leading sign of `s` (0 or 1).
pub open spec fn sign_end(s: Seq<char>) -> int {
    if s.len() > 0 && (s[0] == '-' || s[0] == '+') {
        1
    } else {
        0
    }
}

/// The value of a string of digits, with an optional leading `-` or `+`.
pub open spec fn integer_of(s: Seq<char>) -> Option<int> {
    let d = s.subrange(sign_end(s), s.len() as int);
    if d.len() > 0 && forall|i: int| 0 <= i < d.len() ==> is_digit(#[trigger] d[i]) {
        if s[0] == '-' {
            Some(-digits_value(d))
        } else {
            Some(digits_value(d) as int)
        }
    } else {
        None
    }
}

proof fn lemma_integer_of_digits(s: Seq<char>)
    requires
        s.subrange(sign_end(s), s.len() as int).len() > 0,
        forall|j: int|
            0 <= j < s.subrange(sign_end(s), s.len() as int).len() ==> is_digit(
                #[trigger] s.subrange(sign_end(s), s.len() as int)[j],
            ),
    ensures
        integer_of(s) == (if s[0] == '-' {
            Some(-digits_value(s.subrange(sign_end(s), s.len() as int)))
        } else {
            Some(digits_value(s.subrange(sign_end(s), s.len() as int)) as int)
        }),
{
}

/// The digits of a prefix are worth no more than the whole.
pub proof fn lemma_digits_value_prefix(s: Seq<char>, k: int)
    requires
        0 <= k <= s.len(),
    ensures
        digits_value(s.take(k)) <= digits_value(s),
    decreases s.len(),
{
    if k < s.len() {
        assert(s.drop_last().take(k) =~= s.take(k));
        lemma_digits_value_prefix(s.drop_last(), k);
    } else {
        assert(s.take(k) =~= s);
    }
}

/// The `i64` written in decimal in `s` (see `integer_of`); `None` where
/// the text is no integer or the integer does not fit.
pub open spec fn i64_of(s: Seq<char>) -> Option<i64> {
    match integer_of(s) {
        Some(x) => if i64::MIN <= x <= i64::MAX {
            Some(x as i64)
        } else {
            None
        },
        None => None,
    }
}

/// Reads an `i64` written in decimal (see `i64_of`).
pub fn parse_i64(s: &str) -> (r: Option<i64>)
    ensures
        r == i64_of(s@),
{
    let c = chars_of(s);
    parse_i64_chars(&c)
}

/// Reads an `i64` written in decimal in the characters `c` (see `i64_of`).
pub fn parse_i64_chars(c: &Vec<char>) -> (r: Option<i64>)
    ensures
        r == i64_of(c@),
{
    let n = c.len();
    if n == 0 {
        return None;
    }
    let negative = c[0] == '-';
    let start: usize = if c[0] == '-' || c[0] == '+' {
        1
    } else {
        0
    };
    let ghost d = c@.subrange(sign_end(c@), c@.len() as int);
    assert(d == c@.subrange(start as int, n as int));
    if start == n || !forall_digits(c, start) {
        proof {
            if start < n {
                let j = choose|j: int| start <= j < n && !is_digit(#[trigger] c@[j]);
                assert(!is_digit(d[j - start]));
            }
        }
        return None;
    }
    assert(forall|j: int| 0 <= j < d.len() ==> is_digit(#[trigger] d[j])) by {
        assert(forall|j: int| 0 <= j < d.len() ==> d[j] == c@[start + j]);
    }
    let limit: u64 = if negative {
        9223372036854775808
    } else {
        9223372036854775807
    };
    let mut acc: u64 = 0;
    let mut i = start;
    while i < n
        invariant
            n == c@.len(),
            start < n,
            d == c@.subrange(start as int, n as int),
            forall|j: int| 0 <= j < d.len() ==> is_digit(#[trigger] d[j]),
            start <= i <= n,
            acc as nat == digits_value(d.take(i - start)),
            acc <= limit,
            limit == (if negative {
                9223372036854775808u64
            } else {
                9223372036854775807u64
            }),
            d == c@.subrange(sign_end(c@), c@.len() as int),
            negative == (c@[0] == '-'),
        decreases n - i,
    {
        let ch = c[i];
        let ghost k = i - start;
        assert(d.take(k + 1).drop_last() =~= d.take(k));
        assert(d[k] == ch);
        assert(is_digit(d[k]));
        assert('0' <= ch && ch <= '9');
        let v = (ch as u32 - '0' as u32) as u64;
        assert(v as nat == digit_value(ch));
        assert(v <= 9);
        if acc > (limit - v) / 10 {
            proof {
                assert(digits_value(d.take(k + 1)) == acc * 10 + v);
                lemma_digits_value_prefix(d, k + 1);
                assert(acc * 10 + v > limit) by (nonlinear_arith)
                    requires
                        acc > (limit - v) / 10,
                        v <= limit,
                ;
                lemma_integer_of_digits(c@);
            }
            return None;
        }
        acc = acc * 10 + v;
        i = i + 1;
    }
    assert(d.take(n - start) =~= d);
    if negative {
        if acc == 9223372036854775808 {
            Some(i64::MIN)
        } else {
            Some(-(acc as i64))
        }
    } else {
        Some(acc as i64)
    }
}

/// Whether every character of `c` from `i` on is a digit.
fn forall_digits(c: &Vec<char>, i: usize) -> (r: bool)
    requires
        i <= c@.len(),
    ensures
        r == forall|j: int| i <= j < c@.len() ==> is_digit(#[trigger] c@[j]),
{
    let mut k = i;
    while k < c.len()
        invariant
            i <= k <= c@.len(),
            forall|j: int| i <= j < k ==> is_digit(#[trigger] c@[j]),
        decreases c@.len() - k,
    {
        if !('0' <= c[k] && c[k] <= '9') {
            return false;
        }
        k = k + 1;
    }
    true
}

/// The decimal form of `x`, with a `-` when it is negative.
pub open spec fn int_text(x: int) -> Seq<char> {
    if x < 0 {
        seq!['-'] + digits_of((-x) as nat)
    } else {
        digits_of(x as nat)
    }
}

/// Appends the decimal form of `x` to `out`.
pub fn push_int(out: &mut Vec<char>, x: i64)
    ensures
        final(out)@ == old(out)@ + int_text(x as int),
{
    if x < 0 {
        out.push('-');
        let m: u64 = if x == i64::MIN {
            9223372036854775808
        } else {
            (-x) as u64
        };
        push_digits(out, m);
        assert(final(out)@ =~= old(out)@ + int_text(x as int));
    } else {
        push_digits(out, x as u64);
    }
}

/// The characters `s@[from..to]`.
pub fn slice_chars(s: &Vec<char>, from: usize, to: usize) -> (r: Vec<char>)
    requires
        from <= to <= s@.len(),
    ensures
        r@ == s@.subrange(from as int, to as int),
{
    let mut r: Vec<char> = Vec::new();
    let mut j = from;
    while j < to
        invariant
            from <= j <= to <= s@.len(),
            r@ == s@.subrange(from as int, j as int),
        decreases to - j,
    {
        r.push(s[j]);
        j = j + 1;
        assert(r@ =~= s@.subrange(from as int, j as int));
    }
    r
}

} // verus!
