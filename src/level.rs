//! Levels as the media processor prints them: a signed decimal number, an
//! infinity or "not a number", read from text and written back as text.

use vstd::prelude::*;
use crate::text::{
    chars_of, digit_value, digits_of, digits_value, i64_of, is_digit, lemma_digits_of_len,
    lemma_digits_value_prefix, parse_i64_chars, push_digits, slice_chars, string_of,
};

verus! {

/// A level in dB, LUFS or LU.
///
/// `Finite` stands for `mantissa / 10^scale`, negated when `negative` holds.
#[derive(Clone, Copy, Debug, PartialEq, Eq, Structural)]
pub enum Level {
    Finite { negative: bool, mantissa: u64, scale: u64 },
    Infinite { negative: bool },
    NotANumber,
}

/// `s` spells the word whose lower-case letters are `w` and whose upper-case
/// letters are `u`, each letter in either case.
pub open spec fn is_word(s: Seq<char>, w: Seq<char>, u: Seq<char>) -> bool {
    &&& s.len() == w.len()
    &&& s.len() == u.len()
    &&& forall|i: int| 0 <= i < s.len() ==> #[trigger] s[i] == w[i] || s[i] == u[i]
}

/// The length of the leading sign of `s` (0 or 1).
pub open spec fn sign_len(s: Seq<char>) -> int {
    if s.len() > 0 && (s[0] == '+' || s[0] == '-') {
        1
    } else {
        0
    }
}

pub open spec fn has_point(b: Seq<char>) -> bool {
    exists|i: int| 0 <= i < b.len() && b[i] == '.'
}

/// Digits and at most one `.`, with at least one digit.
pub open spec fn is_decimal(b: Seq<char>) -> bool {
    &&& forall|i: int| 0 <= i < b.len() ==> is_digit(#[trigger] b[i]) || b[i] == '.'
    &&& forall|i: int, j: int| 0 <= i < j < b.len() ==> !(#[trigger] b[i] == '.' && #[trigger] b[j] == '.')
    &&& exists|i: int| 0 <= i < b.len() && is_digit(#[trigger] b[i])
}

/// The number of characters after the `.` of `b`, zero when it has none.
pub open spec fn fraction_len(b: Seq<char>) -> nat
    decreases b.len(),
{
    if b.len() == 0 || b.last() == '.' {
        0
    } else if has_point(b.drop_last()) {
        fraction_len(b.drop_last()) + 1
    } else {
        0
    }
}

pub open spec fn inf_word() -> Seq<char> {
    seq!['i', 'n', 'f']
}

pub open spec fn inf_upper() -> Seq<char> {
    seq!['I', 'N', 'F']
}

pub open spec fn infinity_word() -> Seq<char> {
    seq!['i', 'n', 'f', 'i', 'n', 'i', 't', 'y']
}

pub open spec fn infinity_upper() -> Seq<char> {
    seq!['I', 'N', 'F', 'I', 'N', 'I', 'T', 'Y']
}

pub open spec fn nan_word() -> Seq<char> {
    seq!['n', 'a', 'n']
}

pub open spec fn nan_upper() -> Seq<char> {
    seq!['N', 'A', 'N']
}

/// The index of the first `e` or `E` of `b` at or after `i`, or its length.
pub open spec fn exponent_at(b: Seq<char>, i: int) -> int
    decreases b.len() - i,
{
    if 0 <= i < b.len() && b[i] != 'e' && b[i] != 'E' {
        exponent_at(b, i + 1)
    } else {
        i
    }
}

/// The finite level `m * 10^(e - f)`, negated where `negative` holds;
/// `None` where its mantissa or its scale exceeds `u64::MAX`.
pub open spec fn finite_of(negative: bool, m: nat, f: nat, e: int) -> Option<Level> {
    if e >= f {
        let v = m * pow10((e - f) as nat);
        if v <= u64::MAX {
            Some(Level::Finite { negative, mantissa: v as u64, scale: 0 })
        } else {
            None
        }
    } else if m <= u64::MAX && f - e <= u64::MAX {
        Some(Level::Finite { negative, mantissa: m as u64, scale: (f - e) as u64 })
    } else {
        None
    }
}

/// The level that the text `s` denotes: an optional sign, then `inf`,
/// `infinity` or `nan` in any case, or a decimal number such as `12`,
/// `-23.40`, `.5` or `7.`, with an optional exponent such as `e-3` or
/// `E+2` (its value an `i64`). `None` for anything else, and where the
/// mantissa or the scale of the level would exceed `u64::MAX`.
pub open spec fn level_of(s: Seq<char>) -> Option<Level> {
    let negative = s.len() > 0 && s[0] == '-';
    let b = s.subrange(sign_len(s), s.len() as int);
    if is_word(b, inf_word(), inf_upper()) || is_word(b, infinity_word(), infinity_upper()) {
        Some(Level::Infinite { negative })
    } else if is_word(b, nan_word(), nan_upper()) {
        Some(Level::NotANumber)
    } else {
        let x = exponent_at(b, 0);
        let mant = b.subrange(0, x);
        let e: Option<i64> = if x < b.len() {
            i64_of(b.subrange(x + 1, b.len() as int))
        } else {
            Some(0i64)
        };
        if is_decimal(mant) && e is Some {
            finite_of(negative, digits_value(mant), fraction_len(mant), e->0 as int)
        } else {
            None
        }
    }
}

pub open spec fn pow10(n: nat) -> nat
    decreases n,
{
    if n == 0 {
        1
    } else {
        10 * pow10((n - 1) as nat)
    }
}

/// `mantissa / 10^scale` with both factors divided by ten while the
/// mantissa ends in a zero digit and the scale is positive.
pub open spec fn trimmed(mantissa: nat, scale: nat) -> (nat, nat)
    decreases scale,
{
    if scale > 0 && mantissa % 10 == 0 {
        trimmed(mantissa / 10, (scale - 1) as nat)
    } else {
        (mantissa, scale)
    }
}

pub open spec fn zeros(n: nat) -> Seq<char> {
    Seq::new(n, |i: int| '0')
}

/// `m / 10^s` written out: the digits of `m` with a `.` before the last `s`
/// of them, and leading zeros where `m` has `s` digits or fewer.
pub open spec fn decimal_text(m: nat, s: nat) -> Seq<char> {
    let d = digits_of(m);
    if s == 0 {
        d
    } else if s < d.len() {
        d.take(d.len() - s) + seq!['.'] + d.skip(d.len() - s)
    } else {
        seq!['0', '.'] + zeros((s - d.len()) as nat) + d
    }
}

pub open spec fn sign_text(negative: bool) -> Seq<char> {
    if negative {
        seq!['-']
    } else {
        Seq::empty()
    }
}

/// The shortest text of a level: no trailing zeros after the point, no
/// point for a whole number, `inf`, `-inf` and `NaN` for the others.
pub open spec fn level_text(l: Level) -> Seq<char> {
    match l {
        Level::Finite { negative, mantissa, scale } => {
            let (m, s) = trimmed(mantissa as nat, scale as nat);
            sign_text(negative) + decimal_text(m, s)
        },
        Level::Infinite { negative } => sign_text(negative) + inf_word(),
        Level::NotANumber => seq!['N', 'a', 'N'],
    }
}

pub open spec fn signed(negative: bool, m: nat) -> int {
    if negative {
        -m
    } else {
        m as int
    }
}

pub open spec fn abs(x: int) -> nat {
    if x < 0 {
        (-x) as nat
    } else {
        x as nat
    }
}

/// `a - b`, exact for finite levels, at the larger of the two scales.
/// `None` where a finite operand at that scale, or the result, has a
/// mantissa above `u64::MAX`.
pub open spec fn difference(a: Level, b: Level) -> Option<Level> {
    match (a, b) {
        (Level::NotANumber, _) => Some(Level::NotANumber),
        (_, Level::NotANumber) => Some(Level::NotANumber),
        (Level::Infinite { negative: x }, Level::Infinite { negative: y }) => {
            if x == y {
                Some(Level::NotANumber)
            } else {
                Some(Level::Infinite { negative: x })
            }
        },
        (Level::Infinite { negative }, Level::Finite { .. }) => Some(Level::Infinite { negative }),
        (Level::Finite { .. }, Level::Infinite { negative }) => Some(
            Level::Infinite { negative: !negative },
        ),
        (
            Level::Finite { negative: na, mantissa: ma, scale: sa },
            Level::Finite { negative: nb, mantissa: mb, scale: sb },
        ) => {
            let s: nat = if sa >= sb {
                sa as nat
            } else {
                sb as nat
            };
            let x = ma as nat * pow10((s - sa) as nat);
            let y = mb as nat * pow10((s - sb) as nat);
            let d = signed(na, x) - signed(nb, y);
            if x <= u64::MAX && y <= u64::MAX && abs(d) <= u64::MAX {
                Some(Level::Finite { negative: d < 0, mantissa: abs(d) as u64, scale: s as u64 })
            } else {
                None
            }
        },
    }
}

/// The value of a finite level, scaled by `10^s` (for `s` at least its scale).
pub open spec fn scaled_value(l: Level, s: nat) -> int {
    match l {
        Level::Finite { negative, mantissa, scale } => signed(negative, mantissa as nat) * pow10(
            (s - scale) as nat,
        ),
        _ => 0,
    }
}

pub proof fn lemma_pow10_add(a: nat, b: nat)
    ensures
        pow10(a + b) == pow10(a) * pow10(b),
    decreases a,
{
    if a > 0 {
        let a1 = (a - 1) as nat;
        lemma_pow10_add(a1, b);
        assert(pow10(a) == 10 * pow10(a1));
        assert(pow10(a + b) == 10 * pow10(a1 + b));
        let (x, y, z) = (pow10(a1), pow10(b), pow10(a1 + b));
        assert(pow10(a + b) == pow10(a) * pow10(b)) by (nonlinear_arith)
            requires
                z == x * y,
                pow10(a + b) == 10 * z,
                pow10(a) == 10 * x,
                pow10(b) == y,
        ;
    } else {
        assert(pow10(0) == 1);
        assert(a + b == b);
    }
}

pub proof fn lemma_pow10_positive(a: nat)
    ensures
        pow10(a) >= 1,
    decreases a,
{
    if a > 0 {
        lemma_pow10_positive((a - 1) as nat);
    }
}

/// `s` spells, from `start` on, the word whose letters are `w` in lower case
/// and `u` in upper case.
fn spells(s: &Vec<char>, start: usize, w: &[char], u: &[char]) -> (r: bool)
    requires
        start <= s@.len(),
    ensures
        r == is_word(s@.subrange(start as int, s@.len() as int), w@, u@),
{
    let ghost b = s@.subrange(start as int, s@.len() as int);
    if s.len() - start != w.len() || w.len() != u.len() {
        return false;
    }
    let n = s.len();
    let mut i: usize = 0;
    let mut j: usize = start;
    while i < w.len()
        invariant
            n == s@.len(),
            j == start + i,
            b == s@.subrange(start as int, s@.len() as int),
            b.len() == w@.len(),
            b.len() == u@.len(),
            start + w@.len() == s@.len(),
            0 <= i <= w@.len(),
            forall|j: int| 0 <= j < i ==> #[trigger] b[j] == w@[j] || b[j] == u@[j],
        decreases w@.len() - i,
    {
        let c = s[j];
        assert(c == b[i as int]);
        if c != w[i] && c != u[i] {
            return false;
        }
        i = i + 1;
        j = j + 1;
    }
    true
}

/// Multiplies `m` by `10^k`; `None` where the product exceeds `u64::MAX`.
pub fn scale_up(m: u64, k: u64) -> (r: Option<u64>)
    ensures
        r == (if m as nat * pow10(k as nat) <= u64::MAX {
            Some((m as nat * pow10(k as nat)) as u64)
        } else {
            None
        }),
{
    if m == 0 {
        assert(m as nat * pow10(k as nat) == 0);
        return Some(0);
    }
    let mut acc: u64 = m;
    let mut i: u64 = 0;
    assert(pow10(0) == 1);
    while i < k
        invariant
            0 <= i <= k,
            acc as nat == m as nat * pow10(i as nat),
        decreases k - i,
    {
        if acc > u64::MAX / 10 {
            proof {
                lemma_pow10_add(i as nat, (k - i) as nat);
                lemma_pow10_add(1, (k - i - 1) as nat);
                lemma_pow10_positive((k - i - 1) as nat);
                assert(pow10(0) == 1);
                assert(pow10(1) == 10);
                let p = pow10((k - i - 1) as nat);
                assert(m as nat * pow10(k as nat) == acc as nat * (10 * p)) by (nonlinear_arith)
                    requires
                        pow10(k as nat) == pow10(i as nat) * pow10((k - i) as nat),
                        pow10((k - i) as nat) == 10 * p,
                        acc as nat == m as nat * pow10(i as nat),
                        (i + (k - i)) as nat == k as nat,
                        (1 + (k - i - 1)) as nat == (k - i) as nat,
                ;
                assert(acc as nat * (10 * p) >= acc as nat * 10) by (nonlinear_arith)
                    requires
                        p >= 1,
                ;
            }
            return None;
        }
        proof {
            assert(pow10((i + 1) as nat) == 10 * pow10(i as nat));
            assert((acc * 10) as nat == m as nat * pow10((i + 1) as nat)) by (nonlinear_arith)
                requires
                    acc as nat == m as nat * pow10(i as nat),
                    pow10((i + 1) as nat) == 10 * pow10(i as nat),
                    acc * 10 <= u64::MAX,
            ;
        }
        acc = acc * 10;
        i = i + 1;
    }
    Some(acc)
}

/// `exponent_at` from the start of `b`.
fn exponent_index(b: &Vec<char>) -> (r: usize)
    ensures
        r == exponent_at(b@, 0),
        r <= b@.len(),
{
    let mut i: usize = 0;
    while i < b.len() && b[i] != 'e' && b[i] != 'E'
        invariant
            i <= b@.len(),
            exponent_at(b@, i as int) == exponent_at(b@, 0),
        decreases b@.len() - i,
    {
        i = i + 1;
    }
    i
}

/// The digits value and the fraction length of the decimal `b@[..to]`;
/// `None` where it is no decimal or its digits value exceeds `u64::MAX`.
fn decimal_at(c: &Vec<char>, to: usize) -> (r: Option<(u64, u64)>)
    requires
        to <= c@.len(),
    ensures
        r == (if is_decimal(c@.subrange(0, to as int)) && digits_value(c@.subrange(0, to as int))
            <= u64::MAX {
            Some(
                (
                    digits_value(c@.subrange(0, to as int)) as u64,
                    fraction_len(c@.subrange(0, to as int)) as u64,
                ),
            )
        } else {
            None
        }),
        r is Some ==> fraction_len(c@.subrange(0, to as int)) <= to,
{
    let ghost b = c@.subrange(0, to as int);
    let n = to;
    let mut i: usize = 0;
    let mut mantissa: u64 = 0;
    let mut scale: u64 = 0;
    let mut seen_point = false;
    let mut point_at: usize = 0;
    let mut any_digit = false;
    while i < n
        invariant
            n == to,
            to <= c@.len(),
            b == c@.subrange(0, to as int),
            0 <= i <= n,
            forall|j: int| 0 <= j < i ==> is_digit(#[trigger] b[j]) || b[j] == '.',
            seen_point ==> point_at < i && b[point_at as int] == '.',
            seen_point ==> forall|j: int|
                0 <= j < i && j != point_at ==> #[trigger] b[j] != '.',
            !seen_point ==> forall|j: int| 0 <= j < i ==> #[trigger] b[j] != '.',
            any_digit == exists|j: int| 0 <= j < i && is_digit(#[trigger] b[j]),
            mantissa as nat == digits_value(b.take(i as int)),
            scale as nat == fraction_len(b.take(i as int)),
            scale <= i,
        decreases n - i,
    {
        let ch = c[i];
        let ghost k = i as int;
        assert(b[k] == ch);
        assert(b.take(k + 1).drop_last() =~= b.take(k));
        assert(b.take(k + 1).last() == b[k]);
        proof {
            if seen_point {
                assert(b.take(k)[point_at as int] == '.');
            } else {
                assert(forall|j: int| 0 <= j < k ==> b.take(k)[j] == b[j]);
            }
        }
        if ch == '.' {
            if seen_point {
                proof {
                    let p = point_at as int;
                    assert(0 <= p < k < b.len());
                    assert(b[p] == '.' && b[k] == '.');
                }
                return None;
            }
            seen_point = true;
            point_at = i;
        } else if '0' <= ch && ch <= '9' {
            let d = (ch as u32 - '0' as u32) as u64;
            assert(d as nat == digit_value(ch));
            if mantissa > (u64::MAX - d) / 10 {
                proof {
                    assert(digits_value(b.take(k + 1)) == mantissa * 10 + d);
                    lemma_digits_value_prefix(b, k + 1);
                }
                return None;
            }
            mantissa = mantissa * 10 + d;
            if seen_point {
                scale = scale + 1;
            }
            any_digit = true;
        } else {
            proof {
                assert(0 <= k < b.len());
                assert(!is_digit(b[k]) && b[k] != '.');
            }
            return None;
        }
        i = i + 1;
    }
    assert(b.take(n as int) =~= b);
    if !any_digit {
        return None;
    }
    assert(is_decimal(b));
    Some((mantissa, scale))
}

impl Level {
    /// Reads a level from its text (see `level_of`).
    pub fn parse(s: &str) -> (r: Option<Level>)
        ensures
            r == level_of(s@),
    {
        let c = chars_of(s);
        let n = c.len();
        let negative = n > 0 && c[0] == '-';
        let start: usize = if n > 0 && (c[0] == '+' || c[0] == '-') {
            1
        } else {
            0
        };
        let inf: &[char] = &['i', 'n', 'f'];
        let inf_u: &[char] = &['I', 'N', 'F'];
        let infinity: &[char] = &['i', 'n', 'f', 'i', 'n', 'i', 't', 'y'];
        let infinity_u: &[char] = &['I', 'N', 'F', 'I', 'N', 'I', 'T', 'Y'];
        let nan: &[char] = &['n', 'a', 'n'];
        let nan_u: &[char] = &['N', 'A', 'N'];
        assert(inf@ =~= inf_word() && inf_u@ =~= inf_upper());
        assert(infinity@ =~= infinity_word() && infinity_u@ =~= infinity_upper());
        assert(nan@ =~= nan_word() && nan_u@ =~= nan_upper());
        if spells(&c, start, inf, inf_u) || spells(&c, start, infinity, infinity_u) {
            return Some(Level::Infinite { negative });
        }
        if spells(&c, start, nan, nan_u) {
            return Some(Level::NotANumber);
        }
        let b = slice_chars(&c, start, n);
        assert(b@ == s@.subrange(sign_len(s@), s@.len() as int));
        let x = exponent_index(&b);
        let ghost mant = b@.subrange(0, x as int);
        let e: i64 = if x < b.len() {
            let ev = slice_chars(&b, x + 1, b.len());
            match parse_i64_chars(&ev) {
                Some(v) => v,
                None => {
                    return None;
                },
            }
        } else {
            0
        };
        let (m, f) = match decimal_at(&b, x) {
            Some(p) => p,
            None => {
                proof {
                    if is_decimal(mant) {
                        let p = (e - fraction_len(mant)) as nat;
                        lemma_pow10_positive(p);
                        let dv = digits_value(mant);
                        assert(dv * pow10(p) >= dv) by (nonlinear_arith)
                            requires
                                pow10(p) >= 1,
                        ;
                    }
                }
                return None;
            },
        };
        assert(m == digits_value(mant) && f == fraction_len(mant));
        let e2 = e as i128;
        let f2 = f as i128;
        if e2 >= f2 {
            match scale_up(m, (e2 - f2) as u64) {
                Some(v) => Some(Level::Finite { negative, mantissa: v, scale: 0 }),
                None => None,
            }
        } else if f2 - e2 > u64::MAX as i128 {
            None
        } else {
            Some(Level::Finite { negative, mantissa: m, scale: (f2 - e2) as u64 })
        }
    }

    /// The shortest text of this level (see `level_text`).
    pub fn to_text(&self) -> (r: String)
        ensures
            r@ == level_text(*self),
    {
        let mut out: Vec<char> = Vec::new();
        match *self {
            Level::Finite { negative, mantissa, scale } => {
                let mut m = mantissa;
                let mut s = scale;
                while s > 0 && m % 10 == 0
                    invariant
                        trimmed(m as nat, s as nat) == trimmed(mantissa as nat, scale as nat),
                    decreases s,
                {
                    m = m / 10;
                    s = s - 1;
                }
                if negative {
                    out.push('-');
                }
                let mut d: Vec<char> = Vec::new();
                push_digits(&mut d, m);
                proof {
                    lemma_digits_of_len(m as nat);
                    assert(d@ =~= digits_of(m as nat));
                }
                let len = d.len();
                if s == 0 {
                    out.append(&mut d);
                } else if s < len as u64 {
                    let cut = len - s as usize;
                    let mut j: usize = 0;
                    let ghost before = out@;
                    while j < len
                        invariant
                            len == d@.len(),
                            0 < cut < len,
                            0 <= j <= len,
                            out@ == if j <= cut {
                                before + d@.take(j as int)
                            } else {
                                before + d@.take(cut as int) + seq!['.'] + d@.subrange(
                                    cut as int,
                                    j as int,
                                )
                            },
                        decreases len - j,
                    {
                        if j == cut {
                            out.push('.');
                        }
                        out.push(d[j]);
                        proof {
                            if j < cut {
                                assert(d@.take(j + 1) =~= d@.take(j as int).push(d@[j as int]));
                            } else {
                                assert(d@.subrange(cut as int, j + 1) =~= d@.subrange(
                                    cut as int,
                                    j as int,
                                ).push(d@[j as int]));
                            }
                        }
                        j = j + 1;
                    }
                    assert(d@.skip(cut as int) =~= d@.subrange(cut as int, len as int));
                    assert(out@ =~= before + (d@.take(cut as int) + seq!['.'] + d@.skip(cut as int)));
                } else {
                    out.push('0');
                    out.push('.');
                    let mut z: u64 = 0;
                    let ghost before = out@;
                    while z < s - len as u64
                        invariant
                            0 <= z <= s - len,
                            out@ == before + zeros(z as nat),
                        decreases s - len - z,
                    {
                        out.push('0');
                        z = z + 1;
                        assert(zeros(z as nat) =~= zeros((z - 1) as nat).push('0'));
                    }
                    out.append(&mut d);
                }
                proof {
                    let t = trimmed(mantissa as nat, scale as nat);
                    assert(t == (m as nat, s as nat));
                    assert(out@ =~= sign_text(negative) + decimal_text(m as nat, s as nat));
                }
            },
            Level::Infinite { negative } => {
                if negative {
                    out.push('-');
                }
                out.push('i');
                out.push('n');
                out.push('f');
                assert(out@ =~= level_text(*self));
            },
            Level::NotANumber => {
                out.push('N');
                out.push('a');
                out.push('N');
                assert(out@ =~= level_text(*self));
            },
        }
        string_of(&out)
    }

    /// `self - other` (see `difference`).
    pub fn minus(&self, other: &Level) -> (r: Option<Level>)
        ensures
            r == difference(*self, *other),
    {
        match (*self, *other) {
            (Level::NotANumber, _) => Some(Level::NotANumber),
            (_, Level::NotANumber) => Some(Level::NotANumber),
            (Level::Infinite { negative: x }, Level::Infinite { negative: y }) => {
                if x == y {
                    Some(Level::NotANumber)
                } else {
                    Some(Level::Infinite { negative: x })
                }
            },
            (Level::Infinite { negative }, Level::Finite { .. }) => Some(
                Level::Infinite { negative },
            ),
            (Level::Finite { .. }, Level::Infinite { negative }) => Some(
                Level::Infinite { negative: !negative },
            ),
            (
                Level::Finite { negative: na, mantissa: ma, scale: sa },
                Level::Finite { negative: nb, mantissa: mb, scale: sb },
            ) => {
                let s = if sa >= sb {
                    sa
                } else {
                    sb
                };
                let x = match scale_up(ma, s - sa) {
                    Some(x) => x,
                    None => {
                        return None;
                    },
                };
                let y = match scale_up(mb, s - sb) {
                    Some(y) => y,
                    None => {
                        return None;
                    },
                };
                if na == nb {
                    if x >= y {
                        Some(Level::Finite { negative: na && x > y, mantissa: x - y, scale: s })
                    } else {
                        Some(Level::Finite { negative: !na, mantissa: y - x, scale: s })
                    }
                } else {
                    if x > u64::MAX - y {
                        return None;
                    }
                    Some(Level::Finite { negative: na && x + y > 0, mantissa: x + y, scale: s })
                }
            },
        }
    }
}

} // verus!
