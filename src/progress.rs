//! The processor's progress protocol: lines `key=value` on its standard
//! output, among them `out_time_ms=<microseconds>` and, last,
//! `progress=end`.

use vstd::prelude::*;
use crate::report::{skip_spaces, skip_spaces_at, spells_text};
use crate::text::{
    chars_of, digit_value, digits_value, is_digit, lemma_digits_value_prefix, views_of,
};

verus! {

/// `s` holds the text `t` from index `i` on.
pub open spec fn holds_at(s: Seq<char>, i: int, t: Seq<char>) -> bool {
    0 <= i && i + t.len() <= s.len() && s.subrange(i, i + t.len()) == t
}

/// The first index at or after `i` that holds no digit.
pub open spec fn digits_end(s: Seq<char>, i: int) -> int
    decreases s.len() - i,
{
    if 0 <= i < s.len() && is_digit(s[i]) {
        digits_end(s, i + 1)
    } else {
        i
    }
}

/// The digits of `key = digits...`: optional whitespace, `key`, optional
/// whitespace, `=`, optional whitespace, then at least one digit; whatever
/// follows the digits is passed over.
pub open spec fn value_digits(line: Seq<char>, key: Seq<char>) -> Option<Seq<char>> {
    let k = skip_spaces(line, 0);
    let e = skip_spaces(line, k + key.len());
    let d = skip_spaces(line, e + 1);
    if holds_at(line, k, key) && e < line.len() && line[e] == '=' && digits_end(line, d) > d {
        Some(line.subrange(d, digits_end(line, d)))
    } else {
        None
    }
}

/// What one progress line says.
#[derive(Clone, Copy, Debug, PartialEq, Eq, Structural)]
pub enum ProgressEvent {
    /// The output has reached this many microseconds.
    Elapsed(u64),
    /// The run is over.
    End,
}

/// What a progress line says: the end at `progress=end`, the elapsed
/// microseconds at `out_time_ms=<digits>` where they fit in a `u64`, and
/// nothing at any other line.
pub open spec fn event_of(line: Seq<char>) -> Option<ProgressEvent> {
    if line == "progress=end"@ {
        Some(ProgressEvent::End)
    } else {
        match value_digits(line, "out_time_ms"@) {
            Some(d) => if digits_value(d) <= u64::MAX {
                Some(ProgressEvent::Elapsed(digits_value(d) as u64))
            } else {
                None
            },
            None => None,
        }
    }
}

fn digits_end_at(s: &Vec<char>, i: usize) -> (r: usize)
    requires
        i <= s@.len(),
    ensures
        r == digits_end(s@, i as int),
        i <= r <= s@.len(),
        forall|j: int| i <= j < r ==> is_digit(#[trigger] s@[j]),
{
    let mut j = i;
    while j < s.len() && '0' <= s[j] && s[j] <= '9'
        invariant
            i <= j <= s@.len(),
            digits_end(s@, j as int) == digits_end(s@, i as int),
            forall|k: int| i <= k < j ==> is_digit(#[trigger] s@[k]),
        decreases s@.len() - j,
    {
        j = j + 1;
    }
    j
}

pub fn holds_text_at(s: &Vec<char>, i: usize, tc: &Vec<char>) -> (r: bool)
    requires
        i <= s@.len(),
    ensures
        r == holds_at(s@, i as int, tc@),
        r ==> i + tc@.len() <= s@.len(),
{
    let n = s.len();
    if tc.len() > n - i {
        return false;
    }
    let mut j: usize = 0;
    while j < tc.len()
        invariant
            n == s@.len(),
            i + tc@.len() <= s@.len(),
            0 <= j <= tc@.len(),
            forall|k: int| 0 <= k < j ==> s@[i + k] == tc@[k],
        decreases tc@.len() - j,
    {
        if s[i + j] != tc[j] {
            assert(s@.subrange(i as int, i + tc@.len())[j as int] != tc@[j as int]);
            return false;
        }
        j = j + 1;
    }
    assert(s@.subrange(i as int, i + tc@.len()) =~= tc@);
    true
}

/// Reads the value of a `u64` from the digits `s@[from..to]`; `None` where
/// it does not fit.
fn digits_u64(s: &Vec<char>, from: usize, to: usize) -> (r: Option<u64>)
    requires
        from <= to <= s@.len(),
        forall|j: int| from <= j < to ==> is_digit(#[trigger] s@[j]),
    ensures
        r == (if digits_value(s@.subrange(from as int, to as int)) <= u64::MAX {
            Some(digits_value(s@.subrange(from as int, to as int)) as u64)
        } else {
            None
        }),
{
    let ghost d = s@.subrange(from as int, to as int);
    let mut acc: u64 = 0;
    let mut i = from;
    while i < to
        invariant
            from <= i <= to <= s@.len(),
            d == s@.subrange(from as int, to as int),
            forall|j: int| from <= j < to ==> is_digit(#[trigger] s@[j]),
            acc as nat == digits_value(d.take(i - from)),
        decreases to - i,
    {
        let ch = s[i];
        let ghost k = i - from;
        assert(d.take(k + 1).drop_last() =~= d.take(k));
        assert(d[k] == ch && is_digit(s@[i as int]));
        let v = (ch as u32 - '0' as u32) as u64;
        assert(v as nat == digit_value(ch));
        if acc > (u64::MAX - v) / 10 {
            proof {
                assert(digits_value(d.take(k + 1)) == acc * 10 + v);
                lemma_digits_value_prefix(d, k + 1);
            }
            return None;
        }
        acc = acc * 10 + v;
        i = i + 1;
    }
    assert(d.take(to - from) =~= d);
    Some(acc)
}

/// Reads one progress line (see `event_of`).
pub fn parse_progress_line(line: &str) -> (r: Option<ProgressEvent>)
    ensures
        r == event_of(line@),
{
    let c = chars_of(line);
    if spells_text(c.as_slice(), "progress=end") {
        return Some(ProgressEvent::End);
    }
    let key = chars_of("out_time_ms");
    let k = skip_spaces_at(&c, 0);
    if !holds_text_at(&c, k, &key) {
        return None;
    }
    assert(k + key@.len() <= c@.len());
    let e = skip_spaces_at(&c, k + key.len());
    if !(e < c.len() && c[e] == '=') {
        return None;
    }
    let d = skip_spaces_at(&c, e + 1);
    let de = digits_end_at(&c, d);
    if de == d {
        return None;
    }
    match digits_u64(&c, d, de) {
        Some(us) => Some(ProgressEvent::Elapsed(us)),
        None => None,
    }
}

/// Seconds in a `out_time=HH:MM:SS...` line: optional whitespace,
/// `out_time`, optional whitespace, `=`, optional whitespace, then three
/// pairs of digits parted by `:`; whatever follows is passed over.
pub open spec fn clock_of(line: Seq<char>) -> Option<u64> {
    let k = skip_spaces(line, 0);
    let e = skip_spaces(line, k + "out_time"@.len());
    let d = skip_spaces(line, e + 1);
    if holds_at(line, k, "out_time"@) && e < line.len() && line[e] == '=' && d + 8 <= line.len()
        && is_digit(line[d]) && is_digit(line[d + 1]) && line[d + 2] == ':' && is_digit(
        line[d + 3],
    ) && is_digit(line[d + 4]) && line[d + 5] == ':' && is_digit(line[d + 6]) && is_digit(
        line[d + 7],
    ) {
        Some(
            (two_digits(line[d], line[d + 1]) * 3600 + two_digits(line[d + 3], line[d + 4]) * 60
                + two_digits(line[d + 6], line[d + 7])) as u64,
        )
    } else {
        None
    }
}

pub open spec fn two_digits(a: char, b: char) -> nat {
    digit_value(a) * 10 + digit_value(b)
}

fn digit_at(s: &Vec<char>, i: usize) -> (r: u64)
    requires
        i < s@.len(),
        is_digit(s@[i as int]),
    ensures
        r == digit_value(s@[i as int]),
        r <= 9,
{
    (s[i] as u32 - '0' as u32) as u64
}

fn is_digit_at(s: &Vec<char>, i: usize) -> (r: bool)
    requires
        i < s@.len(),
    ensures
        r == is_digit(s@[i as int]),
{
    '0' <= s[i] && s[i] <= '9'
}

/// The seconds of an `out_time=HH:MM:SS` progress line (see `clock_of`).
pub fn parse_progress(val: &str) -> (r: Option<u64>)
    ensures
        r == clock_of(val@),
{
    let c = chars_of(val);
    let key = chars_of("out_time");
    let k = skip_spaces_at(&c, 0);
    if !holds_text_at(&c, k, &key) {
        return None;
    }
    assert(k + key@.len() <= c@.len());
    let e = skip_spaces_at(&c, k + key.len());
    if !(e < c.len() && c[e] == '=') {
        return None;
    }
    let d = skip_spaces_at(&c, e + 1);
    if c.len() - d < 8 {
        return None;
    }
    if !(is_digit_at(&c, d) && is_digit_at(&c, d + 1) && c[d + 2] == ':' && is_digit_at(&c, d + 3)
        && is_digit_at(&c, d + 4) && c[d + 5] == ':' && is_digit_at(&c, d + 6) && is_digit_at(
        &c,
        d + 7,
    )) {
        return None;
    }
    let hours = digit_at(&c, d) * 10 + digit_at(&c, d + 1);
    let minutes = digit_at(&c, d + 3) * 10 + digit_at(&c, d + 4);
    let seconds = digit_at(&c, d + 6) * 10 + digit_at(&c, d + 7);
    Some(hours * 3600 + minutes * 60 + seconds)
}

/// What the progress indicator is to do after a line.
#[derive(Clone, Copy, Debug, PartialEq, Eq, Structural)]
pub enum ProgressUpdate {
    /// Move to this position.
    Position(u64),
    /// Finish.
    Finish,
}

/// The length of the indicator: the total duration in microseconds where it
/// is known, else ten seconds' worth, shown as a spinner.
pub open spec fn indicator_len(total: Option<u64>) -> u64 {
    match total {
        Some(t) => t,
        None => 10_000_000,
    }
}

/// Where the indicator stands after `us` elapsed microseconds: there, on a
/// bar of known length; on a spinner, `us % 10`.
pub open spec fn position_of(total: Option<u64>, us: u64) -> u64 {
    match total {
        Some(_) => us,
        None => (us % 10) as u64,
    }
}

/// Follows the progress lines of one run.
#[derive(Clone, Copy, Debug, PartialEq, Eq, Structural)]
pub struct ProgressTracker {
    /// The duration of the input in microseconds, where it is known.
    pub total: Option<u64>,
    /// Whether the end of the run has been seen.
    pub finished: bool,
}

/// The update that a line brings to a tracker, and the tracker after it.
pub open spec fn track(t: ProgressTracker, line: Seq<char>) -> (Option<ProgressUpdate>, ProgressTracker) {
    if t.finished {
        (None, t)
    } else {
        match event_of(line) {
            Some(ProgressEvent::End) => (
                Some(ProgressUpdate::Finish),
                ProgressTracker { finished: true, ..t },
            ),
            Some(ProgressEvent::Elapsed(us)) => (
                Some(ProgressUpdate::Position(position_of(t.total, us))),
                t,
            ),
            None => (None, t),
        }
    }
}

/// The updates that the lines `lines` bring, in order, to a tracker `t`.
pub open spec fn track_all(t: ProgressTracker, lines: Seq<Seq<char>>) -> Seq<Option<ProgressUpdate>>
    decreases lines.len(),
{
    if lines.len() == 0 {
        Seq::empty()
    } else {
        seq![track(t, lines[0]).0] + track_all(track(t, lines[0]).1, lines.drop_first())
    }
}

impl ProgressTracker {
    /// A tracker for a run whose input lasts `total` microseconds, where known.
    pub fn new(total: Option<u64>) -> (r: ProgressTracker)
        ensures
            r.total == total,
            !r.finished,
    {
        ProgressTracker { total, finished: false }
    }

    /// The length of the indicator (see `indicator_len`).
    pub fn len(&self) -> (r: u64)
        ensures
            r == indicator_len(self.total),
    {
        match self.total {
            Some(t) => t,
            None => 10_000_000,
        }
    }

    /// Takes one progress line (see `track`).
    pub fn step(&mut self, line: &str) -> (r: Option<ProgressUpdate>)
        ensures
            (r, *final(self)) == track(*old(self), line@),
    {
        if self.finished {
            return None;
        }
        match parse_progress_line(line) {
            Some(ProgressEvent::End) => {
                self.finished = true;
                Some(ProgressUpdate::Finish)
            },
            Some(ProgressEvent::Elapsed(us)) => match self.total {
                Some(_) => Some(ProgressUpdate::Position(us)),
                None => Some(ProgressUpdate::Position(us % 10)),
            },
            None => None,
        }
    }
}

impl ProgressTracker {
    /// Takes the progress lines of a run, in order, and gives the update of
    /// each (see `track_all`). On a tracker that has not finished, the
    /// indicator is finished once, at the first `progress=end` line, and no
    /// line after that one moves it.
    pub fn step_all(&mut self, lines: &[String]) -> (r: Vec<Option<ProgressUpdate>>)
        ensures
            r@ == track_all(*old(self), views_of(lines@)),
            r@.len() == lines@.len(),
            !old(self).finished ==> forall|i: int|
                0 <= i < lines@.len() ==> (#[trigger] r@[i] == Some(ProgressUpdate::Finish) <==> is_end(
                    lines@[i]@,
                ) && forall|j: int| 0 <= j < i ==> !is_end(#[trigger] lines@[j]@)),
            !old(self).finished ==> forall|i: int, j: int|
                0 <= i < j < lines@.len() && #[trigger] r@[i] == Some(ProgressUpdate::Finish)
                    ==> #[trigger] r@[j] is None,
    {
        let ghost all = views_of(lines@);
        let ghost start = *self;
        let mut r: Vec<Option<ProgressUpdate>> = Vec::new();
        let mut i: usize = 0;
        assert(all.skip(0) =~= all);
        while i < lines.len()
            invariant
                0 <= i <= lines@.len(),
                all == views_of(lines@),
                r@ + track_all(*self, all.skip(i as int)) == track_all(start, all),
            decreases lines@.len() - i,
        {
            let ghost before = *self;
            proof {
                assert(all.skip(i as int)[0] == lines@[i as int]@);
                assert(all.skip(i as int).drop_first() =~= all.skip(i + 1));
            }
            let u = self.step(lines[i].as_str());
            r.push(u);
            proof {
                assert(track_all(before, all.skip(i as int)) == seq![u] + track_all(
                    *self,
                    all.skip(i + 1),
                ));
                assert(r@ + track_all(*self, all.skip(i + 1)) =~= r@.drop_last() + track_all(
                    before,
                    all.skip(i as int),
                ));
            }
            i = i + 1;
        }
        proof {
            assert(all.skip(i as int).len() == 0);
            assert(track_all(*self, all.skip(i as int)) =~= Seq::<Option<ProgressUpdate>>::empty());
            assert(r@ =~= track_all(start, all));
            lemma_track_all_len(start, all);
            if !start.finished {
                lemma_finish_once(start, all);
                assert forall|i: int| 0 <= i < lines@.len() implies (#[trigger] r@[i] == Some(
                    ProgressUpdate::Finish,
                ) <==> is_end(lines@[i]@) && forall|j: int|
                    0 <= j < i ==> !is_end(#[trigger] lines@[j]@)) by {
                    assert(all[i] == lines@[i]@);
                    if forall|j: int| 0 <= j < i ==> !is_end(#[trigger] all[j]) {
                        assert forall|j: int| 0 <= j < i implies !is_end(
                            #[trigger] lines@[j]@,
                        ) by {
                            assert(all[j] == lines@[j]@);
                        }
                    }
                    if forall|j: int| 0 <= j < i ==> !is_end(#[trigger] lines@[j]@) {
                        assert forall|j: int| 0 <= j < i implies !is_end(#[trigger] all[j]) by {
                            assert(all[j] == lines@[j]@);
                        }
                    }
                }
            }
        }
        r
    }
}

proof fn lemma_track_all_len(t: ProgressTracker, lines: Seq<Seq<char>>)
    ensures
        track_all(t, lines).len() == lines.len(),
    decreases lines.len(),
{
    if lines.len() > 0 {
        lemma_track_all_len(track(t, lines[0]).1, lines.drop_first());
    }
}

/// A line that ends the run.
pub open spec fn is_end(line: Seq<char>) -> bool {
    line == "progress=end"@
}

/// Over any run, the indicator is finished at most once, at the first
/// `progress=end` line, and moved by no line after that one.
pub proof fn lemma_finish_once(t: ProgressTracker, lines: Seq<Seq<char>>)
    requires
        !t.finished,
    ensures
        track_all(t, lines).len() == lines.len(),
        forall|i: int|
            0 <= i < lines.len() ==> (#[trigger] track_all(t, lines)[i] == Some(
                ProgressUpdate::Finish,
            ) <==> is_end(lines[i]) && forall|j: int| 0 <= j < i ==> !is_end(#[trigger] lines[j])),
        forall|i: int, j: int|
            0 <= i < j < lines.len() && #[trigger] track_all(t, lines)[i] == Some(
                ProgressUpdate::Finish,
            ) ==> #[trigger] track_all(t, lines)[j] is None,
    decreases lines.len(),
{
    if lines.len() > 0 {
        let (u, t2) = track(t, lines[0]);
        let rest = lines.drop_first();
        let all = track_all(t, lines);
        assert(all == seq![u] + track_all(t2, rest));
        if is_end(lines[0]) {
            assert(u == Some(ProgressUpdate::Finish) && t2.finished);
            lemma_finished_quiet(t2, rest);
            assert forall|i: int| 0 <= i < lines.len() implies (#[trigger] all[i] == Some(
                ProgressUpdate::Finish,
            ) <==> is_end(lines[i]) && forall|j: int| 0 <= j < i ==> !is_end(#[trigger] lines[j])) by {
                if i > 0 {
                    assert(all[i] == track_all(t2, rest)[i - 1]);
                    assert(!(forall|j: int| 0 <= j < i ==> !is_end(#[trigger] lines[j]))) by {
                        assert(is_end(lines[0]));
                    }
                }
            }
            assert forall|i: int, j: int|
                0 <= i < j < lines.len() && #[trigger] all[i] == Some(ProgressUpdate::Finish)
                    implies #[trigger] all[j] is None by {
                assert(all[j] == track_all(t2, rest)[j - 1]);
                if i > 0 {
                    assert(all[i] == track_all(t2, rest)[i - 1]);
                }
            }
        } else {
            assert(u != Some(ProgressUpdate::Finish));
            assert(t2 == t);
            lemma_finish_once(t2, rest);
            assert forall|i: int| 0 <= i < lines.len() implies (#[trigger] all[i] == Some(
                ProgressUpdate::Finish,
            ) <==> is_end(lines[i]) && forall|j: int| 0 <= j < i ==> !is_end(#[trigger] lines[j])) by {
                if i > 0 {
                    assert(all[i] == track_all(t2, rest)[i - 1]);
                    assert(lines[i] == rest[i - 1]);
                    if forall|j: int| 0 <= j < i - 1 ==> !is_end(#[trigger] rest[j]) {
                        assert forall|j: int| 0 <= j < i implies !is_end(#[trigger] lines[j]) by {
                            if j > 0 {
                                assert(lines[j] == rest[j - 1]);
                            }
                        }
                    }
                    if forall|j: int| 0 <= j < i ==> !is_end(#[trigger] lines[j]) {
                        assert forall|j: int| 0 <= j < i - 1 implies !is_end(#[trigger] rest[j]) by {
                            assert(lines[j + 1] == rest[j]);
                        }
                    }
                }
            }
            assert forall|i: int, j: int|
                0 <= i < j < lines.len() && #[trigger] all[i] == Some(ProgressUpdate::Finish)
                    implies #[trigger] all[j] is None by {
                assert(i > 0);
                assert(all[i] == track_all(t2, rest)[i - 1]);
                assert(all[j] == track_all(t2, rest)[j - 1]);
            }
        }
    }
}

/// A finished tracker takes no more line into account.
pub proof fn lemma_finished_quiet(t: ProgressTracker, lines: Seq<Seq<char>>)
    requires
        t.finished,
    ensures
        track_all(t, lines).len() == lines.len(),
        forall|i: int| 0 <= i < lines.len() ==> #[trigger] track_all(t, lines)[i] is None,
    decreases lines.len(),
{
    if lines.len() > 0 {
        lemma_finished_quiet(t, lines.drop_first());
        assert forall|i: int| 0 <= i < lines.len() implies #[trigger] track_all(t, lines)[i] is None by {
            if i > 0 {
                assert(track_all(t, lines)[i] == track_all(t, lines.drop_first())[i - 1]);
            }
        }
    }
}

} // verus!
