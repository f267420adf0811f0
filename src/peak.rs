//! Peak and RMS normalisation: a first run measures one statistic of the
//! whole input, a second applies a fixed gain that brings it to the target.

use vstd::prelude::*;
use crate::ffmpeg::{base_args, common_args, FFmpeg};
use crate::ffprobe::AudioStream;
use crate::level::{
    difference, level_of, level_text, lemma_pow10_positive, pow10, scaled_value, signed, trimmed,
    Level,
};
use crate::progress::holds_at;
use crate::report::{skip_spaces, skip_spaces_at};
use crate::text::{chars_of, digits_of, push_text, string_of, views_of};
use crate::ebu_r128::overwrite_args;

verus! {

/// The statistic that a normalisation brings to its target.
#[derive(Clone, Copy, Debug, PartialEq, Eq, Structural)]
pub enum Statistic {
    /// The highest sample level.
    Peak,
    /// The root-mean-square level.
    Rms,
}

/// What a peak or RMS normalisation is asked to do.
pub struct NormalizationArgs {
    pub verbose: bool,
    pub input_file: String,
    pub output_file: String,
    pub overwrite: bool,
    /// The level to bring the statistic to, in dB.
    pub target_level: Level,
    /// Arguments handed on to the processor as they are.
    pub ffmpeg_args: Vec<String>,
}

/// The filter that measures the statistic over the whole input.
pub open spec fn stat_filter(s: Statistic) -> Seq<char> {
    match s {
        Statistic::Peak => "astats=measure_overall=Peak_level:measure_perchannel=0"@,
        Statistic::Rms => "astats=measure_overall=RMS_level:measure_perchannel=0"@,
    }
}

/// The first word of the text before the statistic's value in the
/// filter's diagnostics (`Peak level dB:`, `RMS level dB:`).
pub open spec fn stat_name(s: Statistic) -> Seq<char> {
    match s {
        Statistic::Peak => "Peak"@,
        Statistic::Rms => "RMS"@,
    }
}

fn filter_text(s: Statistic) -> (r: &'static str)
    ensures
        r@ == stat_filter(s),
{
    match s {
        Statistic::Peak => "astats=measure_overall=Peak_level:measure_perchannel=0",
        Statistic::Rms => "astats=measure_overall=RMS_level:measure_perchannel=0",
    }
}

fn name_text(s: Statistic) -> (r: &'static str)
    ensures
        r@ == stat_name(s),
{
    match s {
        Statistic::Peak => "Peak",
        Statistic::Rms => "RMS",
    }
}

/// The arguments of the measuring run.
pub open spec fn pass1_args(a: NormalizationArgs, s: Statistic, info: AudioStream) -> Seq<
    Seq<char>,
> {
    base_args(a.input_file@) + seq!["-filter"@, stat_filter(s)] + common_args(
        info,
        views_of(a.ffmpeg_args@),
    ) + seq!["-f"@, "null"@, "-"@]
}

/// The filter that changes the volume by `adjustment` dB.
pub open spec fn volume_filter(adjustment: Level) -> Seq<char> {
    "volume="@ + level_text(adjustment) + "dB"@
}

/// The arguments of the run that applies the gain.
pub open spec fn pass2_args(a: NormalizationArgs, info: AudioStream, adjustment: Level) -> Seq<
    Seq<char>,
> {
    base_args(a.input_file@) + seq!["-filter"@, volume_filter(adjustment)] + common_args(
        info,
        views_of(a.ffmpeg_args@),
    ) + overwrite_args(a.overwrite) + seq![a.output_file@]
}

/// Where the marker of the statistic `name` that starts at `p` in `line`
/// ends: `name`, `level` and `dB` parted by whitespace, then optional
/// whitespace and `:`. `None` where no such marker starts at `p`.
pub open spec fn marker_end(line: Seq<char>, p: int, name: Seq<char>) -> Option<int> {
    let a = p + name.len();
    let b = skip_spaces(line, a);
    let c = b + "level"@.len();
    let d = skip_spaces(line, c);
    let e = d + "dB"@.len();
    let f = skip_spaces(line, e);
    if holds_at(line, p, name) && b > a && holds_at(line, b, "level"@) && d > c && holds_at(
        line,
        d,
        "dB"@,
    ) && f < line.len() && line[f] == ':' {
        Some(f + 1)
    } else {
        None
    }
}

/// `p` is the last place where a marker of `name` starts in `line`.
pub open spec fn last_marker(line: Seq<char>, name: Seq<char>, p: int) -> bool {
    marker_end(line, p, name) is Some && forall|q: int|
        p < q ==> #[trigger] marker_end(line, q, name) is None
}

/// The text after the last marker of `name` in `line`, leading whitespace
/// skipped; `None` where `line` has no such marker or nothing follows it.
pub open spec fn stat_text(line: Seq<char>, name: Seq<char>) -> Option<Seq<char>> {
    if exists|p: int| last_marker(line, name, p) {
        let p = choose|p: int| last_marker(line, name, p);
        let v = skip_spaces(line, marker_end(line, p, name)->0);
        if v < line.len() {
            Some(line.subrange(v, line.len() as int))
        } else {
            None
        }
    } else {
        None
    }
}

proof fn lemma_last_marker_unique(line: Seq<char>, name: Seq<char>, p: int, q: int)
    requires
        last_marker(line, name, p),
        last_marker(line, name, q),
    ensures
        p == q,
{
    if p < q {
        assert(marker_end(line, q, name) is None);
    } else if q < p {
        assert(marker_end(line, p, name) is None);
    }
}

/// `marker_end` at `p`.
fn marker_end_at(line: &Vec<char>, p: usize, name: &Vec<char>, level: &Vec<char>, db: &Vec<char>) -> (r: Option<usize>)
    requires
        p <= line@.len(),
        level@ == "level"@,
        db@ == "dB"@,
    ensures
        match marker_end(line@, p as int, name@) {
            Some(e) => r == Some(e as usize) && 0 <= e <= line@.len(),
            None => r is None,
        },
{
    let n = line.len();
    if !crate::progress::holds_text_at(line, p, name) {
        return None;
    }
    assert(p + name@.len() <= n);
    let a = p + name.len();
    let b = skip_spaces_at(line, a);
    if !(b > a && crate::progress::holds_text_at(line, b, level)) {
        return None;
    }
    assert(b + level@.len() <= n);
    let c = b + level.len();
    let d = skip_spaces_at(line, c);
    if !(d > c && crate::progress::holds_text_at(line, d, db)) {
        return None;
    }
    assert(d + db@.len() <= n);
    let e = d + db.len();
    let f = skip_spaces_at(line, e);
    if f < line.len() && line[f] == ':' {
        Some(f + 1)
    } else {
        None
    }
}

/// The value text of a statistic line (see `stat_text`).
fn stat_text_of(line: &Vec<char>, name: &Vec<char>) -> (r: Option<Vec<char>>)
    requires
        name@.len() > 0,
    ensures
        match r {
            Some(v) => stat_text(line@, name@) == Some(v@),
            None => stat_text(line@, name@) is None,
        },
{
    let level = chars_of("level");
    let db = chars_of("dB");
    let n = line.len();
    let mut best: Option<(usize, usize)> = None;
    let mut q: usize = 0;
    while q < n
        invariant
            n == line@.len(),
            name@.len() > 0,
            level@ == "level"@,
            db@ == "dB"@,
            0 <= q <= n,
            forall|r: int| r >= n ==> #[trigger] marker_end(line@, r, name@) is None,
            match best {
                Some((b, e)) => b < q && marker_end(line@, b as int, name@) == Some(e as int)
                    && e <= n && forall|r: int| b < r < q ==> #[trigger] marker_end(
                    line@,
                    r,
                    name@,
                ) is None,
                None => forall|r: int| r < q ==> #[trigger] marker_end(line@, r, name@) is None,
            },
        decreases n - q,
    {
        match marker_end_at(line, q, name, &level, &db) {
            Some(e) => {
                best = Some((q, e));
            },
            None => {},
        }
        q = q + 1;
    }
    let (p, e) = match best {
        None => {
            assert(!exists|q: int| last_marker(line@, name@, q));
            return None;
        },
        Some(be) => be,
    };
    proof {
        assert(last_marker(line@, name@, p as int));
        let c = choose|q: int| last_marker(line@, name@, q);
        lemma_last_marker_unique(line@, name@, p as int, c);
    }
    let v = skip_spaces_at(line, e);
    if v >= n {
        return None;
    }
    let mut r: Vec<char> = Vec::new();
    let mut j = v;
    while j < n
        invariant
            n == line@.len(),
            v <= j <= n,
            r@ == line@.subrange(v as int, j as int),
        decreases n - j,
    {
        r.push(line[j]);
        j = j + 1;
        assert(r@ =~= line@.subrange(v as int, j as int));
    }
    Some(r)
}

/// Where the reading of the measuring run's diagnostics stands.
pub struct StatScan {
    /// The value of the last line that gave one.
    pub value: Option<Level>,
    /// The lines that name no statistic, each followed by a line feed.
    pub log: Seq<char>,
    /// One line for each line whose value is no level.
    pub problems: Seq<char>,
}

pub open spec fn stat_line(st: StatScan, name: Seq<char>, line: Seq<char>) -> StatScan {
    match stat_text(line, name) {
        None => StatScan { log: st.log + line + seq!['\n'], ..st },
        Some(t) => match level_of(t) {
            Some(x) => StatScan { value: Some(x), ..st },
            None => StatScan {
                problems: st.problems + "Failed to parse level value: "@ + line + seq!['\n'],
                ..st
            },
        },
    }
}

pub open spec fn stat_lines(name: Seq<char>, lines: Seq<Seq<char>>) -> StatScan
    decreases lines.len(),
{
    if lines.len() == 0 {
        StatScan { value: None, log: Seq::empty(), problems: Seq::empty() }
    } else {
        stat_line(stat_lines(name, lines.drop_last()), name, lines.last())
    }
}

/// Why the measuring run gave no level.
#[derive(Clone, Debug, PartialEq)]
pub enum StatError {
    /// No line named the statistic; `log` holds all lines, each followed by
    /// a line feed.
    NoValue { log: String },
    /// Lines named it, but with no level; `problems` says which.
    InvalidValue { problems: String },
}

pub enum StatFault {
    NoValue { log: Seq<char> },
    InvalidValue { problems: Seq<char> },
}

/// The measured level: that of the last line that names the statistic with
/// a level.
pub open spec fn stat_of(s: Statistic, lines: Seq<Seq<char>>) -> Result<Level, StatFault> {
    let st = stat_lines(stat_name(s), lines);
    match st.value {
        Some(x) => Ok(x),
        None => if st.problems.len() > 0 {
            Err(StatFault::InvalidValue { problems: st.problems })
        } else {
            Err(StatFault::NoValue { log: st.log })
        },
    }
}

pub open spec fn stat_view(r: Result<Level, StatError>) -> Result<Level, StatFault> {
    match r {
        Ok(x) => Ok(x),
        Err(StatError::NoValue { log }) => Err(StatFault::NoValue { log: log@ }),
        Err(StatError::InvalidValue { problems }) => Err(
            StatFault::InvalidValue { problems: problems@ },
        ),
    }
}

/// Reads the measured level in the diagnostics of the measuring run (see
/// `stat_of`).
pub fn result_pass1(lines: &[String], stat: Statistic) -> (r: Result<Level, StatError>)
    ensures
        stat_view(r) == stat_of(stat, views_of(lines@)),
{
    let marker = chars_of(name_text(stat));
    proof {
        reveal_strlit("Peak");
        reveal_strlit("RMS");
    }
    assert(marker@.len() > 0);
    let ghost all = views_of(lines@);
    let mut value: Option<Level> = None;
    let mut log: Vec<char> = Vec::new();
    let mut problems: Vec<char> = Vec::new();
    let mut i: usize = 0;
    assert(all.take(0) =~= Seq::<Seq<char>>::empty());
    while i < lines.len()
        invariant
            0 <= i <= lines@.len(),
            all == views_of(lines@),
            marker@ == stat_name(stat),
            marker@.len() > 0,
            stat_lines(marker@, all.take(i as int)) == (StatScan {
                value,
                log: log@,
                problems: problems@,
            }),
        decreases lines@.len() - i,
    {
        let line = chars_of(lines[i].as_str());
        proof {
            assert(all.take(i + 1).drop_last() =~= all.take(i as int));
            assert(all.take(i + 1).last() == line@);
        }
        let ghost before = StatScan { value, log: log@, problems: problems@ };
        match stat_text_of(&line, &marker) {
            None => {
                let mut l = line.clone();
                log.append(&mut l);
                log.push('\n');
            },
            Some(t) => {
                let text = string_of(t.as_slice());
                match Level::parse(text.as_str()) {
                    Some(x) => {
                        value = Some(x);
                    },
                    None => {
                        push_text(&mut problems, "Failed to parse level value: ");
                        let mut l = line.clone();
                        problems.append(&mut l);
                        problems.push('\n');
                    },
                }
            },
        }
        proof {
            let after = stat_line(before, marker@, line@);
            assert(after.log =~= log@);
            assert(after.problems =~= problems@);
        }
        i = i + 1;
    }
    assert(all.take(lines@.len() as int) =~= all);
    match value {
        Some(x) => Ok(x),
        None => if problems.len() > 0 {
            Err(StatError::InvalidValue { problems: string_of(problems.as_slice()) })
        } else {
            Err(StatError::NoValue { log: string_of(log.as_slice()) })
        },
    }
}

/// The command of the measuring run (see `pass1_args`).
pub fn pass1(args: &NormalizationArgs, stat: Statistic, input_file_info: &AudioStream) -> (r:
    FFmpeg)
    ensures
        r@ == pass1_args(*args, stat, *input_file_info),
{
    let mut ffmpeg = FFmpeg::new(args.input_file.as_str());
    ffmpeg.arg("-filter");
    ffmpeg.arg(filter_text(stat));
    ffmpeg.add_common_args(input_file_info, args.ffmpeg_args.as_slice());
    ffmpeg.arg("-f");
    ffmpeg.arg("null");
    ffmpeg.arg("-");
    assert(ffmpeg@ =~= pass1_args(*args, stat, *input_file_info));
    ffmpeg
}

/// The gain that brings `measured` to `target`: their difference (see
/// `difference`).
pub fn volume_adjustment(target: &Level, measured: &Level) -> (r: Option<Level>)
    ensures
        r == difference(*target, *measured),
{
    target.minus(measured)
}

/// The volume filter (see `volume_filter`).
pub fn volume_filter_text(adjustment: &Level) -> (r: String)
    ensures
        r@ == volume_filter(*adjustment),
{
    let mut out: Vec<char> = Vec::new();
    push_text(&mut out, "volume=");
    let t = adjustment.to_text();
    push_text(&mut out, t.as_str());
    push_text(&mut out, "dB");
    string_of(out.as_slice())
}

/// The command of the run that applies the gain (see `pass2_args`).
pub fn pass2(args: &NormalizationArgs, input_file_info: &AudioStream, adjustment: &Level) -> (r:
    FFmpeg)
    ensures
        r@ == pass2_args(*args, *input_file_info, *adjustment),
{
    let mut ffmpeg = FFmpeg::new(args.input_file.as_str());
    ffmpeg.arg("-filter");
    let filter = volume_filter_text(adjustment);
    ffmpeg.arg(filter.as_str());
    ffmpeg.add_common_args(input_file_info, args.ffmpeg_args.as_slice());
    if args.overwrite {
        ffmpeg.arg("-y");
    }
    ffmpeg.arg(args.output_file.as_str());
    assert(ffmpeg@ =~= pass2_args(*args, *input_file_info, *adjustment));
    ffmpeg
}

/// Two finite levels of the same value, whatever their scales.
pub open spec fn same_value(a: Level, b: Level) -> bool {
    match (a, b) {
        (Level::Finite { scale: sa, .. }, Level::Finite { scale: sb, .. }) => {
            let s: nat = if sa >= sb {
                sa as nat
            } else {
                sb as nat
            };
            scaled_value(a, s) == scaled_value(b, s)
        },
        _ => false,
    }
}

/// The gain asked for is exactly the target less the measured level, at
/// the larger of their two scales: levels within some distance of each
/// other ask for a gain within that distance of zero.
pub proof fn lemma_gain_is_exact(target: Level, measured: Level)
    requires
        target is Finite,
        measured is Finite,
        difference(target, measured) is Some,
    ensures
        ({
            let s: nat = if target->Finite_scale >= measured->Finite_scale {
                target->Finite_scale as nat
            } else {
                measured->Finite_scale as nat
            };
            &&& difference(target, measured)->0 matches Level::Finite { scale, .. } && scale == s
            &&& scaled_value(difference(target, measured)->0, s) == scaled_value(target, s)
                - scaled_value(measured, s)
        }),
{
    match (target, measured) {
        (
            Level::Finite { negative: na, mantissa: ma, scale: sa },
            Level::Finite { negative: nb, mantissa: mb, scale: sb },
        ) => {
            let s: nat = if sa >= sb {
                sa as nat
            } else {
                sb as nat
            };
            let pa = pow10((s - sa) as nat);
            let pb = pow10((s - sb) as nat);
            lemma_signed_scale(na, ma as nat, pa);
            lemma_signed_scale(nb, mb as nat, pb);
            assert(pow10(0) == 1);
            let d = difference(target, measured)->0;
            let dv = signed(na, ma as nat * pa) - signed(nb, mb as nat * pb);
            if let Level::Finite { negative, mantissa, scale } = d {
                assert(scale == s);
                assert(signed(negative, mantissa as nat) == dv);
                assert(scaled_value(d, s) == signed(negative, mantissa as nat) * 1);
            }
        },
        _ => {},
    }
}

proof fn lemma_trimmed_zero(s: nat)
    ensures
        trimmed(0, s) == (0nat, 0nat),
    decreases s,
{
    if s > 0 {
        lemma_trimmed_zero((s - 1) as nat);
    }
}

proof fn lemma_signed_scale(negative: bool, m: nat, p: nat)
    ensures
        signed(negative, m) * p == signed(negative, m * p),
{
    if negative {
        assert((-(m as int)) * p == -((m * p) as int)) by (nonlinear_arith);
    }
}

/// Where the target equals the measured level, the gain asked for is zero:
/// measuring again after a normalisation asks for no further change.
pub proof fn lemma_no_gain_at_target(target: Level, measured: Level)
    requires
        same_value(target, measured),
    ensures
        difference(target, measured) matches Some(Level::Finite { mantissa: 0, negative: false, .. }),
        level_text(difference(target, measured)->0) == seq!['0'],
        volume_filter(difference(target, measured)->0) == "volume="@ + seq!['0'] + "dB"@,
{
    match (target, measured) {
        (
            Level::Finite { negative: na, mantissa: ma, scale: sa },
            Level::Finite { negative: nb, mantissa: mb, scale: sb },
        ) => {
            let s: nat = if sa >= sb {
                sa as nat
            } else {
                sb as nat
            };
            let pa = pow10((s - sa) as nat);
            let pb = pow10((s - sb) as nat);
            lemma_pow10_positive((s - sa) as nat);
            lemma_pow10_positive((s - sb) as nat);
            lemma_signed_scale(na, ma as nat, pa);
            lemma_signed_scale(nb, mb as nat, pb);
            let x = ma as nat * pa;
            let y = mb as nat * pb;
            assert(signed(na, x) == signed(nb, y));
            assert(x == y);
            assert(pow10(0) == 1);
            if sa >= sb {
                assert(pa == 1);
                assert(x == ma) by (nonlinear_arith)
                    requires
                        pa == 1,
                        x == ma as nat * pa,
                ;
            } else {
                assert(pb == 1);
                assert(y == mb) by (nonlinear_arith)
                    requires
                        pb == 1,
                        y == mb as nat * pb,
                ;
            }
            lemma_trimmed_zero(s);
            assert(digits_of(0) == seq!['0']);
        },
        _ => {},
    }
}

} // verus!
