//! The loudness report: the block of `"key": "value"` lines that the
//! loudness filter writes between a line `{` and a line `}` among the
//! processor's diagnostics.

use vstd::prelude::*;
use crate::level::{level_of, Level};
use crate::text::{char_is_space, chars_of, is_space, slice_chars};

verus! {

/// The measurements of a report, each present where the report gave it.
#[derive(Clone, Debug, PartialEq)]
pub struct EbuLoudnessValues {
    pub input_i: Option<Level>,
    pub input_lra: Option<Level>,
    pub input_tp: Option<Level>,
    pub input_thresh: Option<Level>,
    pub output_i: Option<Level>,
    pub output_lra: Option<Level>,
    pub output_tp: Option<Level>,
    pub output_thresh: Option<Level>,
    pub normalization_type: Option<String>,
    pub target_offset: Option<Level>,
}

/// What a report holds, as values.
pub ghost struct Measurements {
    pub input_i: Option<Level>,
    pub input_lra: Option<Level>,
    pub input_tp: Option<Level>,
    pub input_thresh: Option<Level>,
    pub output_i: Option<Level>,
    pub output_lra: Option<Level>,
    pub output_tp: Option<Level>,
    pub output_thresh: Option<Level>,
    pub normalization_type: Option<Seq<char>>,
    pub target_offset: Option<Level>,
}

pub open spec fn text_view(t: Option<String>) -> Option<Seq<char>> {
    match t {
        Some(s) => Some(s@),
        None => None,
    }
}

impl View for EbuLoudnessValues {
    type V = Measurements;

    open spec fn view(&self) -> Measurements {
        Measurements {
            input_i: self.input_i,
            input_lra: self.input_lra,
            input_tp: self.input_tp,
            input_thresh: self.input_thresh,
            output_i: self.output_i,
            output_lra: self.output_lra,
            output_tp: self.output_tp,
            output_thresh: self.output_thresh,
            normalization_type: text_view(self.normalization_type),
            target_offset: self.target_offset,
        }
    }
}

pub open spec fn no_measurements() -> Measurements {
    Measurements {
        input_i: None,
        input_lra: None,
        input_tp: None,
        input_thresh: None,
        output_i: None,
        output_lra: None,
        output_tp: None,
        output_thresh: None,
        normalization_type: None,
        target_offset: None,
    }
}

impl EbuLoudnessValues {
    /// A report with no measurement in it.
    pub fn empty() -> (r: EbuLoudnessValues)
        ensures
            r@ == no_measurements(),
    {
        EbuLoudnessValues {
            input_i: None,
            input_lra: None,
            input_tp: None,
            input_thresh: None,
            output_i: None,
            output_lra: None,
            output_tp: None,
            output_thresh: None,
            normalization_type: None,
            target_offset: None,
        }
    }
}

/// `m` with the numeric measurement named `key` set to `x`; `None` where no
/// numeric measurement has that name.
pub open spec fn with_level(m: Measurements, key: Seq<char>, x: Level) -> Option<Measurements> {
    if key == "input_i"@ {
        Some(Measurements { input_i: Some(x), ..m })
    } else if key == "input_tp"@ {
        Some(Measurements { input_tp: Some(x), ..m })
    } else if key == "input_lra"@ {
        Some(Measurements { input_lra: Some(x), ..m })
    } else if key == "input_thresh"@ {
        Some(Measurements { input_thresh: Some(x), ..m })
    } else if key == "output_i"@ {
        Some(Measurements { output_i: Some(x), ..m })
    } else if key == "output_tp"@ {
        Some(Measurements { output_tp: Some(x), ..m })
    } else if key == "output_lra"@ {
        Some(Measurements { output_lra: Some(x), ..m })
    } else if key == "output_thresh"@ {
        Some(Measurements { output_thresh: Some(x), ..m })
    } else if key == "target_offset"@ {
        Some(Measurements { target_offset: Some(x), ..m })
    } else {
        None
    }
}

/// The first index at or after `i` that does not hold whitespace.
pub open spec fn skip_spaces(s: Seq<char>, i: int) -> int
    decreases s.len() - i,
{
    if 0 <= i < s.len() && is_space(s[i]) {
        skip_spaces(s, i + 1)
    } else {
        i
    }
}

/// The first index at or after `i` that holds whitespace or `"`.
pub open spec fn token_end(s: Seq<char>, i: int) -> int
    decreases s.len() - i,
{
    if 0 <= i < s.len() && !is_space(s[i]) && s[i] != '"' {
        token_end(s, i + 1)
    } else {
        i
    }
}

/// The quoted token that starts at `i` (with its opening `"`): where it ends,
/// after the closing `"`; `None` where `i` holds no `"`, the token is empty
/// or holds whitespace, or no `"` closes it.
pub open spec fn quoted_end(s: Seq<char>, i: int) -> Option<int> {
    let e = token_end(s, i + 1);
    if 0 <= i < s.len() && s[i] == '"' && e > i + 1 && e < s.len() && s[e] == '"' {
        Some(e + 1)
    } else {
        None
    }
}

/// The key and the value of a line `"key": "value"`, with an optional comma
/// after the value and optional whitespace around each part. Neither key nor
/// value may be empty or hold whitespace or `"`.
pub open spec fn key_value_of(line: Seq<char>) -> Option<(Seq<char>, Seq<char>)> {
    let k = skip_spaces(line, 0);
    match quoted_end(line, k) {
        None => None,
        Some(ke) => {
            let c = skip_spaces(line, ke);
            let v = skip_spaces(line, c + 1);
            if !(c < line.len() && line[c] == ':') {
                None
            } else {
                match quoted_end(line, v) {
                    None => None,
                    Some(ve) => {
                        let t = if ve < line.len() && line[ve] == ',' {
                            ve + 1
                        } else {
                            ve
                        };
                        if skip_spaces(line, t) == line.len() {
                            Some((line.subrange(k + 1, ke - 1), line.subrange(v + 1, ve - 1)))
                        } else {
                            None
                        }
                    },
                }
            }
        },
    }
}

/// Where the reading of a diagnostic stream stands after some of its lines.
pub ghost struct ReportScan {
    /// Inside a block: after a line `{`, before the line `}` that ends it.
    pub in_block: bool,
    /// The lines outside any block, each followed by a line feed.
    pub log: Seq<char>,
    /// One line of explanation for each line of a block that was not taken.
    pub problems: Seq<char>,
    /// The number of lines of a block that were taken.
    pub count: nat,
    pub values: Measurements,
}

pub open spec fn scan_start() -> ReportScan {
    ReportScan {
        in_block: false,
        log: Seq::empty(),
        problems: Seq::empty(),
        count: 0,
        values: no_measurements(),
    }
}

pub open spec fn with_problem(st: ReportScan, what: Seq<char>, line: Seq<char>) -> ReportScan {
    ReportScan { problems: st.problems + what + line + seq!['\n'], ..st }
}

/// The reading of one more line.
pub open spec fn scan_line(st: ReportScan, line: Seq<char>) -> ReportScan {
    if line == seq!['{'] {
        ReportScan { in_block: true, ..st }
    } else if line == seq!['}'] && st.in_block {
        ReportScan { in_block: false, ..st }
    } else if !st.in_block {
        ReportScan { log: st.log + line + seq!['\n'], ..st }
    } else {
        match key_value_of(line) {
            None => with_problem(st, "Failed to parse loudness value: "@, line),
            Some((key, value)) => {
                if key == "normalization_type"@ {
                    ReportScan {
                        count: st.count + 1,
                        values: Measurements { normalization_type: Some(value), ..st.values },
                        ..st
                    }
                } else {
                    match level_of(value) {
                        None => with_problem(st, "Invalid loudness value: "@, line),
                        Some(x) => match with_level(st.values, key, x) {
                            None => with_problem(st, "Unknown loudness value: "@, line),
                            Some(values) => ReportScan { count: st.count + 1, values, ..st },
                        },
                    }
                }
            },
        }
    }
}

/// The reading of `lines`, in order.
pub open spec fn scan_lines(lines: Seq<Seq<char>>) -> ReportScan
    decreases lines.len(),
{
    if lines.len() == 0 {
        scan_start()
    } else {
        scan_line(scan_lines(lines.drop_last()), lines.last())
    }
}

/// The reading of `lines`, in order, from `st` on.
pub open spec fn scan_more(st: ReportScan, lines: Seq<Seq<char>>) -> ReportScan
    decreases lines.len(),
{
    if lines.len() == 0 {
        st
    } else {
        scan_line(scan_more(st, lines.drop_last()), lines.last())
    }
}

/// The names of the numeric measurements.
pub open spec fn is_level_key(k: Seq<char>) -> bool {
    k == "input_i"@ || k == "input_tp"@ || k == "input_lra"@ || k == "input_thresh"@ || k
        == "output_i"@ || k == "output_tp"@ || k == "output_lra"@ || k == "output_thresh"@ || k
        == "target_offset"@
}

/// A line of a block that the reading takes: a key and a value, the key
/// `normalization_type` or the name of a numeric measurement whose value
/// is a level.
pub open spec fn is_measurement_line(line: Seq<char>) -> bool {
    match key_value_of(line) {
        Some((k, v)) => k == "normalization_type"@ || (is_level_key(k) && level_of(v) is Some),
        None => false,
    }
}

/// The measurements `m` with the one of a taken line set.
pub open spec fn with_line(m: Measurements, line: Seq<char>) -> Measurements {
    match key_value_of(line) {
        Some((k, v)) => if k == "normalization_type"@ {
            Measurements { normalization_type: Some(v), ..m }
        } else {
            match level_of(v) {
                Some(x) => match with_level(m, k, x) {
                    Some(n) => n,
                    None => m,
                },
                None => m,
            }
        },
        None => m,
    }
}

/// The measurements that the lines of a block set, in order.
pub open spec fn block_values(block: Seq<Seq<char>>) -> Measurements
    decreases block.len(),
{
    if block.len() == 0 {
        no_measurements()
    } else {
        with_line(block_values(block.drop_last()), block.last())
    }
}

/// The lines `lines`, each followed by a line feed.
pub open spec fn text_lines(lines: Seq<Seq<char>>) -> Seq<char>
    decreases lines.len(),
{
    if lines.len() == 0 {
        Seq::empty()
    } else {
        text_lines(lines.drop_last()) + lines.last() + seq!['\n']
    }
}

pub open spec fn open_line() -> Seq<char> {
    seq!['{']
}

pub open spec fn close_line() -> Seq<char> {
    seq!['}']
}

/// `lines` holds no line that opens a block.
pub open spec fn no_block(lines: Seq<Seq<char>>) -> bool {
    forall|i: int| 0 <= i < lines.len() ==> #[trigger] lines[i] != open_line()
}

proof fn lemma_scan_concat(a: Seq<Seq<char>>, b: Seq<Seq<char>>)
    ensures
        scan_lines(a + b) == scan_more(scan_lines(a), b),
    decreases b.len(),
{
    if b.len() == 0 {
        assert(a + b =~= a);
    } else {
        lemma_scan_concat(a, b.drop_last());
        assert((a + b).drop_last() =~= a + b.drop_last());
        assert((a + b).last() == b.last());
    }
}

/// Outside blocks, lines other than `{` only add to the log.
proof fn lemma_scan_noise(st: ReportScan, lines: Seq<Seq<char>>)
    requires
        !st.in_block,
        no_block(lines),
    ensures
        !scan_more(st, lines).in_block,
        scan_more(st, lines).count == st.count,
        scan_more(st, lines).problems == st.problems,
        scan_more(st, lines).values == st.values,
        scan_more(st, lines).log == st.log + text_lines(lines),
    decreases lines.len(),
{
    if lines.len() > 0 {
        assert(no_block(lines.drop_last())) by {
            assert(forall|i: int| 0 <= i < lines.len() - 1 ==> lines.drop_last()[i] == lines[i]);
        }
        lemma_scan_noise(st, lines.drop_last());
        assert(lines.last() == lines[lines.len() - 1]);
        assert(text_lines(lines) == text_lines(lines.drop_last()) + lines.last() + seq!['\n']);
        assert(st.log + text_lines(lines) =~= st.log + text_lines(lines.drop_last())
            + lines.last() + seq!['\n']);
    }
}

proof fn lemma_measurement_line_not_delimiter(line: Seq<char>)
    requires
        is_measurement_line(line),
    ensures
        line != open_line(),
        line != close_line(),
{
    if line == open_line() || line == close_line() {
        assert(skip_spaces(line, 0) == 0);
        assert(quoted_end(line, 0) is None);
    }
}

/// Inside a block, taken lines add to the count and set their measurement.
proof fn lemma_scan_block(st: ReportScan, block: Seq<Seq<char>>)
    requires
        st.in_block,
        forall|i: int| 0 <= i < block.len() ==> is_measurement_line(#[trigger] block[i]),
    ensures
        scan_more(st, block).in_block,
        scan_more(st, block).count == st.count + block.len(),
        scan_more(st, block).problems == st.problems,
        st.values == no_measurements() ==> scan_more(st, block).values == block_values(block),
    decreases block.len(),
{
    if block.len() > 0 {
        let line = block.last();
        assert(line == block[block.len() - 1]);
        assert(forall|i: int|
            0 <= i < block.len() - 1 ==> #[trigger] block.drop_last()[i] == block[i]);
        lemma_scan_block(st, block.drop_last());
        lemma_measurement_line_not_delimiter(line);
    }
}

/// A stream whose only block is made of taken lines: the count is the
/// number of those lines, and the report holds what they set, where there
/// are 5 or 10 of them; with any other number but zero, the report is
/// incomplete and names that number.
pub proof fn lemma_single_block(
    before: Seq<Seq<char>>,
    block: Seq<Seq<char>>,
    after: Seq<Seq<char>>,
)
    requires
        no_block(before),
        no_block(after),
        forall|i: int| 0 <= i < block.len() ==> is_measurement_line(#[trigger] block[i]),
    ensures
        ({
            let lines = before + seq![open_line()] + block + seq![close_line()] + after;
            &&& (block.len() == 5 || block.len() == 10) ==> report_of(lines) == Ok::<
                Measurements,
                ReportFault,
            >(block_values(block))
            &&& (block.len() > 0 && block.len() != 5 && block.len() != 10) ==> report_of(lines)
                == Err::<Measurements, ReportFault>(
                ReportFault::IncompleteMeasurements {
                    count: block.len(),
                    values: block_values(block),
                },
            )
        }),
{
    let lines = before + seq![open_line()] + block + seq![close_line()] + after;
    let s0 = scan_lines(before);
    assert(scan_lines(before) == scan_more(scan_start(), before)) by {
        lemma_scan_concat(Seq::empty(), before);
        assert(Seq::<Seq<char>>::empty() + before =~= before);
    }
    lemma_scan_noise(scan_start(), before);
    let s1 = scan_line(s0, open_line());
    assert(s1.in_block && s1.count == 0 && s1.problems.len() == 0 && s1.values == no_measurements());
    lemma_scan_block(s1, block);
    let s2 = scan_more(s1, block);
    let s3 = scan_line(s2, close_line());
    assert(!s3.in_block);
    lemma_scan_noise(s3, after);
    lemma_scan_concat(before, seq![open_line()]);
    lemma_scan_concat(before + seq![open_line()], block);
    lemma_scan_concat(before + seq![open_line()] + block, seq![close_line()]);
    lemma_scan_concat(before + seq![open_line()] + block + seq![close_line()], after);
    assert(scan_more(s0, seq![open_line()]) == s1) by {
        assert(seq![open_line()].drop_last() =~= Seq::<Seq<char>>::empty());
        assert(scan_more(s0, Seq::<Seq<char>>::empty()) == s0);
        assert(seq![open_line()].last() == open_line());
    }
    assert(scan_more(s2, seq![close_line()]) == s3) by {
        assert(seq![close_line()].drop_last() =~= Seq::<Seq<char>>::empty());
        assert(scan_more(s2, Seq::<Seq<char>>::empty()) == s2);
        assert(seq![close_line()].last() == close_line());
    }
}

/// The numeric measurement named `k` in `m`.
pub open spec fn level_field(m: Measurements, k: Seq<char>) -> Option<Level> {
    if k == "input_i"@ {
        m.input_i
    } else if k == "input_tp"@ {
        m.input_tp
    } else if k == "input_lra"@ {
        m.input_lra
    } else if k == "input_thresh"@ {
        m.input_thresh
    } else if k == "output_i"@ {
        m.output_i
    } else if k == "output_tp"@ {
        m.output_tp
    } else if k == "output_lra"@ {
        m.output_lra
    } else if k == "output_thresh"@ {
        m.output_thresh
    } else if k == "target_offset"@ {
        m.target_offset
    } else {
        None
    }
}

pub open spec fn line_key(line: Seq<char>) -> Seq<char> {
    match key_value_of(line) {
        Some((k, _)) => k,
        None => Seq::empty(),
    }
}

pub open spec fn line_value(line: Seq<char>) -> Seq<char> {
    match key_value_of(line) {
        Some((_, v)) => v,
        None => Seq::empty(),
    }
}

proof fn lemma_with_level_field(m: Measurements, k: Seq<char>, x: Level, k2: Seq<char>)
    requires
        is_level_key(k),
        is_level_key(k2),
    ensures
        with_level(m, k, x) is Some,
        level_field(with_level(m, k, x)->0, k2) == if k == k2 {
            Some(x)
        } else {
            level_field(m, k2)
        },
{
    reveal_strlit("input_i");
    reveal_strlit("input_tp");
    reveal_strlit("input_lra");
    reveal_strlit("input_thresh");
    reveal_strlit("output_i");
    reveal_strlit("output_tp");
    reveal_strlit("output_lra");
    reveal_strlit("output_thresh");
    reveal_strlit("target_offset");
}

proof fn lemma_type_key_not_level()
    ensures
        !is_level_key("normalization_type"@),
{
    reveal_strlit("normalization_type");
    reveal_strlit("input_i");
    reveal_strlit("input_tp");
    reveal_strlit("input_lra");
    reveal_strlit("input_thresh");
    reveal_strlit("output_i");
    reveal_strlit("output_tp");
    reveal_strlit("output_lra");
    reveal_strlit("output_thresh");
    reveal_strlit("target_offset");
    assert("normalization_type"@.len() == 18);
    assert("input_thresh"@.len() == 12);
    assert("output_thresh"@.len() == 13);
    assert("target_offset"@.len() == 13);
}

/// In a block of taken lines whose keys differ, each numeric measurement
/// holds the value of its own line.
pub proof fn lemma_block_fields(block: Seq<Seq<char>>)
    requires
        forall|i: int| 0 <= i < block.len() ==> is_measurement_line(#[trigger] block[i]),
        forall|i: int, j: int|
            0 <= i < j < block.len() ==> line_key(#[trigger] block[i]) != line_key(
                #[trigger] block[j],
            ),
    ensures
        forall|i: int|
            0 <= i < block.len() && is_level_key(line_key(#[trigger] block[i])) ==> level_field(
                block_values(block),
                line_key(block[i]),
            ) == level_of(line_value(block[i])),
        forall|i: int|
            0 <= i < block.len() && line_key(#[trigger] block[i]) == "normalization_type"@
                ==> block_values(block).normalization_type == Some(line_value(block[i])),
    decreases block.len(),
{
    if block.len() > 0 {
        let rest = block.drop_last();
        let last = block.last();
        assert(last == block[block.len() - 1]);
        assert(forall|i: int| 0 <= i < rest.len() ==> #[trigger] rest[i] == block[i]);
        lemma_block_fields(rest);
        let m = block_values(rest);
        let (k, v) = key_value_of(last)->0;
        assert forall|i: int|
            0 <= i < block.len() && is_level_key(line_key(#[trigger] block[i])) implies level_field(
            block_values(block),
            line_key(block[i]),
        ) == level_of(line_value(block[i])) by {
            let ki = line_key(block[i]);
            if k == "normalization_type"@ {
                if i < block.len() - 1 {
                    assert(rest[i] == block[i]);
                } else {
                    lemma_type_key_not_level();
                }
            } else {
                let x = level_of(v)->0;
                lemma_with_level_field(m, k, x, ki);
                if i < block.len() - 1 {
                    assert(rest[i] == block[i]);
                    assert(ki != k);
                }
            }
        }
        assert forall|i: int|
            0 <= i < block.len() && line_key(#[trigger] block[i]) == "normalization_type"@
                implies block_values(block).normalization_type == Some(line_value(block[i])) by {
            if i < block.len() - 1 {
                assert(rest[i] == block[i]);
                if k != "normalization_type"@ {
                    let x = level_of(v)->0;
                    lemma_with_level_field(m, k, x, k);
                }
            }
        }
    }
}

/// Some line of `block` has the key `k`.
pub open spec fn has_key(block: Seq<Seq<char>>, k: Seq<char>) -> bool {
    exists|i: int| 0 <= i < block.len() && line_key(#[trigger] block[i]) == k
}

/// In a block of taken lines, a measurement that no line names stays absent.
pub proof fn lemma_block_absent(block: Seq<Seq<char>>)
    requires
        forall|i: int| 0 <= i < block.len() ==> is_measurement_line(#[trigger] block[i]),
    ensures
        forall|k: Seq<char>|
            is_level_key(k) && !has_key(block, k) ==> #[trigger] level_field(block_values(block), k)
                is None,
        !has_key(block, "normalization_type"@) ==> block_values(block).normalization_type is None,
    decreases block.len(),
{
    if block.len() > 0 {
        let rest = block.drop_last();
        let last = block.last();
        assert(last == block[block.len() - 1]);
        assert(forall|i: int| 0 <= i < rest.len() ==> #[trigger] rest[i] == block[i]);
        lemma_block_absent(rest);
        let m = block_values(rest);
        let (kl, v) = key_value_of(last)->0;
        assert(line_key(block[block.len() - 1]) == kl);
        assert forall|k: Seq<char>|
            is_level_key(k) && !has_key(block, k) implies #[trigger] level_field(
            block_values(block),
            k,
        ) is None by {
            assert(!has_key(rest, k)) by {
                if has_key(rest, k) {
                    let i = choose|i: int| 0 <= i < rest.len() && line_key(#[trigger] rest[i]) == k;
                    assert(line_key(block[i]) == k);
                }
            }
            assert(kl != k);
            assert(block_values(block) == with_line(m, last));
            assert(level_field(m, k) is None);
            if kl != "normalization_type"@ {
                lemma_with_level_field(m, kl, level_of(v)->0, k);
            } else {
                assert(block_values(block) == Measurements { normalization_type: Some(v), ..m });
            }
        }
        if !has_key(block, "normalization_type"@) {
            assert(!has_key(rest, "normalization_type"@)) by {
                if has_key(rest, "normalization_type"@) {
                    let i = choose|i: int|
                        0 <= i < rest.len() && line_key(#[trigger] rest[i]) == "normalization_type"@;
                    assert(line_key(block[i]) == "normalization_type"@);
                }
            }
            assert(kl != "normalization_type"@);
            lemma_with_level_field(m, kl, level_of(v)->0, kl);
        }
    }
}

/// A stream whose only block holds five or ten taken lines with differing
/// keys: the report is read, each measurement in it is the value of its
/// line, and the measurements that no line names are absent.
pub proof fn lemma_report_fields(
    before: Seq<Seq<char>>,
    block: Seq<Seq<char>>,
    after: Seq<Seq<char>>,
)
    requires
        no_block(before),
        no_block(after),
        block.len() == 5 || block.len() == 10,
        forall|i: int| 0 <= i < block.len() ==> is_measurement_line(#[trigger] block[i]),
        forall|i: int, j: int|
            0 <= i < j < block.len() ==> line_key(#[trigger] block[i]) != line_key(
                #[trigger] block[j],
            ),
    ensures
        ({
            let lines = before + seq![open_line()] + block + seq![close_line()] + after;
            &&& report_of(lines) is Ok
            &&& forall|i: int|
                0 <= i < block.len() && is_level_key(line_key(#[trigger] block[i]))
                    ==> level_field(report_of(lines)->Ok_0, line_key(block[i])) == level_of(
                    line_value(block[i]),
                )
            &&& forall|i: int|
                0 <= i < block.len() && line_key(#[trigger] block[i]) == "normalization_type"@
                    ==> report_of(lines)->Ok_0.normalization_type == Some(line_value(block[i]))
            &&& forall|k: Seq<char>|
                is_level_key(k) && !has_key(block, k) ==> #[trigger] level_field(
                    report_of(lines)->Ok_0,
                    k,
                ) is None
            &&& !has_key(block, "normalization_type"@) ==> report_of(
                lines,
            )->Ok_0.normalization_type is None
        }),
{
    lemma_single_block(before, block, after);
    lemma_block_fields(block);
    lemma_block_absent(block);
}

/// A stream with no block at all: no measurement, and the error carries
/// the stream's lines as they were, each followed by a line feed.
pub proof fn lemma_no_block_keeps_log(lines: Seq<Seq<char>>)
    requires
        no_block(lines),
    ensures
        report_of(lines) == Err::<Measurements, ReportFault>(
            ReportFault::NoMeasurements { log: text_lines(lines) },
        ),
{
    lemma_scan_concat(Seq::empty(), lines);
    assert(Seq::<Seq<char>>::empty() + lines =~= lines);
    lemma_scan_noise(scan_start(), lines);
    assert(Seq::<char>::empty() + text_lines(lines) =~= text_lines(lines));
}

/// Why a report was refused.
#[derive(Clone, Debug, PartialEq)]
pub enum ReportError {
    /// No line of a block was taken; `log` holds the lines outside blocks,
    /// each followed by a line feed.
    NoMeasurements { log: String },
    /// The number of lines taken was neither 5 nor 10.
    IncompleteMeasurements { count: usize, values: EbuLoudnessValues },
    /// Some line of a block was not taken; `problems` says which and why.
    MalformedMeasurement { problems: String },
}

pub ghost enum ReportFault {
    NoMeasurements { log: Seq<char> },
    IncompleteMeasurements { count: nat, values: Measurements },
    MalformedMeasurement { problems: Seq<char> },
}

impl View for ReportError {
    type V = ReportFault;

    open spec fn view(&self) -> ReportFault {
        match self {
            ReportError::NoMeasurements { log } => ReportFault::NoMeasurements { log: log@ },
            ReportError::IncompleteMeasurements { count, values } => {
                ReportFault::IncompleteMeasurements { count: *count as nat, values: values@ }
            },
            ReportError::MalformedMeasurement { problems } => ReportFault::MalformedMeasurement {
                problems: problems@,
            },
        }
    }
}

pub open spec fn line_views(lines: Seq<String>) -> Seq<Seq<char>> {
    lines.map_values(|l: String| l@)
}

/// The outcome of reading the diagnostic lines `lines`: the measurements
/// where 5 or 10 lines of blocks were taken and none was refused.
pub open spec fn report_of(lines: Seq<Seq<char>>) -> Result<Measurements, ReportFault> {
    let st = scan_lines(lines);
    if st.count == 0 {
        Err(ReportFault::NoMeasurements { log: st.log })
    } else if st.count != 5 && st.count != 10 {
        Err(ReportFault::IncompleteMeasurements { count: st.count, values: st.values })
    } else if st.problems.len() > 0 {
        Err(ReportFault::MalformedMeasurement { problems: st.problems })
    } else {
        Ok(st.values)
    }
}

pub open spec fn result_view(r: Result<EbuLoudnessValues, ReportError>) -> Result<
    Measurements,
    ReportFault,
> {
    match r {
        Ok(v) => Ok(v@),
        Err(e) => Err(e@),
    }
}

/// `skip_spaces` on the characters of a line.
pub fn skip_spaces_at(s: &Vec<char>, i: usize) -> (r: usize)
    requires
        i <= s@.len(),
    ensures
        r == skip_spaces(s@, i as int),
        i <= r <= s@.len(),
{
    let mut j = i;
    while j < s.len() && char_is_space(s[j])
        invariant
            i <= j <= s@.len(),
            skip_spaces(s@, j as int) == skip_spaces(s@, i as int),
        decreases s@.len() - j,
    {
        j = j + 1;
    }
    j
}

fn token_end_at(s: &Vec<char>, i: usize) -> (r: usize)
    requires
        i <= s@.len(),
    ensures
        r == token_end(s@, i as int),
        i <= r <= s@.len(),
{
    let mut j = i;
    while j < s.len() && !char_is_space(s[j]) && s[j] != '"'
        invariant
            i <= j <= s@.len(),
            token_end(s@, j as int) == token_end(s@, i as int),
        decreases s@.len() - j,
    {
        j = j + 1;
    }
    j
}

fn quoted_end_at(s: &Vec<char>, i: usize) -> (r: Option<usize>)
    requires
        i <= s@.len(),
    ensures
        r == match quoted_end(s@, i as int) {
            Some(e) => Some(e as usize),
            None => None::<usize>,
        },
        r matches Some(e) ==> i < e <= s@.len(),
{
    if i >= s.len() || s[i] != '"' {
        return None;
    }
    let e = token_end_at(s, i + 1);
    if e > i + 1 && e < s.len() && s[e] == '"' {
        Some(e + 1)
    } else {
        None
    }
}

/// The key and the value of a report line (see `key_value_of`).
pub fn key_value(line: &Vec<char>) -> (r: Option<(Vec<char>, Vec<char>)>)
    ensures
        match r {
            Some((k, v)) => key_value_of(line@) == Some((k@, v@)),
            None => key_value_of(line@) is None,
        },
{
    let k = skip_spaces_at(line, 0);
    let ke = match quoted_end_at(line, k) {
        Some(e) => e,
        None => {
            return None;
        },
    };
    let c = skip_spaces_at(line, ke);
    if !(c < line.len() && line[c] == ':') {
        return None;
    }
    let v = skip_spaces_at(line, c + 1);
    let ve = match quoted_end_at(line, v) {
        Some(e) => e,
        None => {
            return None;
        },
    };
    let t = if ve < line.len() && line[ve] == ',' {
        ve + 1
    } else {
        ve
    };
    if skip_spaces_at(line, t) != line.len() {
        return None;
    }
    Some((slice_chars(line, k + 1, ke - 1), slice_chars(line, v + 1, ve - 1)))
}

/// Whether `a` and `b` hold the same characters.
pub fn same_chars(a: &[char], b: &[char]) -> (r: bool)
    ensures
        r == (a@ == b@),
{
    if a.len() != b.len() {
        return false;
    }
    let mut i: usize = 0;
    while i < a.len()
        invariant
            a@.len() == b@.len(),
            0 <= i <= a@.len(),
            forall|j: int| 0 <= j < i ==> a@[j] == b@[j],
        decreases a@.len() - i,
    {
        if a[i] != b[i] {
            return false;
        }
        i = i + 1;
    }
    assert(a@ =~= b@);
    true
}

/// Whether the characters `a` spell the text `b`.
pub fn spells_text(a: &[char], b: &str) -> (r: bool)
    ensures
        r == (a@ == b@),
{
    let t = chars_of(b);
    same_chars(a, t.as_slice())
}

} // verus!
