//! The command line of the media processor, and the reading of the loudness
//! report in what it writes to its diagnostic stream.

use vstd::prelude::*;
use crate::ffprobe::AudioStream;
use crate::level::Level;
use crate::report::{
    key_value, report_of, result_view, scan_line, scan_lines, spells_text, with_level,
    EbuLoudnessValues, ReportError, ReportScan,
};
use crate::text::{chars_of, int_text, literal, push_int, string_of, views_of};

verus! {

/// The processor's arguments, program name excluded, in order.
pub struct FFmpeg {
    pub args: Vec<String>,
}

impl View for FFmpeg {
    type V = Seq<Seq<char>>;

    open spec fn view(&self) -> Seq<Seq<char>> {
        views_of(self.args@)
    }
}

/// The arguments every run starts with: machine-readable progress on the
/// standard output, no statistics, no interaction, no banner, and the input.
pub open spec fn base_args(input_file: Seq<char>) -> Seq<Seq<char>> {
    seq![
        "-progress"@,
        "-"@,
        "-nostats"@,
        "-nostdin"@,
        "-hide_banner"@,
        "-i"@,
        input_file,
    ]
}

/// The arguments that carry the input's bit rate and codec over to the
/// output, followed by the caller's own arguments.
pub open spec fn common_args(info: AudioStream, extra: Seq<Seq<char>>) -> Seq<Seq<char>> {
    let rate: Seq<Seq<char>> = match info.bit_rate {
        Some(b) => seq!["-b:a"@, int_text(b as int)],
        None => Seq::empty(),
    };
    rate + seq!["-c:a"@, info.codec_name@] + extra
}

/// An owned copy of `s`.
pub fn owned(s: &str) -> (r: String)
    ensures
        r@ == s@,
{
    let c = chars_of(s);
    string_of(c.as_slice())
}

impl FFmpeg {
    /// A command that reads `input_file` (see `base_args`).
    pub fn new(input_file: &str) -> (r: FFmpeg)
        ensures
            r@ == base_args(input_file@),
    {
        let mut f = FFmpeg { args: Vec::new() };
        f.arg("-progress");
        f.arg("-");
        f.arg("-nostats");
        f.arg("-nostdin");
        f.arg("-hide_banner");
        f.arg("-i");
        f.arg(input_file);
        assert(f@ =~= base_args(input_file@));
        f
    }

    /// Adds one argument at the end.
    pub fn arg(&mut self, a: &str)
        ensures
            final(self)@ == old(self)@.push(a@),
    {
        let s = owned(a);
        self.args.push(s);
        assert(final(self)@ =~= old(self)@.push(a@));
    }

    /// Adds the arguments `extra` at the end, in order.
    pub fn extend(&mut self, extra: &[String])
        ensures
            final(self)@ == old(self)@ + views_of(extra@),
    {
        let mut i: usize = 0;
        while i < extra.len()
            invariant
                0 <= i <= extra@.len(),
                self@ == old(self)@ + views_of(extra@.take(i as int)),
            decreases extra@.len() - i,
        {
            let s = extra[i].clone();
            let ghost prev = self.args@;
            self.args.push(s);
            assert(views_of(self.args@) =~= views_of(prev).push(extra@[i as int]@));
            i = i + 1;
            assert(views_of(extra@.take(i as int)) =~= views_of(extra@.take(i - 1)).push(
                extra@[i - 1]@,
            ));
            assert(self@ =~= old(self)@ + views_of(extra@.take(i as int)));
        }
        assert(extra@.take(extra@.len() as int) =~= extra@);
    }

    /// The arguments, in order.
    pub fn args(&self) -> (r: &Vec<String>)
        ensures
            views_of(r@) == self@,
    {
        &self.args
    }

    /// Adds the input's bit rate and codec, then `ffmpeg_args` (see
    /// `common_args`).
    pub fn add_common_args(&mut self, file_info: &AudioStream, ffmpeg_args: &[String])
        ensures
            final(self)@ == old(self)@ + common_args(*file_info, views_of(ffmpeg_args@)),
    {
        if let Some(b) = file_info.bit_rate {
            self.arg("-b:a");
            let mut t: Vec<char> = Vec::new();
            push_int(&mut t, b);
            let s = string_of(t.as_slice());
            self.arg(s.as_str());
        }
        self.arg("-c:a");
        self.arg(file_info.codec_name.as_str());
        self.extend(ffmpeg_args);
        assert(final(self)@ =~= old(self)@ + common_args(*file_info, views_of(ffmpeg_args@)));
    }

    /// Reads the loudness report in the processor's diagnostic lines `lines`
    /// (see `report_of`).
    pub fn result(lines: &[String]) -> (r: Result<EbuLoudnessValues, ReportError>)
        ensures
            result_view(r) == report_of(views_of(lines@)),
    {
        let ghost all = views_of(lines@);
        let mut in_block = false;
        let mut log: Vec<char> = Vec::new();
        let mut problems: Vec<char> = Vec::new();
        let mut count: usize = 0;
        let mut values = EbuLoudnessValues::empty();
        let mut i: usize = 0;
        assert(all.take(0) =~= Seq::<Seq<char>>::empty());
        while i < lines.len()
            invariant
                0 <= i <= lines@.len(),
                all == views_of(lines@),
                count <= i,
                scan_lines(all.take(i as int)) == (ReportScan {
                    in_block,
                    log: log@,
                    problems: problems@,
                    count: count as nat,
                    values: values@,
                }),
            decreases lines@.len() - i,
        {
            let line = chars_of(lines[i].as_str());
            proof {
                assert(all.take(i + 1).drop_last() =~= all.take(i as int));
                assert(all.take(i + 1).last() == line@);
            }
            let ghost before = ReportScan {
                in_block,
                log: log@,
                problems: problems@,
                count: count as nat,
                values: values@,
            };
            if line.len() == 1 && line[0] == '{' {
                assert(line@ =~= seq!['{']);
                in_block = true;
            } else if in_block && line.len() == 1 && line[0] == '}' {
                assert(line@ =~= seq!['}']);
                in_block = false;
            } else if !in_block {
                assert(line@ != seq!['{']);
                let mut l = line.clone();
                log.append(&mut l);
                log.push('\n');
            } else {
                assert(line@ != seq!['{'] && line@ != seq!['}']);
                match key_value(&line) {
                    None => {
                        let mut what = literal("Failed to parse loudness value: ");
                        problems.append(&mut what);
                        let mut l = line.clone();
                        problems.append(&mut l);
                        problems.push('\n');
                    },
                    Some((key, value)) => {
                        if spells_text(key.as_slice(), "normalization_type") {
                            values.normalization_type = Some(string_of(value.as_slice()));
                            count = count + 1;
                        } else {
                            let text = string_of(value.as_slice());
                            match Level::parse(text.as_str()) {
                                None => {
                                    let mut what = literal("Invalid loudness value: ");
                                    problems.append(&mut what);
                                    let mut l = line.clone();
                                    problems.append(&mut l);
                                    problems.push('\n');
                                },
                                Some(x) => {
                                    if set_level(&mut values, key.as_slice(), x) {
                                        count = count + 1;
                                    } else {
                                        let mut what = literal("Unknown loudness value: ");
                                        problems.append(&mut what);
                                        let mut l = line.clone();
                                        problems.append(&mut l);
                                        problems.push('\n');
                                    }
                                },
                            }
                        }
                    },
                }
            }
            proof {
                let after = scan_line(before, line@);
                assert(after.log =~= log@);
                assert(after.problems =~= problems@);
                assert(after.values == values@);
            }
            i = i + 1;
        }
        assert(all.take(lines@.len() as int) =~= all);
        if count == 0 {
            return Err(ReportError::NoMeasurements { log: string_of(log.as_slice()) });
        }
        if count != 5 && count != 10 {
            return Err(ReportError::IncompleteMeasurements { count, values });
        }
        if problems.len() > 0 {
            return Err(ReportError::MalformedMeasurement { problems: string_of(problems.as_slice()) });
        }
        Ok(values)
    }
}

/// How a run of the processor failed.
#[derive(Clone, Copy, Debug, PartialEq, Eq, Structural)]
pub enum ProcessError {
    /// It exited with this non-zero code.
    ExitCode(i32),
    /// It was ended by a signal, without an exit code.
    NoExitCode,
}

/// The outcome of a run that ended with `exit_code` (`None` where a signal
/// ended it): success exactly on code 0.
pub open spec fn exit_outcome(exit_code: Option<i32>) -> Result<(), ProcessError> {
    match exit_code {
        Some(0) => Ok(()),
        Some(c) => Err(ProcessError::ExitCode(c)),
        None => Err(ProcessError::NoExitCode),
    }
}

/// The outcome of a run that ended with `exit_code` (see `exit_outcome`).
pub fn process_outcome(exit_code: Option<i32>) -> (r: Result<(), ProcessError>)
    ensures
        r == exit_outcome(exit_code),
{
    match exit_code {
        Some(0) => Ok(()),
        Some(c) => Err(ProcessError::ExitCode(c)),
        None => Err(ProcessError::NoExitCode),
    }
}

/// Sets the numeric measurement named `key` (see `with_level`).
fn set_level(values: &mut EbuLoudnessValues, key: &[char], x: Level) -> (r: bool)
    ensures
        r == with_level(old(values)@, key@, x) is Some,
        r ==> final(values)@ == with_level(old(values)@, key@, x)->0,
        !r ==> final(values)@ == old(values)@,
{
    if spells_text(key, "input_i") {
        values.input_i = Some(x);
    } else if spells_text(key, "input_tp") {
        values.input_tp = Some(x);
    } else if spells_text(key, "input_lra") {
        values.input_lra = Some(x);
    } else if spells_text(key, "input_thresh") {
        values.input_thresh = Some(x);
    } else if spells_text(key, "output_i") {
        values.output_i = Some(x);
    } else if spells_text(key, "output_tp") {
        values.output_tp = Some(x);
    } else if spells_text(key, "output_lra") {
        values.output_lra = Some(x);
    } else if spells_text(key, "output_thresh") {
        values.output_thresh = Some(x);
    } else if spells_text(key, "target_offset") {
        values.target_offset = Some(x);
    } else {
        return false;
    }
    true
}

} // verus!
