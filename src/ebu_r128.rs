//! Two-pass EBU R128 loudness normalisation: a first run that measures the
//! input, and a second that applies a linear gain computed from those
//! measurements.

use vstd::prelude::*;
use crate::ffmpeg::{
    base_args, common_args, exit_outcome, process_outcome, FFmpeg, ProcessError,
};
use crate::ffprobe::AudioStream;
use crate::level::{level_text, Level};
use crate::report::{report_of, EbuLoudnessValues, Measurements, ReportError, ReportFault};
use crate::text::{push_text, string_of, views_of};

verus! {

/// What an EBU R128 normalisation is asked to do.
pub struct NormalizationArgs {
    pub verbose: bool,
    pub input_file: String,
    pub output_file: String,
    pub overwrite: bool,
    /// Integrated loudness target, in LUFS.
    pub target_level: Level,
    /// Loudness range target, in LU.
    pub loudness_range_target: Level,
    /// Maximum true peak, in dBTP.
    pub true_peak: Level,
    /// Gain offset of the first pass, in dB.
    pub offset: Level,
    /// Arguments handed on to the processor as they are.
    pub ffmpeg_args: Vec<String>,
}

/// What the first pass measured, and what the second needs of it.
#[derive(Clone, Copy, Debug, PartialEq, Eq, Structural)]
pub struct MeasuredValues {
    pub input_i: Level,
    pub input_lra: Level,
    pub input_tp: Level,
    pub input_thresh: Level,
    pub target_offset: Level,
}

/// Why the first pass gave no measurements for the second.
#[derive(Clone, Debug, PartialEq)]
pub enum Pass1Error {
    /// The report was refused.
    Report(ReportError),
    /// The report lacks the measurement of this name.
    MissingMeasurement(String),
}

/// The filter of the first pass: the targets and the offset, with the
/// report written as JSON.
pub open spec fn pass1_filter(a: NormalizationArgs) -> Seq<char> {
    "loudnorm=i="@ + level_text(a.target_level) + ":lra="@ + level_text(a.loudness_range_target)
        + ":tp="@ + level_text(a.true_peak) + ":offset="@ + level_text(a.offset)
        + ":print_format=json"@
}

/// The arguments of the first pass: the filter, the common arguments, and
/// no output file.
pub open spec fn pass1_args(a: NormalizationArgs, info: AudioStream) -> Seq<Seq<char>> {
    base_args(a.input_file@) + seq!["-filter_complex"@, pass1_filter(a)] + common_args(
        info,
        views_of(a.ffmpeg_args@),
    ) + seq!["-f"@, "null"@, "-"@]
}

/// The filter of the second pass: the targets, the offset measured by the
/// first pass, the four measured values, and a linear gain.
pub open spec fn pass2_filter(a: NormalizationArgs, m: MeasuredValues) -> Seq<char> {
    "loudnorm=i="@ + level_text(a.target_level) + ":lra="@ + level_text(a.loudness_range_target)
        + ":tp="@ + level_text(a.true_peak) + ":offset="@ + level_text(m.target_offset)
        + ":measured_i="@ + level_text(m.input_i) + ":measured_lra="@ + level_text(m.input_lra)
        + ":measured_tp="@ + level_text(m.input_tp) + ":measured_thresh="@ + level_text(
        m.input_thresh,
    ) + ":linear=true:print_format=json"@
}

pub open spec fn overwrite_args(overwrite: bool) -> Seq<Seq<char>> {
    if overwrite {
        seq!["-y"@]
    } else {
        Seq::empty()
    }
}

/// The arguments of the second pass: the filter, the common arguments, and
/// the output file.
pub open spec fn pass2_args(a: NormalizationArgs, info: AudioStream, m: MeasuredValues) -> Seq<
    Seq<char>,
> {
    base_args(a.input_file@) + seq!["-filter_complex"@, pass2_filter(a, m)] + common_args(
        info,
        views_of(a.ffmpeg_args@),
    ) + overwrite_args(a.overwrite) + seq![a.output_file@]
}

/// The measurements that the second pass needs, or the name of the first
/// one missing.
pub open spec fn measured_of(m: Measurements) -> Result<MeasuredValues, Seq<char>> {
    if m.input_i is None {
        Err("input_i"@)
    } else if m.input_lra is None {
        Err("input_lra"@)
    } else if m.input_tp is None {
        Err("input_tp"@)
    } else if m.input_thresh is None {
        Err("input_thresh"@)
    } else if m.target_offset is None {
        Err("target_offset"@)
    } else {
        Ok(
            MeasuredValues {
                input_i: m.input_i->0,
                input_lra: m.input_lra->0,
                input_tp: m.input_tp->0,
                input_thresh: m.input_thresh->0,
                target_offset: m.target_offset->0,
            },
        )
    }
}

pub enum Pass1Fault {
    Report(ReportFault),
    MissingMeasurement(Seq<char>),
}

/// The outcome of the first pass whose diagnostic lines are `lines`.
pub open spec fn pass1_outcome(lines: Seq<Seq<char>>) -> Result<MeasuredValues, Pass1Fault> {
    match report_of(lines) {
        Err(f) => Err(Pass1Fault::Report(f)),
        Ok(m) => match measured_of(m) {
            Ok(v) => Ok(v),
            Err(name) => Err(Pass1Fault::MissingMeasurement(name)),
        },
    }
}

pub open spec fn pass1_view(r: Result<MeasuredValues, Pass1Error>) -> Result<
    MeasuredValues,
    Pass1Fault,
> {
    match r {
        Ok(v) => Ok(v),
        Err(Pass1Error::Report(e)) => Err(Pass1Fault::Report(e@)),
        Err(Pass1Error::MissingMeasurement(name)) => Err(Pass1Fault::MissingMeasurement(name@)),
    }
}

/// The outcome of the second pass: its run's exit status decides alone;
/// the report, where it reads, comes along.
pub open spec fn pass2_outcome(exit_code: Option<i32>, lines: Seq<Seq<char>>) -> Result<
    Option<Measurements>,
    ProcessError,
> {
    match exit_outcome(exit_code) {
        Err(e) => Err(e),
        Ok(()) => match report_of(lines) {
            Ok(m) => Ok(Some(m)),
            Err(_) => Ok(None),
        },
    }
}

fn push_level(out: &mut Vec<char>, l: &Level)
    ensures
        final(out)@ == old(out)@ + level_text(*l),
{
    let t = l.to_text();
    push_text(out, t.as_str());
}

/// The filter of the first pass (see `pass1_filter`).
pub fn pass1_filter_text(args: &NormalizationArgs) -> (r: String)
    ensures
        r@ == pass1_filter(*args),
{
    let mut out: Vec<char> = Vec::new();
    push_text(&mut out, "loudnorm=i=");
    push_level(&mut out, &args.target_level);
    push_text(&mut out, ":lra=");
    push_level(&mut out, &args.loudness_range_target);
    push_text(&mut out, ":tp=");
    push_level(&mut out, &args.true_peak);
    push_text(&mut out, ":offset=");
    push_level(&mut out, &args.offset);
    push_text(&mut out, ":print_format=json");
    assert(out@ =~= pass1_filter(*args));
    string_of(out.as_slice())
}

/// The filter of the second pass (see `pass2_filter`).
pub fn pass2_filter_text(args: &NormalizationArgs, m: &MeasuredValues) -> (r: String)
    ensures
        r@ == pass2_filter(*args, *m),
{
    let mut out: Vec<char> = Vec::new();
    push_text(&mut out, "loudnorm=i=");
    push_level(&mut out, &args.target_level);
    push_text(&mut out, ":lra=");
    push_level(&mut out, &args.loudness_range_target);
    push_text(&mut out, ":tp=");
    push_level(&mut out, &args.true_peak);
    push_text(&mut out, ":offset=");
    push_level(&mut out, &m.target_offset);
    push_text(&mut out, ":measured_i=");
    push_level(&mut out, &m.input_i);
    push_text(&mut out, ":measured_lra=");
    push_level(&mut out, &m.input_lra);
    push_text(&mut out, ":measured_tp=");
    push_level(&mut out, &m.input_tp);
    push_text(&mut out, ":measured_thresh=");
    push_level(&mut out, &m.input_thresh);
    push_text(&mut out, ":linear=true:print_format=json");
    assert(out@ =~= pass2_filter(*args, *m));
    string_of(out.as_slice())
}

/// The command of the first pass (see `pass1_args`).
pub fn pass1(args: &NormalizationArgs, input_file_info: &AudioStream) -> (r: FFmpeg)
    ensures
        r@ == pass1_args(*args, *input_file_info),
{
    let mut ffmpeg = FFmpeg::new(args.input_file.as_str());
    ffmpeg.arg("-filter_complex");
    let filter = pass1_filter_text(args);
    ffmpeg.arg(filter.as_str());
    ffmpeg.add_common_args(input_file_info, args.ffmpeg_args.as_slice());
    ffmpeg.arg("-f");
    ffmpeg.arg("null");
    ffmpeg.arg("-");
    assert(ffmpeg@ =~= pass1_args(*args, *input_file_info));
    ffmpeg
}

/// The command of the second pass (see `pass2_args`).
pub fn pass2(args: &NormalizationArgs, input_file_info: &AudioStream, m: &MeasuredValues) -> (r:
    FFmpeg)
    ensures
        r@ == pass2_args(*args, *input_file_info, *m),
{
    let mut ffmpeg = FFmpeg::new(args.input_file.as_str());
    ffmpeg.arg("-filter_complex");
    let filter = pass2_filter_text(args, m);
    ffmpeg.arg(filter.as_str());
    ffmpeg.add_common_args(input_file_info, args.ffmpeg_args.as_slice());
    if args.overwrite {
        ffmpeg.arg("-y");
    }
    ffmpeg.arg(args.output_file.as_str());
    assert(ffmpeg@ =~= pass2_args(*args, *input_file_info, *m));
    ffmpeg
}

/// The measurements that the second pass needs (see `measured_of`).
pub fn measured_values(values: &EbuLoudnessValues) -> (r: Result<MeasuredValues, String>)
    ensures
        match r {
            Ok(v) => measured_of(values@) == Ok::<MeasuredValues, Seq<char>>(v),
            Err(name) => measured_of(values@) == Err::<MeasuredValues, Seq<char>>(name@),
        },
{
    let input_i = match values.input_i {
        Some(x) => x,
        None => {
            return Err(crate::ffmpeg::owned("input_i"));
        },
    };
    let input_lra = match values.input_lra {
        Some(x) => x,
        None => {
            return Err(crate::ffmpeg::owned("input_lra"));
        },
    };
    let input_tp = match values.input_tp {
        Some(x) => x,
        None => {
            return Err(crate::ffmpeg::owned("input_tp"));
        },
    };
    let input_thresh = match values.input_thresh {
        Some(x) => x,
        None => {
            return Err(crate::ffmpeg::owned("input_thresh"));
        },
    };
    let target_offset = match values.target_offset {
        Some(x) => x,
        None => {
            return Err(crate::ffmpeg::owned("target_offset"));
        },
    };
    Ok(MeasuredValues { input_i, input_lra, input_tp, input_thresh, target_offset })
}

/// Reads the first pass's report and takes from it what the second pass
/// needs (see `pass1_outcome`).
pub fn pass1_result(lines: &[String]) -> (r: Result<MeasuredValues, Pass1Error>)
    ensures
        pass1_view(r) == pass1_outcome(views_of(lines@)),
{
    match FFmpeg::result(lines) {
        Err(e) => Err(Pass1Error::Report(e)),
        Ok(values) => match measured_values(&values) {
            Ok(v) => Ok(v),
            Err(name) => Err(Pass1Error::MissingMeasurement(name)),
        },
    }
}

/// The outcome of the second pass (see `pass2_outcome`).
pub fn pass2_result(exit_code: Option<i32>, lines: &[String]) -> (r: Result<
    Option<EbuLoudnessValues>,
    ProcessError,
>)
    ensures
        match r {
            Ok(Some(v)) => pass2_outcome(exit_code, views_of(lines@)) == Ok::<
                Option<Measurements>,
                ProcessError,
            >(Some(v@)),
            Ok(None) => pass2_outcome(exit_code, views_of(lines@)) == Ok::<
                Option<Measurements>,
                ProcessError,
            >(None),
            Err(e) => pass2_outcome(exit_code, views_of(lines@)) == Err::<
                Option<Measurements>,
                ProcessError,
            >(e),
        },
{
    match process_outcome(exit_code) {
        Err(e) => Err(e),
        Ok(()) => match FFmpeg::result(lines) {
            Ok(v) => Ok(Some(v)),
            Err(_) => Ok(None),
        },
    }
}

/// Where a two-pass normalisation stands.
#[derive(Clone, Copy, Debug, PartialEq, Eq, Structural)]
pub enum Stage {
    /// The first pass, which measures, is running.
    Measuring,
    /// The second pass, which applies the gain, is running.
    Normalizing,
    /// Over, one way or the other.
    Finished,
}

/// Why a two-pass normalisation failed.
#[derive(Clone, Debug, PartialEq)]
pub enum EbuError {
    /// The first run failed.
    Pass1Process(ProcessError),
    /// The first run gave no usable measurements.
    Pass1(Pass1Error),
    /// The second run failed.
    Pass2Process(ProcessError),
}

/// What is to be done after a run.
pub enum EbuAction {
    /// Run the processor with these arguments.
    Run(FFmpeg),
    /// The output is written; the second pass's report, where it reads.
    Done(Option<EbuLoudnessValues>),
    /// Stop with this error.
    Fail(EbuError),
}

/// A two-pass normalisation: it hands out the runs to make and decides on
/// each outcome.
pub struct EbuRun {
    pub args: NormalizationArgs,
    pub info: AudioStream,
    pub stage: Stage,
}

pub open spec fn opt_view(v: Option<EbuLoudnessValues>) -> Option<Measurements> {
    match v {
        Some(x) => Some(x@),
        None => None,
    }
}

impl EbuRun {
    /// Starts a normalisation of the input that `info` describes; the
    /// first run to make is the measuring one (see `pass1_args`).
    pub fn start(args: NormalizationArgs, info: AudioStream) -> (r: (EbuRun, FFmpeg))
        ensures
            r.0.args == args,
            r.0.info == info,
            r.0.stage == Stage::Measuring,
            r.1@ == pass1_args(args, info),
    {
        let cmd = pass1(&args, &info);
        (EbuRun { args, info, stage: Stage::Measuring }, cmd)
    }

    /// Takes the outcome of the run in progress: its exit code and its
    /// diagnostic lines. After the first run, the second is to be made with
    /// the measurements of the first; after the second, its exit code
    /// alone decides.
    pub fn finished(&mut self, exit_code: Option<i32>, lines: &[String]) -> (r: EbuAction)
        requires
            old(self).stage != Stage::Finished,
        ensures
            final(self).args == old(self).args,
            final(self).info == old(self).info,
            match r {
                EbuAction::Run(cmd) => {
                    &&& old(self).stage == Stage::Measuring
                    &&& exit_outcome(exit_code) is Ok
                    &&& pass1_outcome(views_of(lines@)) is Ok
                    &&& cmd@ == pass2_args(
                        old(self).args,
                        old(self).info,
                        pass1_outcome(views_of(lines@))->Ok_0,
                    )
                    &&& final(self).stage == Stage::Normalizing
                },
                EbuAction::Done(v) => {
                    &&& old(self).stage == Stage::Normalizing
                    &&& pass2_outcome(exit_code, views_of(lines@)) == Ok::<
                        Option<Measurements>,
                        ProcessError,
                    >(opt_view(v))
                    &&& final(self).stage == Stage::Finished
                },
                EbuAction::Fail(e) => {
                    &&& final(self).stage == Stage::Finished
                    &&& match e {
                        EbuError::Pass1Process(pe) => old(self).stage == Stage::Measuring
                            && exit_outcome(exit_code) == Err::<(), ProcessError>(pe),
                        EbuError::Pass1(p) => old(self).stage == Stage::Measuring && exit_outcome(
                            exit_code,
                        ) is Ok && pass1_view(Err(p)) == pass1_outcome(views_of(lines@)),
                        EbuError::Pass2Process(pe) => old(self).stage == Stage::Normalizing
                            && pass2_outcome(exit_code, views_of(lines@)) == Err::<
                            Option<Measurements>,
                            ProcessError,
                        >(pe),
                    }
                },
            },
    {
        match self.stage {
            Stage::Measuring => {
                if let Err(e) = process_outcome(exit_code) {
                    self.stage = Stage::Finished;
                    return EbuAction::Fail(EbuError::Pass1Process(e));
                }
                match pass1_result(lines) {
                    Err(p) => {
                        self.stage = Stage::Finished;
                        EbuAction::Fail(EbuError::Pass1(p))
                    },
                    Ok(m) => {
                        let cmd = pass2(&self.args, &self.info, &m);
                        self.stage = Stage::Normalizing;
                        EbuAction::Run(cmd)
                    },
                }
            },
            _ => {
                self.stage = Stage::Finished;
                match pass2_result(exit_code, lines) {
                    Ok(v) => EbuAction::Done(v),
                    Err(e) => EbuAction::Fail(EbuError::Pass2Process(e)),
                }
            },
        }
    }
}

/// The second pass succeeds exactly when its run exits with code 0, whatever
/// its diagnostic lines hold.
pub proof fn lemma_pass2_exit_code_decides(exit_code: Option<i32>, lines: Seq<Seq<char>>)
    ensures
        pass2_outcome(exit_code, lines) is Ok <==> exit_code == Some(0i32),
{
}

} // verus!
