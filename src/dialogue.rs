//! Dialogue normalisation: one run that sets the dialogue level written in
//! the output's metadata; no measurement.

use vstd::prelude::*;
use crate::ebu_r128::overwrite_args;
use crate::ffmpeg::{base_args, common_args, FFmpeg};
use crate::ffprobe::AudioStream;
use crate::text::{int_text, push_int, string_of, views_of};

verus! {

/// What a dialogue normalisation is asked to do.
pub struct NormalizationArgs {
    pub verbose: bool,
    pub input_file: String,
    pub output_file: String,
    pub overwrite: bool,
    /// The dialogue level, in dB below full scale (-31 to -1).
    pub target_level: i8,
    /// Arguments handed on to the processor as they are.
    pub ffmpeg_args: Vec<String>,
}

/// The arguments of the run.
pub open spec fn dialogue_args(a: NormalizationArgs, info: AudioStream) -> Seq<Seq<char>> {
    base_args(a.input_file@) + seq!["-dialnorm"@, int_text(a.target_level as int)] + common_args(
        info,
        views_of(a.ffmpeg_args@),
    ) + overwrite_args(a.overwrite) + seq![a.output_file@]
}

/// The command of the run (see `dialogue_args`).
pub fn command(args: &NormalizationArgs, input_file_info: &AudioStream) -> (r: FFmpeg)
    ensures
        r@ == dialogue_args(*args, *input_file_info),
{
    let mut ffmpeg = FFmpeg::new(args.input_file.as_str());
    ffmpeg.arg("-dialnorm");
    let mut t: Vec<char> = Vec::new();
    push_int(&mut t, args.target_level as i64);
    let level = string_of(t.as_slice());
    ffmpeg.arg(level.as_str());
    ffmpeg.add_common_args(input_file_info, args.ffmpeg_args.as_slice());
    if args.overwrite {
        ffmpeg.arg("-y");
    }
    ffmpeg.arg(args.output_file.as_str());
    assert(ffmpeg@ =~= dialogue_args(*args, *input_file_info));
    ffmpeg
}

} // verus!
