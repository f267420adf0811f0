use audionorm::dialogue;
use audionorm::ebu_r128::{self, EbuAction, EbuError, EbuRun, MeasuredValues, Pass1Error, Stage};
use audionorm::ffmpeg::{process_outcome, FFmpeg, ProcessError};
use audionorm::ffprobe::AudioStream;
use audionorm::level::Level;
use audionorm::peak::{self, Statistic, StatError};
use audionorm::report::ReportError;

fn lvl(s: &str) -> Level {
    Level::parse(s).unwrap()
}

fn strings(v: &[&str]) -> Vec<String> {
    v.iter().map(|s| s.to_string()).collect()
}

fn stream(bit_rate: Option<i64>) -> AudioStream {
    AudioStream {
        codec_name: "ac3".to_string(),
        duration: Some(10_000_000),
        bit_rate,
        channels: Some("6".to_string()),
        channel_layout: Some("5.1(side)".to_string()),
        sample_rate: Some("48000".to_string()),
    }
}

fn ebu_args(overwrite: bool) -> ebu_r128::NormalizationArgs {
    ebu_r128::NormalizationArgs {
        verbose: false,
        input_file: "in.ac3".to_string(),
        output_file: "out.ac3".to_string(),
        overwrite,
        target_level: lvl("-23.0"),
        loudness_range_target: lvl("7.0"),
        true_peak: lvl("-2.0"),
        offset: lvl("0.0"),
        ffmpeg_args: strings(&["-ar", "48000"]),
    }
}

const PASS1_REPORT: [&str; 9] = [
    "size=N/A time=00:00:10.00 bitrate=N/A speed= 612x",
    "[Parsed_loudnorm_0 @ 0x55c2] ",
    "{",
    "\t\"input_i\" : \"-31.5\",",
    "\t\"input_tp\" : \"-9.2\",",
    "\t\"input_lra\" : \"7.1\",",
    "\t\"input_thresh\" : \"-42.0\",",
    "\t\"target_offset\" : \"-1.0\"",
    "}",
];

#[test]
fn processor_base_arguments() {
    let f = FFmpeg::new("in.wav");
    assert_eq!(
        f.args(),
        &strings(&["-progress", "-", "-nostats", "-nostdin", "-hide_banner", "-i", "in.wav"])
    );
}

#[test]
fn common_arguments_carry_rate_and_codec() {
    let mut f = FFmpeg::new("a");
    f.add_common_args(&stream(Some(640000)), &strings(&["-x"]));
    assert_eq!(&f.args()[7..], &strings(&["-b:a", "640000", "-c:a", "ac3", "-x"])[..]);
    let mut g = FFmpeg::new("a");
    g.add_common_args(&stream(None), &[]);
    assert_eq!(&g.args()[7..], &strings(&["-c:a", "ac3"])[..]);
}

#[test]
fn ebu_first_pass_command() {
    let f = ebu_r128::pass1(&ebu_args(false), &stream(Some(448000)));
    assert_eq!(
        f.args(),
        &strings(&[
            "-progress", "-", "-nostats", "-nostdin", "-hide_banner", "-i", "in.ac3",
            "-filter_complex", "loudnorm=i=-23:lra=7:tp=-2:offset=0:print_format=json",
            "-b:a", "448000", "-c:a", "ac3", "-ar", "48000", "-f", "null", "-",
        ])
    );
}

#[test]
fn ebu_two_pass_with_mocked_processor() {
    let args = ebu_args(true);
    let m = ebu_r128::pass1_result(&strings(&PASS1_REPORT)).unwrap();
    assert_eq!(
        m,
        MeasuredValues {
            input_i: lvl("-31.5"),
            input_lra: lvl("7.1"),
            input_tp: lvl("-9.2"),
            input_thresh: lvl("-42.0"),
            target_offset: lvl("-1.0"),
        }
    );
    let filter = ebu_r128::pass2_filter_text(&args, &m);
    assert_eq!(
        filter,
        "loudnorm=i=-23:lra=7:tp=-2:offset=-1:measured_i=-31.5:measured_lra=7.1:\
         measured_tp=-9.2:measured_thresh=-42:linear=true:print_format=json"
    );
    let f = ebu_r128::pass2(&args, &stream(None), &m);
    assert_eq!(
        &f.args()[7..],
        &strings(&["-filter_complex", &filter, "-c:a", "ac3", "-ar", "48000", "-y", "out.ac3"])[..]
    );
    // The exit status alone decides; the report comes along where it reads.
    assert_eq!(ebu_r128::pass2_result(Some(0), &strings(&["garbage"])), Ok(None));
    assert!(matches!(
        ebu_r128::pass2_result(Some(0), &strings(&PASS1_REPORT)),
        Ok(Some(_))
    ));
    assert_eq!(
        ebu_r128::pass2_result(Some(1), &strings(&PASS1_REPORT)),
        Err(ProcessError::ExitCode(1))
    );
    assert_eq!(ebu_r128::pass2_result(None, &[]), Err(ProcessError::NoExitCode));
}

#[test]
fn ebu_first_pass_needs_every_measurement() {
    let mut l = strings(&PASS1_REPORT);
    l[7] = "\t\"output_i\" : \"-1.0\"".to_string();
    assert_eq!(
        ebu_r128::pass1_result(&l),
        Err(Pass1Error::MissingMeasurement("target_offset".to_string()))
    );
    assert!(matches!(
        ebu_r128::pass1_result(&strings(&["no report"])),
        Err(Pass1Error::Report(ReportError::NoMeasurements { .. }))
    ));
}

#[test]
fn exit_codes() {
    assert_eq!(process_outcome(Some(0)), Ok(()));
    assert_eq!(process_outcome(Some(-2)), Err(ProcessError::ExitCode(-2)));
    assert_eq!(process_outcome(None), Err(ProcessError::NoExitCode));
}

fn peak_args() -> peak::NormalizationArgs {
    peak::NormalizationArgs {
        verbose: false,
        input_file: "in.wav".to_string(),
        output_file: "out.wav".to_string(),
        overwrite: false,
        target_level: lvl("-1.5"),
        ffmpeg_args: vec![],
    }
}

#[test]
fn peak_measure_and_apply() {
    let f = peak::pass1(&peak_args(), Statistic::Peak, &stream(None));
    assert_eq!(
        &f.args()[7..],
        &strings(&[
            "-filter", "astats=measure_overall=Peak_level:measure_perchannel=0",
            "-c:a", "ac3", "-f", "null", "-",
        ])[..]
    );
    let log = strings(&[
        "[Parsed_astats_0 @ 0x1] Overall",
        "[Parsed_astats_0 @ 0x1] Peak level dB: -3.2",
        "[Parsed_astats_0 @ 0x1] RMS level dB: -20.75",
    ]);
    let peak_level = peak::result_pass1(&log, Statistic::Peak).unwrap();
    assert_eq!(peak_level.to_text(), "-3.2");
    let rms_level = peak::result_pass1(&log, Statistic::Rms).unwrap();
    assert_eq!(rms_level.to_text(), "-20.75");
    let adj = peak::volume_adjustment(&lvl("-1.5"), &peak_level).unwrap();
    assert_eq!(peak::volume_filter_text(&adj), "volume=1.7dB");
    let g = peak::pass2(&peak_args(), &stream(None), &adj);
    assert_eq!(&g.args()[7..], &strings(&["-filter", "volume=1.7dB", "-c:a", "ac3", "out.wav"])[..]);
}

#[test]
fn normalizing_at_the_measured_level_asks_no_gain() {
    for (target, measured) in [("-3.2", "-3.2"), ("-3.20", "-3.2"), ("0", "-0.0")] {
        let adj = peak::volume_adjustment(&lvl(target), &lvl(measured)).unwrap();
        assert_eq!(peak::volume_filter_text(&adj), "volume=0dB");
    }
}

#[test]
fn statistic_words_may_be_parted_by_any_whitespace() {
    let log = strings(&[
        "[Parsed_astats_0 @ 0x1] Peak  level\tdB :  -6.02",
        "[Parsed_astats_0 @ 0x1] Peak level dB: -1 and Peak\u{a0}level dB\u{3000}: -2.5",
        "Peaklevel dB: -9",
        "Peak level dB -9",
    ]);
    assert_eq!(peak::result_pass1(&log, Statistic::Peak).unwrap().to_text(), "-2.5");
    assert_eq!(
        peak::result_pass1(&log[..1], Statistic::Peak).unwrap().to_text(),
        "-6.02"
    );
    assert_eq!(
        peak::result_pass1(&log[2..], Statistic::Peak),
        Err(StatError::NoValue { log: "Peaklevel dB: -9\nPeak level dB -9\n".to_string() })
    );
}

#[test]
fn nearly_equal_levels_ask_a_small_gain() {
    let adj = peak::volume_adjustment(&lvl("-3.2"), &lvl("-3.21")).unwrap();
    assert_eq!(peak::volume_filter_text(&adj), "volume=0.01dB");
    let adj = peak::volume_adjustment(&lvl("-3.2"), &lvl("-3.1999")).unwrap();
    assert_eq!(adj.to_text(), "-0.0001");
}

#[test]
fn peak_measurement_errors() {
    assert_eq!(
        peak::result_pass1(&strings(&["nothing here"]), Statistic::Peak),
        Err(StatError::NoValue { log: "nothing here\n".to_string() })
    );
    assert_eq!(
        peak::result_pass1(&strings(&["x Peak level dB: loud"]), Statistic::Peak),
        Err(StatError::InvalidValue {
            problems: "Failed to parse level value: x Peak level dB: loud\n".to_string()
        })
    );
}

#[test]
fn dialogue_command() {
    let args = dialogue::NormalizationArgs {
        verbose: false,
        input_file: "in.ac3".to_string(),
        output_file: "out.ac3".to_string(),
        overwrite: true,
        target_level: -31,
        ffmpeg_args: strings(&["-c:a", "eac3"]),
    };
    let f = dialogue::command(&args, &stream(Some(192000)));
    assert_eq!(
        &f.args()[7..],
        &strings(&[
            "-dialnorm", "-31", "-b:a", "192000", "-c:a", "ac3", "-c:a", "eac3", "-y", "out.ac3",
        ])[..]
    );
}

#[test]
fn ebu_state_machine_with_mocked_processor() {
    let (mut run, first) = EbuRun::start(ebu_args(false), stream(None));
    assert_eq!(run.stage, Stage::Measuring);
    assert_eq!(
        first.args()[8],
        "loudnorm=i=-23:lra=7:tp=-2:offset=0:print_format=json"
    );
    let second = match run.finished(Some(0), &strings(&PASS1_REPORT)) {
        EbuAction::Run(cmd) => cmd,
        _ => panic!("expected the second run"),
    };
    assert_eq!(run.stage, Stage::Normalizing);
    let filter = &second.args()[8];
    for part in [
        "i=-23", "lra=7", "tp=-2", "offset=-1", "measured_i=-31.5", "measured_lra=7.1",
        "measured_tp=-9.2", "measured_thresh=-42", "linear=true",
    ] {
        assert!(filter.split(':').any(|p| p.ends_with(part)), "{part} in {filter}");
    }
    assert_eq!(second.args().last().unwrap(), "out.ac3");
    // A second run that exits with 0 ends well, though its report does not read.
    assert!(matches!(
        run.finished(Some(0), &strings(&["no report at all"])),
        EbuAction::Done(None)
    ));
    assert_eq!(run.stage, Stage::Finished);

    let (mut failing, _) = EbuRun::start(ebu_args(false), stream(None));
    let _ = failing.finished(Some(0), &strings(&PASS1_REPORT));
    assert!(matches!(
        failing.finished(Some(1), &strings(&PASS1_REPORT)),
        EbuAction::Fail(EbuError::Pass2Process(ProcessError::ExitCode(1)))
    ));
}

#[test]
fn ebu_state_machine_first_run_failures() {
    let (mut a, _) = EbuRun::start(ebu_args(false), stream(None));
    assert!(matches!(
        a.finished(None, &strings(&PASS1_REPORT)),
        EbuAction::Fail(EbuError::Pass1Process(ProcessError::NoExitCode))
    ));
    let (mut b, _) = EbuRun::start(ebu_args(false), stream(None));
    assert!(matches!(
        b.finished(Some(0), &strings(&["{", "\"input_i\": \"-1\"", "}"])),
        EbuAction::Fail(EbuError::Pass1(Pass1Error::Report(
            ReportError::IncompleteMeasurements { count: 1, .. }
        )))
    ));
    assert_eq!(b.stage, Stage::Finished);
}
