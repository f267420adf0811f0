use audionorm::ffmpeg::FFmpeg;
use audionorm::level::Level;
use audionorm::report::{key_value, EbuLoudnessValues, ReportError};

fn lines(text: &[&str]) -> Vec<String> {
    text.iter().map(|s| s.to_string()).collect()
}

fn lvl(s: &str) -> Level {
    Level::parse(s).unwrap()
}

const BANNER: &str = "[Parsed_loudnorm_0 @ 0x5581] ";

#[test]
fn five_key_block_parses() {
    let l = lines(&[
        "Input #0, ac3, from 'a.ac3':",
        BANNER,
        "{",
        "\t\"input_i\" : \"-23.4\",",
        "\t\"input_tp\" : \"-5.0\",",
        "\t\"input_lra\" : \"6.0\",",
        "\t\"input_thresh\" : \"-33.0\",",
        "\t\"target_offset\" : \"1.2\"",
        "}",
        "video:0kB audio:0kB",
    ]);
    let v = FFmpeg::result(&l).unwrap();
    assert_eq!(v.input_i, Some(lvl("-23.4")));
    assert_eq!(v.input_tp, Some(lvl("-5.0")));
    assert_eq!(v.input_lra, Some(lvl("6.0")));
    assert_eq!(v.input_thresh, Some(lvl("-33.0")));
    assert_eq!(v.target_offset, Some(lvl("1.2")));
    assert_eq!(v.input_i.unwrap().to_text(), "-23.4");
    assert_eq!(v.output_i, None);
    assert_eq!(v.output_lra, None);
    assert_eq!(v.output_tp, None);
    assert_eq!(v.output_thresh, None);
    assert_eq!(v.normalization_type, None);
}

#[test]
fn four_key_block_is_incomplete() {
    let l = lines(&[
        "{",
        "\"input_i\": \"-23.4\",",
        "\"input_tp\": \"-5.0\",",
        "\"input_lra\": \"6.0\",",
        "\"target_offset\": \"1.2\"",
        "}",
    ]);
    match FFmpeg::result(&l) {
        Err(ReportError::IncompleteMeasurements { count, values }) => {
            assert_eq!(count, 4);
            assert_eq!(values.input_thresh, None);
            assert_eq!(values.input_i, Some(lvl("-23.4")));
        }
        other => panic!("unexpected {:?}", other),
    }
}

#[test]
fn ten_key_block_keeps_normalization_type() {
    let l = lines(&[
        "{",
        "\t\"input_i\" : \"-27.61\",",
        "\t\"input_tp\" : \"-4.47\",",
        "\t\"input_lra\" : \"18.06\",",
        "\t\"input_thresh\" : \"-39.20\",",
        "\t\"output_i\" : \"-24.58\",",
        "\t\"output_tp\" : \"+0.50\",",
        "\t\"output_lra\" : \"7.20\",",
        "\t\"output_thresh\" : \"-34.88\",",
        "\t\"normalization_type\" : \"dynamic\",",
        "\t\"target_offset\" : \"0.58\"",
        "}",
    ]);
    let v = FFmpeg::result(&l).unwrap();
    assert_eq!(v.normalization_type, Some("dynamic".to_string()));
    assert_eq!(v.output_tp.unwrap().to_text(), "0.5");
    assert_eq!(v.output_thresh.unwrap().to_text(), "-34.88");
    assert_eq!(v.target_offset.unwrap().to_text(), "0.58");
}

#[test]
fn no_block_gives_the_log_verbatim() {
    let l = lines(&["first line", "  second: line", ""]);
    match FFmpeg::result(&l) {
        Err(ReportError::NoMeasurements { log }) => {
            assert_eq!(log, "first line\n  second: line\n\n");
        }
        other => panic!("unexpected {:?}", other),
    }
}

#[test]
fn stray_closing_line_stays_in_the_log() {
    let l = lines(&["}", "a", "}"]);
    assert_eq!(
        FFmpeg::result(&l),
        Err(ReportError::NoMeasurements { log: "}\na\n}\n".to_string() })
    );
}

#[test]
fn unicode_whitespace_around_key_value() {
    let c = |s: &str| s.chars().collect::<Vec<char>>();
    assert_eq!(
        key_value(&c("\u{a0}\"input_i\"\u{3000}:\t\"-1\"\u{2028}")),
        Some((c("input_i"), c("-1")))
    );
}

#[test]
fn empty_stream_has_no_measurements() {
    assert_eq!(
        FFmpeg::result(&[]),
        Err(ReportError::NoMeasurements { log: String::new() })
    );
}

#[test]
fn bad_line_in_block_is_malformed() {
    let l = lines(&[
        "{",
        "\"input_i\": \"-23.4\",",
        "\"input_tp\": \"-5.0\",",
        "\"input_lra\": \"6.0\",",
        "\"input_thresh\": \"-33.0\",",
        "\"target_offset\": \"1.2\"",
        "not a pair",
        "\"input_x\": \"1\"",
        "\"output_i\": \"loud\"",
        "}",
    ]);
    match FFmpeg::result(&l) {
        Err(ReportError::MalformedMeasurement { problems }) => {
            assert_eq!(
                problems,
                "Failed to parse loudness value: not a pair\n\
                 Unknown loudness value: \"input_x\": \"1\"\n\
                 Invalid loudness value: \"output_i\": \"loud\"\n"
            );
        }
        other => panic!("unexpected {:?}", other),
    }
}

#[test]
fn key_value_lines() {
    let c = |s: &str| s.chars().collect::<Vec<char>>();
    assert_eq!(
        key_value(&c("  \"input_i\" : \"-23.4\",  ")),
        Some((c("input_i"), c("-23.4")))
    );
    assert_eq!(key_value(&c("\"a\":\"b\"")), Some((c("a"), c("b"))));
    assert_eq!(key_value(&c("\"a\": \"b\",,")), None);
    assert_eq!(key_value(&c("\"\": \"b\"")), None);
    assert_eq!(key_value(&c("\"a b\": \"c\"")), None);
    assert_eq!(key_value(&c("\"a\" \"b\"")), None);
}

#[test]
fn empty_values_hold_nothing() {
    let v = EbuLoudnessValues::empty();
    assert_eq!(v.input_i, None);
    assert_eq!(v.normalization_type, None);
}
