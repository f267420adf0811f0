use audionorm::ffprobe::{
    duration_txt,
    file_bit_rate, file_bit_rate_txt, file_channel_layout, file_channels, file_codec_name,
    file_duration, file_property, parse_duration, AudioStream, FFprobe, ProbeError, Property,
};

fn props(v: &[(&str, &str)]) -> Vec<Property> {
    v.iter()
        .map(|(k, v)| Property { key: k.to_string(), value: v.to_string() })
        .collect()
}

#[test]
fn durations_in_microseconds() {
    assert_eq!(parse_duration("10.005333"), Some(10_005_333));
    assert_eq!(parse_duration("2"), Some(2_000_000));
    assert_eq!(parse_duration("1.0000009"), Some(1_000_000));
    assert_eq!(parse_duration("0"), Some(0));
    assert_eq!(parse_duration("N/A"), None);
    assert_eq!(parse_duration("-1.5"), None);
    assert_eq!(parse_duration("inf"), None);
    assert_eq!(parse_duration("18446744073709.551616"), None);
}

#[test]
fn property_lookups() {
    let p = props(&[
        ("codec_name", "ac3"),
        ("channels", "6"),
        ("channel_layout", "5.1(side)"),
        ("duration", "10.005333"),
        ("bit_rate", "640000"),
        ("codec_name", "other"),
    ]);
    assert_eq!(file_codec_name(&p), Some("ac3".to_string()));
    assert_eq!(file_channels(&p), Some("6".to_string()));
    assert_eq!(file_channel_layout(&p), Some("5.1(side)".to_string()));
    assert_eq!(file_property(&p, "sample_rate"), None);
    assert_eq!(file_duration(&p), Some(10_005_333));
    assert_eq!(file_bit_rate(&p), Some(640000));
    assert_eq!(file_bit_rate_txt(&p), "640 kb/s");
    assert_eq!(file_bit_rate_txt(&props(&[("bit_rate", "N/A")])), "N/A");
    assert_eq!(file_bit_rate_txt(&props(&[("bit_rate", "-1999")])), "-1 kb/s");
    assert_eq!(file_bit_rate(&props(&[("bit_rate", "9223372036854775808")])), None);
    assert_eq!(file_bit_rate(&props(&[("bit_rate", "-9223372036854775808")])), Some(i64::MIN));
}

#[test]
fn stream_info_from_prober_output() {
    let out = b"index=1\ncodec_name=eac3\nsample_rate=48000\nchannels=2\nchannel_layout=stereo\nduration=3.5\nbit_rate=N/A\n";
    let s = FFprobe::stream_info(out).unwrap();
    assert_eq!(
        s,
        AudioStream {
            codec_name: "eac3".to_string(),
            duration: Some(3_500_000),
            bit_rate: None,
            channels: Some("2".to_string()),
            channel_layout: Some("stereo".to_string()),
            sample_rate: Some("48000".to_string()),
        }
    );
}

#[test]
fn prober_output_without_audio() {
    assert_eq!(FFprobe::stream_info(b"\n"), Err(ProbeError::NoAudioStream));
    assert_eq!(FFprobe::stream_info(b"=value\n"), Err(ProbeError::Unparsable));
}

#[test]
fn durations_for_display() {
    assert_eq!(duration_txt(Some(3_661_534_000)), "01:01:01");
    assert_eq!(duration_txt(Some(10_005_333)), "00:00:10");
    assert_eq!(duration_txt(Some(360_000_000_000)), "100:00:00");
    assert_eq!(duration_txt(None), "N/A");
}
