//! What the media prober reports of an audio stream: its `key=value` output
//! read into a stream record.

use vstd::prelude::*;
use hhmmss::Hhmmss;
use crate::level::{level_of, pow10, scale_up, Level};
use crate::text::{
    digits_of, i64_of, int_text, parse_i64, push_int, push_text, string_of,
};

verus! {

/// One `key=value` line of the prober's output.
#[derive(Clone, Debug, PartialEq)]
pub struct Property {
    pub key: String,
    pub value: String,
}

pub open spec fn properties_view(v: Seq<Property>) -> Seq<(Seq<char>, Seq<char>)> {
    v.map_values(|p: Property| (p.key@, p.value@))
}

/// What `props_rs::parse` makes of the bytes `output`: its properties in
/// order, or `None` where it refuses them.
pub uninterp spec fn properties_of(output: Seq<u8>) -> Option<Seq<(Seq<char>, Seq<char>)>>;

/// Relies on `props_rs::parse`, which reads Java-style properties (one
/// `key=value` or `key: value` per line) and depends on its input alone.
#[verifier::external_body]
fn parse_properties(output: &[u8]) -> (r: Option<Vec<Property>>)
    ensures
        match r {
            Some(v) => properties_of(output@) == Some(properties_view(v@)),
            None => properties_of(output@) is None,
        },
{
    match props_rs::parse(output) {
        Ok(v) => Some(v.into_iter().map(|p| Property { key: p.key, value: p.value }).collect()),
        Err(_) => None,
    }
}

/// The value of the first property named `name`.
pub open spec fn property_of(props: Seq<(Seq<char>, Seq<char>)>, name: Seq<char>) -> Option<
    Seq<char>,
>
    decreases props.len(),
{
    if props.len() == 0 {
        None
    } else if props[0].0 == name {
        Some(props[0].1)
    } else {
        property_of(props.drop_first(), name)
    }
}

pub open spec fn opt_text(t: Option<String>) -> Option<Seq<char>> {
    match t {
        Some(s) => Some(s@),
        None => None,
    }
}

/// The value of the first property named `name`.
pub fn file_property(info: &[Property], name: &str) -> (r: Option<String>)
    ensures
        opt_text(r) == property_of(properties_view(info@), name@),
{
    let ghost all = properties_view(info@);
    let mut i: usize = 0;
    assert(all.skip(0) =~= all);
    while i < info.len()
        invariant
            0 <= i <= info@.len(),
            all == properties_view(info@),
            property_of(all.skip(i as int), name@) == property_of(all, name@),
        decreases info@.len() - i,
    {
        let p = &info[i];
        assert(all.skip(i as int)[0] == (p.key@, p.value@));
        assert(all.skip(i as int).drop_first() =~= all.skip(i + 1));
        if crate::report::spells_text(crate::text::chars_of(p.key.as_str()).as_slice(), name) {
            return Some(p.value.clone());
        }
        i = i + 1;
    }
    assert(all.skip(i as int).len() == 0);
    None
}

pub fn file_codec_name(info: &[Property]) -> (r: Option<String>)
    ensures
        opt_text(r) == property_of(properties_view(info@), "codec_name"@),
{
    file_property(info, "codec_name")
}

pub fn file_channels(info: &[Property]) -> (r: Option<String>)
    ensures
        opt_text(r) == property_of(properties_view(info@), "channels"@),
{
    file_property(info, "channels")
}

pub fn file_channel_layout(info: &[Property]) -> (r: Option<String>)
    ensures
        opt_text(r) == property_of(properties_view(info@), "channel_layout"@),
{
    file_property(info, "channel_layout")
}

/// The whole microseconds in a non-negative level of seconds.
pub open spec fn micros_of(l: Level) -> Option<u64> {
    match l {
        Level::Finite { negative, mantissa, scale } => {
            let us: nat = if scale <= 6 {
                mantissa as nat * pow10((6 - scale) as nat)
            } else {
                mantissa as nat / pow10((scale - 6) as nat)
            };
            if (negative && mantissa > 0) || us > u64::MAX {
                None
            } else {
                Some(us as u64)
            }
        },
        _ => None,
    }
}

/// A duration in seconds, such as `10.005333`, as whole microseconds;
/// `None` where the text is no number, the number is negative or not
/// finite, or the microseconds exceed `u64::MAX`.
pub open spec fn duration_of(val: Seq<char>) -> Option<u64> {
    match level_of(val) {
        Some(l) => micros_of(l),
        None => None,
    }
}

/// Reads a duration in seconds as whole microseconds (see `duration_of`).
pub fn parse_duration(val: &str) -> (r: Option<u64>)
    ensures
        r == duration_of(val@),
{
    match Level::parse(val) {
        Some(Level::Finite { negative, mantissa, scale }) => {
            if negative && mantissa > 0 {
                return None;
            }
            if scale <= 6 {
                scale_up(mantissa, 6 - scale)
            } else {
                let mut m = mantissa;
                let mut k: u64 = 0;
                let d = scale - 6;
                assert(pow10(0) == 1);
                while k < d && m > 0
                    invariant
                        0 <= k <= d,
                        m as nat == mantissa as nat / pow10(k as nat),
                    decreases d - k,
                {
                    proof {
                        crate::level::lemma_pow10_positive(k as nat);
                        vstd::arithmetic::div_mod::lemma_div_denominator(
                            mantissa as int,
                            pow10(k as nat) as int,
                            10,
                        );
                        assert(pow10((k + 1) as nat) == 10 * pow10(k as nat));
                        assert(pow10(k as nat) * 10 == pow10((k + 1) as nat));
                    }
                    m = m / 10;
                    k = k + 1;
                }
                proof {
                    if m == 0 && k < d {
                        crate::level::lemma_pow10_positive(k as nat);
                        crate::level::lemma_pow10_positive((d - k) as nat);
                        crate::level::lemma_pow10_add(k as nat, (d - k) as nat);
                        vstd::arithmetic::div_mod::lemma_div_denominator(
                            mantissa as int,
                            pow10(k as nat) as int,
                            pow10((d - k) as nat) as int,
                        );
                        assert((k + (d - k)) as nat == d as nat);
                    }
                }
                Some(m)
            }
        },
        _ => None,
    }
}

/// The first audio stream of a file, as the prober describes it.
#[derive(Clone, Debug, PartialEq)]
pub struct AudioStream {
    pub codec_name: String,
    /// In microseconds; `None` where the prober gives no usable duration.
    pub duration: Option<u64>,
    /// In bits per second.
    pub bit_rate: Option<i64>,
    pub channels: Option<String>,
    pub channel_layout: Option<String>,
    pub sample_rate: Option<String>,
}

pub open spec fn bit_rate_of(val: Option<Seq<char>>) -> Option<i64> {
    match val {
        Some(v) => i64_of(v),
        None => None,
    }
}

pub fn file_duration(info: &[Property]) -> (r: Option<u64>)
    ensures
        r == (match property_of(properties_view(info@), "duration"@) {
            Some(v) => duration_of(v),
            None => None,
        }),
{
    match file_property(info, "duration") {
        Some(d) => parse_duration(d.as_str()),
        None => None,
    }
}

pub fn file_bit_rate(info: &[Property]) -> (r: Option<i64>)
    ensures
        r == bit_rate_of(property_of(properties_view(info@), "bit_rate"@)),
{
    match file_property(info, "bit_rate") {
        Some(b) => parse_i64(b.as_str()),
        None => None,
    }
}

/// `a / b` rounded toward zero, as Rust's integer division does.
pub open spec fn div_toward_zero(a: int, b: nat) -> int {
    if a >= 0 {
        a / (b as int)
    } else {
        -((-a) / (b as int))
    }
}

/// The bit rate in whole kilobits per second, such as `640 kb/s`, or `N/A`.
pub open spec fn bit_rate_text(b: Option<i64>) -> Seq<char> {
    match b {
        Some(x) => int_text(div_toward_zero(x as int, 1000)) + " kb/s"@,
        None => "N/A"@,
    }
}

pub fn file_bit_rate_txt(info: &[Property]) -> (r: String)
    ensures
        r@ == bit_rate_text(bit_rate_of(property_of(properties_view(info@), "bit_rate"@))),
{
    match file_bit_rate(info) {
        Some(b) => {
            let mut out: Vec<char> = Vec::new();
            let k: i64 = if b >= 0 {
                b / 1000
            } else {
                let m: u64 = if b == i64::MIN {
                    9223372036854775808
                } else {
                    (-b) as u64
                };
                -((m / 1000) as i64)
            };
            push_int(&mut out, k);
            push_text(&mut out, " kb/s");
            string_of(out.as_slice())
        },
        None => {
            let out = crate::text::literal("N/A");
            string_of(out.as_slice())
        },
    }
}

/// `n` in decimal, with a leading zero below ten.
pub open spec fn two_digit_text(n: nat) -> Seq<char> {
    if n < 10 {
        seq!['0'] + digits_of(n)
    } else {
        digits_of(n)
    }
}

/// Whole seconds as `HH:MM:SS`, each part at least two digits wide.
pub open spec fn clock_text(secs: nat) -> Seq<char> {
    two_digit_text(secs / 3600) + seq![':'] + two_digit_text((secs % 3600) / 60) + seq![':']
        + two_digit_text(secs % 60)
}

/// Relies on `hhmmss::Hhmmss::hhmmss` for `std::time::Duration`, which
/// writes the whole seconds as `{:02}:{:02}:{:02}` of hours, minutes and
/// seconds.
#[verifier::external_body]
fn hhmmss(us: u64) -> (r: String)
    ensures
        r@ == clock_text((us / 1_000_000) as nat),
{
    std::time::Duration::from_micros(us).hhmmss()
}

/// A duration of `d` microseconds for display, or `N/A`.
pub open spec fn duration_text(d: Option<u64>) -> Seq<char> {
    match d {
        Some(us) => clock_text((us / 1_000_000) as nat),
        None => "N/A"@,
    }
}

/// A duration for display (see `duration_text`).
pub fn duration_txt(d: Option<u64>) -> (r: String)
    ensures
        r@ == duration_text(d),
{
    match d {
        Some(us) => hhmmss(us),
        None => {
            let out = crate::text::literal("N/A");
            string_of(out.as_slice())
        },
    }
}

/// The stream record of the properties `props`; `None` where they name no
/// codec, which is how the prober answers for a file without audio.
pub open spec fn stream_of(props: Seq<(Seq<char>, Seq<char>)>, s: AudioStream) -> bool {
    &&& property_of(props, "codec_name"@) == Some(s.codec_name@)
    &&& s.duration == (match property_of(props, "duration"@) {
        Some(v) => duration_of(v),
        None => None,
    })
    &&& s.bit_rate == bit_rate_of(property_of(props, "bit_rate"@))
    &&& opt_text(s.channels) == property_of(props, "channels"@)
    &&& opt_text(s.channel_layout) == property_of(props, "channel_layout"@)
    &&& opt_text(s.sample_rate) == property_of(props, "sample_rate"@)
}

impl AudioStream {
    /// The stream record of the properties `info` (see `stream_of`).
    pub fn from_properties(info: &[Property]) -> (r: Option<AudioStream>)
        ensures
            match r {
                Some(s) => stream_of(properties_view(info@), s),
                None => property_of(properties_view(info@), "codec_name"@) is None,
            },
    {
        let codec_name = match file_codec_name(info) {
            Some(c) => c,
            None => {
                return None;
            },
        };
        Some(
            AudioStream {
                codec_name,
                duration: file_duration(info),
                bit_rate: file_bit_rate(info),
                channels: file_channels(info),
                channel_layout: file_channel_layout(info),
                sample_rate: file_property(info, "sample_rate"),
            },
        )
    }
}

/// Why the prober's output gave no stream record.
#[derive(Clone, Copy, Debug, PartialEq, Eq, Structural)]
pub enum ProbeError {
    /// The output is not a list of properties.
    Unparsable,
    /// The output names no codec: the file holds no audio stream.
    NoAudioStream,
}

/// The media prober.
pub struct FFprobe {}

impl FFprobe {
    /// The stream record in the prober's `key=value` output.
    pub fn stream_info(output: &[u8]) -> (r: Result<AudioStream, ProbeError>)
        ensures
            match properties_of(output@) {
                None => r == Err::<AudioStream, ProbeError>(ProbeError::Unparsable),
                Some(props) => match r {
                    Ok(s) => stream_of(props, s),
                    Err(e) => e == ProbeError::NoAudioStream && property_of(
                        props,
                        "codec_name"@,
                    ) is None,
                },
            },
    {
        match parse_properties(output) {
            None => Err(ProbeError::Unparsable),
            Some(props) => match AudioStream::from_properties(props.as_slice()) {
                Some(s) => Ok(s),
                None => Err(ProbeError::NoAudioStream),
            },
        }
    }
}

} // verus!
