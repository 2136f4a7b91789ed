//! Which ways of measuring a file's duration are tried, in what order, and which of them apply
//! to a file.
use vstd::prelude::*;
use crate::media_types::{ext_view, lower_ext};
use crate::sniff::DetectedFormat;
use crate::text::{chars_of, eq_text, to_ascii_lower};

verus! {

/// A way of measuring how long a file plays.
#[derive(Clone, Copy, Debug, PartialEq, Eq, Structural)]
pub enum DurationProbe {
    /// The timestamps of the transport-stream runs already found.
    TsRuns,
    /// The timestamps of the transport-stream runs found by reading the file again.
    TsScan,
    /// Asking `ffprobe`.
    Ffprobe,
    /// The header of a WAV file.
    Wav,
    /// The frames of an MP3 file.
    Mp3,
}

/// The ways tried, in order, for a file whose first bytes showed `detected`: the transport
/// stream's own timestamps first for a transport stream, `ffprobe` first otherwise.
pub open spec fn probe_order_of(detected: Option<DetectedFormat>) -> Seq<DurationProbe> {
    if detected == Some(DetectedFormat::MpegTs) {
        seq![DurationProbe::TsRuns, DurationProbe::TsScan, DurationProbe::Ffprobe]
    } else {
        seq![DurationProbe::Ffprobe, DurationProbe::Wav, DurationProbe::Mp3]
    }
}

pub fn duration_probe_order(detected: Option<DetectedFormat>) -> (r: Vec<DurationProbe>)
    ensures
        r@ == probe_order_of(detected),
{
    let mut v: Vec<DurationProbe> = Vec::new();
    if detected == Some(DetectedFormat::MpegTs) {
        v.push(DurationProbe::TsRuns);
        v.push(DurationProbe::TsScan);
        v.push(DurationProbe::Ffprobe);
    } else {
        v.push(DurationProbe::Ffprobe);
        v.push(DurationProbe::Wav);
        v.push(DurationProbe::Mp3);
    }
    assert(v@ =~= probe_order_of(detected));
    v
}

/// Whether a way applies to a file with the extension `ext` (lower-cased) whose first bytes
/// showed `detected`: the format-specific ones where the bytes or the extension name that
/// format.
pub open spec fn probe_applies_to(probe: DurationProbe, ext: Seq<char>, detected: Option<DetectedFormat>) -> bool {
    match probe {
        DurationProbe::TsScan => detected == Some(DetectedFormat::MpegTs) || ext == "ts"@ || ext == "m2ts"@
            || ext == "mts"@,
        DurationProbe::Wav => detected == Some(DetectedFormat::Wav) || ext == "wav"@,
        DurationProbe::Mp3 => detected == Some(DetectedFormat::Mp3) || ext == "mp3"@,
        _ => true,
    }
}

pub fn duration_probe_applies(probe: DurationProbe, extension: Option<&str>, detected: Option<DetectedFormat>) -> (r: bool)
    ensures
        r == probe_applies_to(probe, lower_ext(ext_view(extension)), detected),
{
    let ext = match extension {
        Some(e) => to_ascii_lower(&chars_of(e)),
        None => Vec::new(),
    };
    match probe {
        DurationProbe::TsScan => detected == Some(DetectedFormat::MpegTs) || eq_text(&ext, "ts")
            || eq_text(&ext, "m2ts") || eq_text(&ext, "mts"),
        DurationProbe::Wav => detected == Some(DetectedFormat::Wav) || eq_text(&ext, "wav"),
        DurationProbe::Mp3 => detected == Some(DetectedFormat::Mp3) || eq_text(&ext, "mp3"),
        _ => true,
    }
}

} // verus!
