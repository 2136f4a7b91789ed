//! What kind of media a file is: its MIME type for the player, and how the library tree shows it.
//!
//! A file's extension is what `Path::extension` gives for it (without the dot); its sniffed
//! format is what `sniff::sniff_file_format` found in its first bytes.
use vstd::prelude::*;
use crate::sniff::DetectedFormat;
use crate::text::{ascii_lower, chars_of, eq_text, to_ascii_lower};

verus! {

/// The view of an optional extension.
pub open spec fn ext_view(e: Option<&str>) -> Option<Seq<char>> {
    match e {
        Some(s) => Some(s@),
        None => None,
    }
}

/// The extension lower-cased for matching, empty where there is none
/// (`extension().map(to_ascii_lowercase).unwrap_or_default()`).
pub open spec fn lower_ext(e: Option<Seq<char>>) -> Seq<char> {
    match e {
        Some(s) => ascii_lower(s),
        None => Seq::empty(),
    }
}

fn lower_ext_exec(extension: Option<&str>) -> (r: Vec<char>)
    ensures
        r@ == lower_ext(ext_view(extension)),
{
    match extension {
        Some(e) => to_ascii_lower(&chars_of(e)),
        None => Vec::new(),
    }
}

/// The MIME type of an office document or PDF, by lower-cased extension.
pub open spec fn document_mime_of(ext: Seq<char>) -> Option<Seq<char>> {
    if ext == "pdf"@ {
        Some("application/pdf"@)
    } else if ext == "docx"@ {
        Some("application/vnd.openxmlformats-officedocument.wordprocessingml.document"@)
    } else if ext == "doc"@ {
        Some("application/msword"@)
    } else if ext == "xlsx"@ {
        Some("application/vnd.openxmlformats-officedocument.spreadsheetml.sheet"@)
    } else if ext == "xls"@ {
        Some("application/vnd.ms-excel"@)
    } else if ext == "pptx"@ {
        Some("application/vnd.openxmlformats-officedocument.presentationml.presentation"@)
    } else if ext == "ppt"@ {
        Some("application/vnd.ms-powerpoint"@)
    } else {
        None
    }
}

pub open spec fn opt_static_view(r: Option<&'static str>) -> Option<Seq<char>> {
    match r {
        Some(s) => Some(s@),
        None => None,
    }
}

/// The MIME type of a document, from the file's extension (any ASCII case).
pub fn document_mime_for_path(extension: Option<&str>) -> (r: Option<&'static str>)
    ensures
        opt_static_view(r) == document_mime_of(lower_ext(ext_view(extension))),
{
    let ext = lower_ext_exec(extension);
    if eq_text(&ext, "pdf") {
        Some("application/pdf")
    } else if eq_text(&ext, "docx") {
        Some("application/vnd.openxmlformats-officedocument.wordprocessingml.document")
    } else if eq_text(&ext, "doc") {
        Some("application/msword")
    } else if eq_text(&ext, "xlsx") {
        Some("application/vnd.openxmlformats-officedocument.spreadsheetml.sheet")
    } else if eq_text(&ext, "xls") {
        Some("application/vnd.ms-excel")
    } else if eq_text(&ext, "pptx") {
        Some("application/vnd.openxmlformats-officedocument.presentationml.presentation")
    } else if eq_text(&ext, "ppt") {
        Some("application/vnd.ms-powerpoint")
    } else {
        None
    }
}

/// The MIME type of a sniffed container.
pub open spec fn detected_mime(f: DetectedFormat) -> Seq<char> {
    match f {
        DetectedFormat::MpegTs => "video/mp2t"@,
        DetectedFormat::Mp4 => "video/mp4"@,
        DetectedFormat::Webm => "video/webm"@,
        DetectedFormat::Mp3 => "audio/mpeg"@,
        DetectedFormat::Wav => "audio/wav"@,
        DetectedFormat::Flac => "audio/flac"@,
        DetectedFormat::Ogg => "audio/ogg"@,
    }
}

pub fn mime_for_detected_format(format: DetectedFormat) -> (r: &'static str)
    ensures
        r@ == detected_mime(format),
{
    match format {
        DetectedFormat::MpegTs => "video/mp2t",
        DetectedFormat::Mp4 => "video/mp4",
        DetectedFormat::Webm => "video/webm",
        DetectedFormat::Mp3 => "audio/mpeg",
        DetectedFormat::Wav => "audio/wav",
        DetectedFormat::Flac => "audio/flac",
        DetectedFormat::Ogg => "audio/ogg",
    }
}

/// The MIME type that a lower-cased extension alone suggests.
pub open spec fn extension_mime(ext: Seq<char>) -> Seq<char> {
    if ext == "ts"@ || ext == "m2ts"@ || ext == "mts"@ {
        "video/mp2t"@
    } else if ext == "m3u8"@ {
        "application/vnd.apple.mpegurl"@
    } else if ext == "mp4"@ || ext == "m4v"@ || ext == "sz"@ {
        "video/mp4"@
    } else if ext == "webm"@ {
        "video/webm"@
    } else if ext == "ogv"@ {
        "video/ogg"@
    } else if ext == "mp3"@ {
        "audio/mpeg"@
    } else if ext == "wav"@ {
        "audio/wav"@
    } else if ext == "ogg"@ {
        "audio/ogg"@
    } else if ext == "flac"@ {
        "audio/flac"@
    } else if ext == "m4a"@ || ext == "aac"@ {
        "audio/aac"@
    } else if ext == "opus"@ {
        "audio/opus"@
    } else if ext == "wma"@ {
        "audio/x-ms-wma"@
    } else if ext == "vtt"@ {
        "text/vtt; charset=utf-8"@
    } else if ext == "srt"@ {
        "application/x-subrip; charset=utf-8"@
    } else if ext == "ass"@ {
        "text/plain; charset=utf-8"@
    } else {
        "application/octet-stream"@
    }
}

/// The MIME type a file is served with: a document by its extension first, then the sniffed
/// container, then the extension.
pub open spec fn mime_of(ext: Option<Seq<char>>, detected: Option<DetectedFormat>) -> Seq<char> {
    match document_mime_of(lower_ext(ext)) {
        Some(m) => m,
        None => match detected {
            Some(f) => detected_mime(f),
            None => extension_mime(lower_ext(ext)),
        },
    }
}

fn extension_mime_exec(ext: &Vec<char>) -> (r: &'static str)
    ensures
        r@ == extension_mime(ext@),
{
    if eq_text(ext, "ts") || eq_text(ext, "m2ts") || eq_text(ext, "mts") {
        "video/mp2t"
    } else if eq_text(ext, "m3u8") {
        "application/vnd.apple.mpegurl"
    } else if eq_text(ext, "mp4") || eq_text(ext, "m4v") || eq_text(ext, "sz") {
        "video/mp4"
    } else if eq_text(ext, "webm") {
        "video/webm"
    } else if eq_text(ext, "ogv") {
        "video/ogg"
    } else if eq_text(ext, "mp3") {
        "audio/mpeg"
    } else if eq_text(ext, "wav") {
        "audio/wav"
    } else if eq_text(ext, "ogg") {
        "audio/ogg"
    } else if eq_text(ext, "flac") {
        "audio/flac"
    } else if eq_text(ext, "m4a") || eq_text(ext, "aac") {
        "audio/aac"
    } else if eq_text(ext, "opus") {
        "audio/opus"
    } else if eq_text(ext, "wma") {
        "audio/x-ms-wma"
    } else if eq_text(ext, "vtt") {
        "text/vtt; charset=utf-8"
    } else if eq_text(ext, "srt") {
        "application/x-subrip; charset=utf-8"
    } else if eq_text(ext, "ass") {
        "text/plain; charset=utf-8"
    } else {
        "application/octet-stream"
    }
}

/// The MIME type a file is served with (see `mime_of`).
pub fn mime_for_path(extension: Option<&str>, detected_format: Option<DetectedFormat>) -> (r: &'static str)
    ensures
        r@ == mime_of(ext_view(extension), detected_format),
{
    if let Some(mime) = document_mime_for_path(extension) {
        return mime;
    }
    if let Some(format) = detected_format {
        return mime_for_detected_format(format);
    }
    let ext = lower_ext_exec(extension);
    extension_mime_exec(&ext)
}

/// A document's extension decides its MIME type, whatever its bytes look like.
pub proof fn lemma_document_extension_wins(ext: Option<Seq<char>>, detected: Option<DetectedFormat>)
    requires
        document_mime_of(lower_ext(ext)) is Some,
    ensures
        mime_of(ext, detected) == document_mime_of(lower_ext(ext))->0,
{
}

/// How the library tree shows a file: its kind, whether it can be opened, and the engine that
/// plays it.
#[derive(Clone, Copy, Debug)]
pub struct Classification {
    pub kind: &'static str,
    pub playable: bool,
    pub engine: &'static str,
}

/// The view of a classification.
pub open spec fn class_view(c: Classification) -> (Seq<char>, bool, Seq<char>) {
    (c.kind@, c.playable, c.engine@)
}

/// The character that Unicode lower-casing turns `c` into, where that is a single ASCII
/// character: `A`-`Z` and the Kelvin sign (to `k`). Every other character lower-cases to itself
/// or to text that is not all ASCII, and the extensions below are matched against ASCII text
/// only, so folding those characters to themselves gives the same matches.
pub open spec fn ext_fold(c: char) -> char {
    if 'A' <= c && c <= 'Z' {
        ((c as u32) + 32) as char
    } else if c == '\u{212a}' {
        'k'
    } else {
        c
    }
}

/// `.` and the extension lower-cased, or empty where the name has no extension
/// (`format!(".{}", ext.to_lowercase())`, compared with ASCII text).
pub open spec fn dotted_ext(e: Option<Seq<char>>) -> Seq<char> {
    match e {
        Some(s) => seq!['.'] + Seq::new(s.len(), |i: int| ext_fold(s[i])),
        None => Seq::empty(),
    }
}

fn fold_char(c: char) -> (r: char)
    ensures
        r == ext_fold(c),
{
    if 'A' <= c && c <= 'Z' {
        ((c as u32 + 32) as u8) as char
    } else if c == '\u{212a}' {
        'k'
    } else {
        c
    }
}

fn dotted_ext_exec(extension: Option<&str>) -> (r: Vec<char>)
    ensures
        r@ == dotted_ext(ext_view(extension)),
{
    match extension {
        None => Vec::new(),
        Some(e) => {
            let v = chars_of(e);
            let mut r: Vec<char> = Vec::new();
            r.push('.');
            let mut i: usize = 0;
            while i < v.len()
                invariant
                    i <= v@.len(),
                    v@ == e@,
                    r@ == seq!['.'] + Seq::new(i as nat, |k: int| ext_fold(v@[k])),
                decreases v.len() - i,
            {
                r.push(fold_char(v[i]));
                i += 1;
                assert(r@ =~= seq!['.'] + Seq::new(i as nat, |k: int| ext_fold(v@[k])));
            }
            r
        },
    }
}

/// Extensions, with their dot, of office documents and PDFs.
pub open spec fn is_document_ext(ext: Seq<char>) -> bool {
    ext == ".pdf"@ || ext == ".docx"@ || ext == ".doc"@ || ext == ".xlsx"@ || ext == ".xls"@
        || ext == ".pptx"@ || ext == ".ppt"@
}

pub fn is_document_extension(ext: &str) -> (r: bool)
    ensures
        r == is_document_ext(ext@),
{
    let v = chars_of(ext);
    is_document_chars(&v)
}

fn is_document_chars(v: &Vec<char>) -> (r: bool)
    ensures
        r == is_document_ext(v@),
{
    eq_text(v, ".pdf") || eq_text(v, ".docx") || eq_text(v, ".doc") || eq_text(v, ".xlsx")
        || eq_text(v, ".xls") || eq_text(v, ".pptx") || eq_text(v, ".ppt")
}

/// How a sniffed container is shown.
pub open spec fn format_class(f: DetectedFormat) -> (Seq<char>, bool, Seq<char>) {
    match f {
        DetectedFormat::MpegTs => ("video"@, true, "mpegts"@),
        DetectedFormat::Mp4 | DetectedFormat::Webm => ("video"@, true, "web-video"@),
        _ => ("audio"@, true, "web-video"@),
    }
}

pub fn classify_format(format: DetectedFormat) -> (r: Classification)
    ensures
        class_view(r) == format_class(format),
{
    match format {
        DetectedFormat::MpegTs => Classification { kind: "video", playable: true, engine: "mpegts" },
        DetectedFormat::Mp4 | DetectedFormat::Webm => Classification {
            kind: "video",
            playable: true,
            engine: "web-video",
        },
        DetectedFormat::Mp3 | DetectedFormat::Wav | DetectedFormat::Flac | DetectedFormat::Ogg => {
            Classification { kind: "audio", playable: true, engine: "web-video" }
        },
    }
}

/// How an extension (with its dot, lower-cased) alone is shown.
pub open spec fn extension_class(ext: Seq<char>) -> (Seq<char>, bool, Seq<char>) {
    if ext == ".ts"@ || ext == ".m2ts"@ || ext == ".mts"@ {
        ("video"@, true, "mpegts"@)
    } else if ext == ".m3u8"@ {
        ("video"@, true, "easy-player"@)
    } else if ext == ".mp4"@ || ext == ".m4v"@ || ext == ".webm"@ || ext == ".ogv"@ || ext == ".sz"@ {
        ("video"@, true, "web-video"@)
    } else if ext == ".mp3"@ || ext == ".wav"@ || ext == ".ogg"@ || ext == ".flac"@ || ext == ".m4a"@
        || ext == ".aac"@ || ext == ".opus"@ || ext == ".wma"@ {
        ("audio"@, true, "web-video"@)
    } else if ext == ".mkv"@ || ext == ".avi"@ || ext == ".flv"@ || ext == ".mov"@ || ext == ".wmv"@
        || ext == ".rmvb"@ || ext == ".vob"@ || ext == ".3gp"@ || ext == ".mpeg"@ || ext == ".mpg"@ {
        ("video"@, true, "mpv"@)
    } else if ext == ".srt"@ || ext == ".ass"@ || ext == ".vtt"@ {
        ("subtitle"@, false, "unsupported"@)
    } else {
        ("unknown"@, false, "unsupported"@)
    }
}

/// How a file is shown: documents by their extension, then by the sniffed container, then by
/// the extension.
pub open spec fn file_class(ext: Option<Seq<char>>, sniffed: Option<DetectedFormat>) -> (Seq<char>, bool, Seq<char>) {
    if is_document_ext(dotted_ext(ext)) {
        ("document"@, true, "document"@)
    } else {
        match sniffed {
            Some(f) => format_class(f),
            None => extension_class(dotted_ext(ext)),
        }
    }
}

fn extension_class_exec(ext: &Vec<char>) -> (r: Classification)
    ensures
        class_view(r) == extension_class(ext@),
{
    if eq_text(ext, ".ts") || eq_text(ext, ".m2ts") || eq_text(ext, ".mts") {
        Classification { kind: "video", playable: true, engine: "mpegts" }
    } else if eq_text(ext, ".m3u8") {
        Classification { kind: "video", playable: true, engine: "easy-player" }
    } else if eq_text(ext, ".mp4") || eq_text(ext, ".m4v") || eq_text(ext, ".webm") || eq_text(
        ext,
        ".ogv",
    ) || eq_text(ext, ".sz") {
        Classification { kind: "video", playable: true, engine: "web-video" }
    } else if eq_text(ext, ".mp3") || eq_text(ext, ".wav") || eq_text(ext, ".ogg") || eq_text(
        ext,
        ".flac",
    ) || eq_text(ext, ".m4a") || eq_text(ext, ".aac") || eq_text(ext, ".opus") || eq_text(
        ext,
        ".wma",
    ) {
        Classification { kind: "audio", playable: true, engine: "web-video" }
    } else if eq_text(ext, ".mkv") || eq_text(ext, ".avi") || eq_text(ext, ".flv") || eq_text(
        ext,
        ".mov",
    ) || eq_text(ext, ".wmv") || eq_text(ext, ".rmvb") || eq_text(ext, ".vob") || eq_text(
        ext,
        ".3gp",
    ) || eq_text(ext, ".mpeg") || eq_text(ext, ".mpg") {
        Classification { kind: "video", playable: true, engine: "mpv" }
    } else if eq_text(ext, ".srt") || eq_text(ext, ".ass") || eq_text(ext, ".vtt") {
        Classification { kind: "subtitle", playable: false, engine: "unsupported" }
    } else {
        Classification { kind: "unknown", playable: false, engine: "unsupported" }
    }
}

/// How the library shows a file with the extension `extension` (from its name) whose first
/// bytes showed `sniffed` (see `file_class`). Whatever was sniffed is not consulted for a
/// document.
pub fn classify_file(extension: Option<&str>, sniffed: Option<DetectedFormat>) -> (r: Classification)
    ensures
        class_view(r) == file_class(ext_view(extension), sniffed),
{
    let ext = dotted_ext_exec(extension);
    if is_document_chars(&ext) {
        return Classification { kind: "document", playable: true, engine: "document" };
    }
    if let Some(format) = sniffed {
        return classify_format(format);
    }
    extension_class_exec(&ext)
}

} // verus!
