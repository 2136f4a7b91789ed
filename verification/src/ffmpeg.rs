//! Converting a file FFmpeg can read into an MP4 the player can show: the strategies tried in
//! turn, the arguments FFmpeg gets, the error when every strategy failed, and where FFmpeg is
//! looked for.
use vstd::prelude::*;
use crate::ffmpeg_log::{chars_texts, joined, texts_of, join_texts};
use crate::text::{chars_of, contains, contains_text, has_prefix, push_text, starts_with, string_of};

verus! {

/// The texts of a list of string slices.
pub open spec fn static_texts(v: Seq<&'static str>) -> Seq<Seq<char>> {
    v.map_values(|s: &'static str| s@)
}

pub open spec fn leading_args() -> Seq<Seq<char>> {
    seq![
        "-hide_banner"@,
        "-y"@,
        "-fflags"@,
        "+genpts+discardcorrupt"@,
        "-err_detect"@,
        "ignore_err"@,
        "-analyzeduration"@,
        "100M"@,
        "-probesize"@,
        "100M"@,
        "-i"@,
    ]
}

/// The arguments given to FFmpeg before the input path, whatever the strategy.
pub fn ffmpeg_leading_args() -> (r: Vec<&'static str>)
    ensures
        static_texts(r@) == leading_args(),
{
    let mut v: Vec<&'static str> = Vec::new();
    v.push("-hide_banner");
    v.push("-y");
    v.push("-fflags");
    v.push("+genpts+discardcorrupt");
    v.push("-err_detect");
    v.push("ignore_err");
    v.push("-analyzeduration");
    v.push("100M");
    v.push("-probesize");
    v.push("100M");
    v.push("-i");
    assert(static_texts(v@) =~= leading_args());
    v
}

/// The FFmpeg output arguments of the strategy "NVIDIA 硬件转码 1080P".
pub open spec fn nvenc_1080p_args() -> Seq<Seq<char>> {
    seq![
        "-map"@,
        "0:v:0"@,
        "-map"@,
        "0:a?"@,
        "-map_metadata"@,
        "0"@,
        "-vf"@,
        "scale=w=1920:h=1080:force_original_aspect_ratio=decrease:force_divisible_by=2,setsar=1"@,
        "-c:v"@,
        "h264_nvenc"@,
        "-preset"@,
        "p4"@,
        "-cq"@,
        "23"@,
        "-profile:v"@,
        "main"@,
        "-pix_fmt"@,
        "yuv420p"@,
        "-c:a"@,
        "aac"@,
        "-b:a"@,
        "128k"@,
        "-ac"@,
        "2"@,
        "-ar"@,
        "44100"@,
        "-af"@,
        "aresample=async=1:first_pts=0"@,
        "-avoid_negative_ts"@,
        "make_zero"@,
        "-max_muxing_queue_size"@,
        "2048"@,
        "-movflags"@,
        "+faststart"@,
    ]
}

fn nvenc_1080p_arg_list() -> (r: Vec<&'static str>)
    ensures
        static_texts(r@) == nvenc_1080p_args(),
{
    let mut v: Vec<&'static str> = Vec::new();
    v.push("-map");
    v.push("0:v:0");
    v.push("-map");
    v.push("0:a?");
    v.push("-map_metadata");
    v.push("0");
    v.push("-vf");
    v.push("scale=w=1920:h=1080:force_original_aspect_ratio=decrease:force_divisible_by=2,setsar=1");
    v.push("-c:v");
    v.push("h264_nvenc");
    v.push("-preset");
    v.push("p4");
    v.push("-cq");
    v.push("23");
    v.push("-profile:v");
    v.push("main");
    v.push("-pix_fmt");
    v.push("yuv420p");
    v.push("-c:a");
    v.push("aac");
    v.push("-b:a");
    v.push("128k");
    v.push("-ac");
    v.push("2");
    v.push("-ar");
    v.push("44100");
    v.push("-af");
    v.push("aresample=async=1:first_pts=0");
    v.push("-avoid_negative_ts");
    v.push("make_zero");
    v.push("-max_muxing_queue_size");
    v.push("2048");
    v.push("-movflags");
    v.push("+faststart");
    assert(static_texts(v@) =~= nvenc_1080p_args());
    v
}

/// The FFmpeg output arguments of the strategy "兼容软转码 1080P".
pub open spec fn software_1080p_args() -> Seq<Seq<char>> {
    seq![
        "-map"@,
        "0:v:0"@,
        "-map"@,
        "0:a?"@,
        "-map_metadata"@,
        "0"@,
        "-vf"@,
        "scale=w=1920:h=1080:force_original_aspect_ratio=decrease:force_divisible_by=2,setsar=1"@,
        "-c:v"@,
        "libx264"@,
        "-preset"@,
        "veryfast"@,
        "-crf"@,
        "23"@,
        "-profile:v"@,
        "main"@,
        "-level"@,
        "4.1"@,
        "-pix_fmt"@,
        "yuv420p"@,
        "-c:a"@,
        "aac"@,
        "-b:a"@,
        "128k"@,
        "-ac"@,
        "2"@,
        "-ar"@,
        "44100"@,
        "-af"@,
        "aresample=async=1:first_pts=0"@,
        "-avoid_negative_ts"@,
        "make_zero"@,
        "-max_muxing_queue_size"@,
        "2048"@,
        "-movflags"@,
        "+faststart"@,
    ]
}

fn software_1080p_arg_list() -> (r: Vec<&'static str>)
    ensures
        static_texts(r@) == software_1080p_args(),
{
    let mut v: Vec<&'static str> = Vec::new();
    v.push("-map");
    v.push("0:v:0");
    v.push("-map");
    v.push("0:a?");
    v.push("-map_metadata");
    v.push("0");
    v.push("-vf");
    v.push("scale=w=1920:h=1080:force_original_aspect_ratio=decrease:force_divisible_by=2,setsar=1");
    v.push("-c:v");
    v.push("libx264");
    v.push("-preset");
    v.push("veryfast");
    v.push("-crf");
    v.push("23");
    v.push("-profile:v");
    v.push("main");
    v.push("-level");
    v.push("4.1");
    v.push("-pix_fmt");
    v.push("yuv420p");
    v.push("-c:a");
    v.push("aac");
    v.push("-b:a");
    v.push("128k");
    v.push("-ac");
    v.push("2");
    v.push("-ar");
    v.push("44100");
    v.push("-af");
    v.push("aresample=async=1:first_pts=0");
    v.push("-avoid_negative_ts");
    v.push("make_zero");
    v.push("-max_muxing_queue_size");
    v.push("2048");
    v.push("-movflags");
    v.push("+faststart");
    assert(static_texts(v@) =~= software_1080p_args());
    v
}

/// The FFmpeg output arguments of the strategy "保守软转码 720P".
pub open spec fn conservative_720p_args() -> Seq<Seq<char>> {
    seq![
        "-map"@,
        "0:v:0"@,
        "-map"@,
        "0:a?"@,
        "-map_metadata"@,
        "0"@,
        "-vf"@,
        "scale=w=1280:h=720:force_original_aspect_ratio=decrease:force_divisible_by=2,setsar=1"@,
        "-c:v"@,
        "libx264"@,
        "-preset"@,
        "faster"@,
        "-crf"@,
        "24"@,
        "-profile:v"@,
        "main"@,
        "-level"@,
        "4.0"@,
        "-pix_fmt"@,
        "yuv420p"@,
        "-c:a"@,
        "aac"@,
        "-b:a"@,
        "128k"@,
        "-ac"@,
        "2"@,
        "-ar"@,
        "44100"@,
        "-af"@,
        "aresample=async=1:first_pts=0"@,
        "-avoid_negative_ts"@,
        "make_zero"@,
        "-max_muxing_queue_size"@,
        "2048"@,
        "-movflags"@,
        "+faststart"@,
    ]
}

fn conservative_720p_arg_list() -> (r: Vec<&'static str>)
    ensures
        static_texts(r@) == conservative_720p_args(),
{
    let mut v: Vec<&'static str> = Vec::new();
    v.push("-map");
    v.push("0:v:0");
    v.push("-map");
    v.push("0:a?");
    v.push("-map_metadata");
    v.push("0");
    v.push("-vf");
    v.push("scale=w=1280:h=720:force_original_aspect_ratio=decrease:force_divisible_by=2,setsar=1");
    v.push("-c:v");
    v.push("libx264");
    v.push("-preset");
    v.push("faster");
    v.push("-crf");
    v.push("24");
    v.push("-profile:v");
    v.push("main");
    v.push("-level");
    v.push("4.0");
    v.push("-pix_fmt");
    v.push("yuv420p");
    v.push("-c:a");
    v.push("aac");
    v.push("-b:a");
    v.push("128k");
    v.push("-ac");
    v.push("2");
    v.push("-ar");
    v.push("44100");
    v.push("-af");
    v.push("aresample=async=1:first_pts=0");
    v.push("-avoid_negative_ts");
    v.push("make_zero");
    v.push("-max_muxing_queue_size");
    v.push("2048");
    v.push("-movflags");
    v.push("+faststart");
    assert(static_texts(v@) =~= conservative_720p_args());
    v
}

/// The FFmpeg output arguments of the strategy "快速重封装".
pub open spec fn remux_args() -> Seq<Seq<char>> {
    seq![
        "-map"@,
        "0:v:0"@,
        "-map"@,
        "0:a?"@,
        "-map_metadata"@,
        "0"@,
        "-c"@,
        "copy"@,
        "-bsf:a"@,
        "aac_adtstoasc"@,
        "-avoid_negative_ts"@,
        "make_zero"@,
        "-movflags"@,
        "+faststart"@,
    ]
}

fn remux_arg_list() -> (r: Vec<&'static str>)
    ensures
        static_texts(r@) == remux_args(),
{
    let mut v: Vec<&'static str> = Vec::new();
    v.push("-map");
    v.push("0:v:0");
    v.push("-map");
    v.push("0:a?");
    v.push("-map_metadata");
    v.push("0");
    v.push("-c");
    v.push("copy");
    v.push("-bsf:a");
    v.push("aac_adtstoasc");
    v.push("-avoid_negative_ts");
    v.push("make_zero");
    v.push("-movflags");
    v.push("+faststart");
    assert(static_texts(v@) =~= remux_args());
    v
}
/// One way of asking FFmpeg for a compatible MP4: its name and its output arguments.
#[derive(Clone, Debug)]
pub struct TranscodeStrategy {
    pub name: &'static str,
    pub args: Vec<&'static str>,
}

/// The names of the strategies, in the order they are tried: hardware encoding, software
/// encoding, a smaller software encoding, and copying the streams into a new container.
pub open spec fn strategy_names() -> Seq<Seq<char>> {
    seq!["NVIDIA 硬件转码 1080P"@, "兼容软转码 1080P"@, "保守软转码 720P"@, "快速重封装"@]
}

/// The output arguments of the strategy tried `i`-th.
pub open spec fn strategy_args(i: int) -> Seq<Seq<char>> {
    if i == 0 {
        nvenc_1080p_args()
    } else if i == 1 {
        software_1080p_args()
    } else if i == 2 {
        conservative_720p_args()
    } else {
        remux_args()
    }
}

/// The strategies, in the order they are tried.
pub fn transcode_strategies() -> (r: Vec<TranscodeStrategy>)
    ensures
        r@.len() == 4,
        forall|i: int| 0 <= i < 4 ==> #[trigger] r@[i].name@ == strategy_names()[i] && static_texts(r@[i].args@) == strategy_args(i),
{
    let mut v: Vec<TranscodeStrategy> = Vec::new();
    v.push(TranscodeStrategy { name: "NVIDIA 硬件转码 1080P", args: nvenc_1080p_arg_list() });
    v.push(TranscodeStrategy { name: "兼容软转码 1080P", args: software_1080p_arg_list() });
    v.push(TranscodeStrategy { name: "保守软转码 720P", args: conservative_720p_arg_list() });
    v.push(TranscodeStrategy { name: "快速重封装", args: remux_arg_list() });
    v
}

/// The extension of the file a strategy writes before it is kept.
pub fn transcode_temp_extension(name: &str) -> (r: String)
    ensures
        r@ == name@ + ".mp4.tmp"@,
{
    let mut s = String::new();
    push_text(&mut s, name);
    push_text(&mut s, ".mp4.tmp");
    s
}

/// How a failed strategy is reported: its name, FFmpeg's exit status and, where there is one,
/// the diagnosis of its output.
pub open spec fn failure_entry(name: Seq<char>, status: Seq<char>, diagnostic: Option<Seq<char>>) -> Seq<char> {
    match diagnostic {
        Some(m) => name + "："@ + status + "（"@ + m + "）"@,
        None => name + "："@ + status,
    }
}

pub open spec fn opt_text(t: Option<&str>) -> Option<Seq<char>> {
    match t {
        Some(s) => Some(s@),
        None => None,
    }
}

pub fn transcode_failure_entry(name: &str, status: &str, diagnostic: Option<&str>) -> (r: String)
    ensures
        r@ == failure_entry(name@, status@, opt_text(diagnostic)),
{
    let mut s = String::new();
    push_text(&mut s, name);
    push_text(&mut s, "：");
    push_text(&mut s, status);
    if let Some(m) = diagnostic {
        push_text(&mut s, "（");
        push_text(&mut s, m);
        push_text(&mut s, "）");
    }
    s
}

/// The marker of a failure caused by video frames that are not standard H.264.
pub open spec fn nonstandard_h264_marker() -> Seq<char> {
    "不是标准 H.264 NAL 数据"@
}

/// The error when every strategy failed, listing the failures; it names the non-standard frames
/// when a failure did.
pub open spec fn transcode_failure_text(failures: Seq<Seq<char>>) -> Seq<char> {
    if exists|i: int| 0 <= i < failures.len() && contains(#[trigger] failures[i], nonstandard_h264_marker()) {
        "FFmpeg 已完整尝试转码和重封装，但当前 .sz 的视频帧不是公开标准 H.264 NAL 数据，音频帧也无法按标准 AAC 解码。已尝试 "@
            + joined(failures, "；"@)
    } else {
        "FFmpeg 转码失败，已尝试 "@ + joined(failures, "；"@)
    }
}

pub fn transcode_failure_message(failures: &Vec<String>) -> (r: String)
    ensures
        r@ == transcode_failure_text(texts_of(failures@)),
{
    let mut found = false;
    let mut i: usize = 0;
    while i < failures.len()
        invariant
            i <= failures@.len(),
            found == (exists|k: int| 0 <= k < i && contains(#[trigger] texts_of(failures@)[k], nonstandard_h264_marker())),
        decreases failures.len() - i,
    {
        if contains_text(&chars_of(failures[i].as_str()), "不是标准 H.264 NAL 数据") {
            found = true;
        }
        assert(texts_of(failures@)[i as int] == failures@[i as int]@);
        i += 1;
    }
    let list = join_texts(failures, "；");
    let mut s = String::new();
    if found {
        push_text(&mut s, "FFmpeg 已完整尝试转码和重封装，但当前 .sz 的视频帧不是公开标准 H.264 NAL 数据，音频帧也无法按标准 AAC 解码。已尝试 ");
    } else {
        push_text(&mut s, "FFmpeg 转码失败，已尝试 ");
    }
    push_text(&mut s, list.as_str());
    s
}

/// The error when FFmpeg is nowhere to be found.
pub open spec fn ffmpeg_missing_text() -> Seq<char> {
    "未找到 FFmpeg。请安装 FFmpeg、安装格式工厂，或把 ffmpeg.exe 放到项目根目录/bin/src-tauri/binaries；也可以设置 OPEN_COURSE_PLAYER_FFMPEG 指向 ffmpeg.exe"@
}

pub open spec fn opt_string(t: Option<String>) -> Option<Seq<char>> {
    match t {
        Some(s) => Some(s@),
        None => None,
    }
}

/// Which FFmpeg is run: the one the user configured, else one found beside the program or in
/// a known place, else `ffmpeg` from the search path where it runs there.
pub fn ffmpeg_path(configured: Option<String>, bundled: Option<String>, on_search_path: bool) -> (r: Result<String, String>)
    ensures
        configured is Some ==> (r matches Ok(p) && Some(p@) == opt_string(configured)),
        configured is None && bundled is Some ==> (r matches Ok(p) && Some(p@) == opt_string(bundled)),
        configured is None && bundled is None && on_search_path ==> (r matches Ok(p) && p@ == "ffmpeg"@),
        configured is None && bundled is None && !on_search_path ==> (r matches Err(e) && e@ == ffmpeg_missing_text()),
{
    if let Some(p) = configured {
        return Ok(p);
    }
    if let Some(p) = bundled {
        return Ok(p);
    }
    if on_search_path {
        return Ok(String::from_str("ffmpeg"));
    }
    Err(String::from_str("未找到 FFmpeg。请安装 FFmpeg、安装格式工厂，或把 ffmpeg.exe 放到项目根目录/bin/src-tauri/binaries；也可以设置 OPEN_COURSE_PLAYER_FFMPEG 指向 ffmpeg.exe"))
}

/// The first candidate that is a file: `candidates` pairs each path with whether a file is
/// there.
pub fn bundled_or_known_ffmpeg_path(candidates: &Vec<(String, bool)>) -> (r: Option<String>)
    ensures
        match r {
            Some(p) => exists|i: int| 0 <= i < candidates@.len() && (#[trigger] candidates@[i]).1 && candidates@[i].0@ == p@
                && forall|j: int| 0 <= j < i ==> !(#[trigger] candidates@[j]).1,
            None => forall|i: int| 0 <= i < candidates@.len() ==> !(#[trigger] candidates@[i]).1,
        },
{
    let mut i: usize = 0;
    while i < candidates.len()
        invariant
            i <= candidates@.len(),
            forall|j: int| 0 <= j < i ==> !(#[trigger] candidates@[j]).1,
        decreases candidates.len() - i,
    {
        if candidates[i].1 {
            let p = candidates[i].0.clone();
            assert(candidates@[i as int].1);
            return Some(p);
        }
        i += 1;
    }
    None
}


/// Whether `c` separates path components on a system whose own separator is `sep` (`/`
/// separates everywhere).
pub open spec fn is_path_sep(c: char, sep: char) -> bool {
    c == '/' || c == sep
}

/// The relative name `name` appended to the directory `base`, as `PathBuf::push` appends it:
/// a separator goes between them unless `base` is empty or already ends with one.
pub open spec fn join_path(base: Seq<char>, name: Seq<char>, sep: char) -> Seq<char> {
    if base.len() == 0 || is_path_sep(base.last(), sep) {
        base + name
    } else {
        base + seq![sep] + name
    }
}

/// `base` with each of `names` appended in turn.
pub open spec fn join_all(base: Seq<char>, names: Seq<Seq<char>>, sep: char) -> Seq<char>
    decreases names.len(),
{
    if names.len() == 0 {
        base
    } else {
        join_all(join_path(base, names[0], sep), names.drop_first(), sep)
    }
}

fn join_chars(base: &Vec<char>, name: &Vec<char>, sep: char) -> (r: Vec<char>)
    ensures
        r@ == join_path(base@, name@, sep),
{
    let mut r: Vec<char> = Vec::new();
    let mut i: usize = 0;
    while i < base.len()
        invariant
            i <= base@.len(),
            r@ == base@.take(i as int),
        decreases base.len() - i,
    {
        r.push(base[i]);
        i += 1;
        assert(r@ =~= base@.take(i as int));
    }
    assert(base@.take(base@.len() as int) =~= base@);
    if base.len() > 0 && base[base.len() - 1] != '/' && base[base.len() - 1] != sep {
        r.push(sep);
    }
    let mut k: usize = 0;
    let ghost head = r@;
    while k < name.len()
        invariant
            k <= name@.len(),
            r@ == head + name@.take(k as int),
        decreases name.len() - k,
    {
        r.push(name[k]);
        k += 1;
        assert(r@ =~= head + name@.take(k as int));
    }
    assert(name@.take(name@.len() as int) =~= name@);
    r
}


proof fn lemma_join_all_unfold(base: Seq<char>, names: Seq<Seq<char>>, sep: char)
    requires
        names.len() > 0,
    ensures
        join_all(base, names, sep) == join_all(join_path(base, names[0], sep), names.drop_first(), sep),
{
}

fn join1(base: &Vec<char>, a: &str, sep: char) -> (r: Vec<char>)
    ensures
        r@ == join_all(base@, seq![a@], sep),
{
    let r = join_chars(base, &chars_of(a), sep);
    proof {
        lemma_join_all_unfold(base@, seq![a@], sep);
        assert(seq![a@].drop_first() =~= Seq::<Seq<char>>::empty());
    }
    r
}

fn join2(base: &Vec<char>, a: &str, b: &str, sep: char) -> (r: Vec<char>)
    ensures
        r@ == join_all(base@, seq![a@, b@], sep),
{
    let x = join_chars(base, &chars_of(a), sep);
    let r = join1(&x, b, sep);
    proof {
        lemma_join_all_unfold(base@, seq![a@, b@], sep);
        assert(seq![a@, b@].drop_first() =~= seq![b@]);
    }
    r
}

fn join3(base: &Vec<char>, a: &str, b: &str, c: &str, sep: char) -> (r: Vec<char>)
    ensures
        r@ == join_all(base@, seq![a@, b@, c@], sep),
{
    let x = join_chars(base, &chars_of(a), sep);
    let r = join2(&x, b, c, sep);
    proof {
        lemma_join_all_unfold(base@, seq![a@, b@, c@], sep);
        assert(seq![a@, b@, c@].drop_first() =~= seq![b@, c@]);
    }
    r
}

fn join4(base: &Vec<char>, a: &str, b: &str, c: &str, d: &str, sep: char) -> (r: Vec<char>)
    ensures
        r@ == join_all(base@, seq![a@, b@, c@, d@], sep),
{
    let x = join_chars(base, &chars_of(a), sep);
    let r = join3(&x, b, c, d, sep);
    proof {
        lemma_join_all_unfold(base@, seq![a@, b@, c@, d@], sep);
        assert(seq![a@, b@, c@, d@].drop_first() =~= seq![b@, c@, d@]);
    }
    r
}

fn push_path(out: &mut Vec<String>, p: Vec<char>)
    ensures
        texts_of(final(out)@) == texts_of(old(out)@).push(p@),
{
    let ghost before = texts_of(out@);
    out.push(string_of(&p));
    assert(texts_of(out@) =~= before.push(p@));
}

/// Where FFmpeg may lie below a directory `d` that holds the program.
pub open spec fn exe_dir_candidates(d: Seq<char>, sep: char) -> Seq<Seq<char>> {
    seq![
        join_all(d, seq!["ffmpeg.exe"@], sep),
        join_all(d, seq!["ffmpeg"@], sep),
        join_all(d, seq!["bin"@, "ffmpeg.exe"@], sep),
        join_all(d, seq!["bin"@, "ffmpeg"@], sep),
    ]
}

/// Where FFmpeg may lie below the working directory `c`.
pub open spec fn cwd_candidates(c: Seq<char>, sep: char) -> Seq<Seq<char>> {
    seq![
        join_all(c, seq!["ffmpeg.exe"@], sep),
        join_all(c, seq!["ffmpeg"@], sep),
        join_all(c, seq!["bin"@, "ffmpeg.exe"@], sep),
        join_all(c, seq!["bin"@, "ffmpeg"@], sep),
        join_all(c, seq!["binaries"@, "ffmpeg.exe"@], sep),
        join_all(c, seq!["binaries"@, "ffmpeg"@], sep),
        join_all(c, seq!["src-tauri"@, "binaries"@, "ffmpeg.exe"@], sep),
        join_all(c, seq!["src-tauri"@, "binaries"@, "ffmpeg"@], sep),
        join_all(c, seq!["node_modules"@, "ffmpeg-static"@, "ffmpeg.exe"@], sep),
        join_all(c, seq!["node_modules"@, "ffmpeg-static"@, "ffmpeg"@], sep),
        join_all(c, seq!["node_modules"@, "@ffmpeg-installer"@, "win32-x64"@, "ffmpeg.exe"@], sep),
        join_all(c, seq!["tools"@, "ffmpeg"@, "ffmpeg.exe"@], sep),
        join_all(c, seq!["tools"@, "ffmpeg"@, "ffmpeg"@], sep),
    ]
}

/// Where FFmpeg may lie below the parent `p` of the working directory.
pub open spec fn parent_candidates(p: Seq<char>, sep: char) -> Seq<Seq<char>> {
    seq![
        join_all(p, seq!["src-tauri"@, "binaries"@, "ffmpeg.exe"@], sep),
        join_all(p, seq!["src-tauri"@, "binaries"@, "ffmpeg"@], sep),
    ]
}

/// The FFmpeg of each `ffmpeg-static` package that pnpm keeps below `root`, where `entries`
/// are the names in `root/node_modules/.pnpm`.
pub open spec fn pnpm_static_candidates(root: Seq<char>, entries: Seq<Seq<char>>, sep: char) -> Seq<Seq<char>>
    decreases entries.len(),
{
    if entries.len() == 0 {
        Seq::empty()
    } else {
        let rest = pnpm_static_candidates(root, entries.drop_last(), sep);
        let e = entries.last();
        if starts_with(e, "ffmpeg-static@"@) {
            let base = join_all(root, seq!["node_modules"@, ".pnpm"@, e, "node_modules"@, "ffmpeg-static"@], sep);
            rest + seq![join_path(base, "ffmpeg.exe"@, sep), join_path(base, "ffmpeg"@, sep)]
        } else {
            rest
        }
    }
}

/// The FFmpeg of each `@ffmpeg-installer` package that pnpm keeps below `root`, for each
/// system it ships.
pub open spec fn pnpm_installer_candidates(root: Seq<char>, entries: Seq<Seq<char>>, sep: char) -> Seq<Seq<char>>
    decreases entries.len(),
{
    if entries.len() == 0 {
        Seq::empty()
    } else {
        let rest = pnpm_installer_candidates(root, entries.drop_last(), sep);
        let e = entries.last();
        if starts_with(e, "@ffmpeg-installer+"@) {
            let base = join_all(root, seq!["node_modules"@, ".pnpm"@, e, "node_modules"@, "@ffmpeg-installer"@], sep);
            rest + seq![
                join_all(base, seq!["win32-x64"@, "ffmpeg.exe"@], sep),
                join_all(base, seq!["linux-x64"@, "ffmpeg"@], sep),
                join_all(base, seq!["darwin-x64"@, "ffmpeg"@], sep),
                join_all(base, seq!["darwin-arm64"@, "ffmpeg"@], sep),
            ]
        } else {
            rest
        }
    }
}

/// Where Format Factory keeps FFmpeg below each of the program folders `roots`.
pub open spec fn format_factory_candidates(roots: Seq<Seq<char>>, sep: char) -> Seq<Seq<char>>
    decreases roots.len(),
{
    if roots.len() == 0 {
        Seq::empty()
    } else {
        let r = roots.last();
        let a = join_all(r, seq!["FormatFactory"@], sep);
        let b = join_all(r, seq!["FreeTime"@, "FormatFactory"@], sep);
        format_factory_candidates(roots.drop_last(), sep) + seq![
            join_all(a, seq!["ffmpeg.exe"@], sep),
            join_all(a, seq!["FFModules"@, "ffmpeg.exe"@], sep),
            join_all(a, seq!["FFModules"@, "Encoder"@, "ffmpeg.exe"@], sep),
            join_all(b, seq!["ffmpeg.exe"@], sep),
            join_all(b, seq!["FFModules"@, "ffmpeg.exe"@], sep),
            join_all(b, seq!["FFModules"@, "Encoder"@, "ffmpeg.exe"@], sep),
        ]
    }
}

pub open spec fn opt_texts(d: Option<&str>) -> Option<Seq<char>> {
    match d {
        Some(s) => Some(s@),
        None => None,
    }
}

/// Every place FFmpeg is looked for, in order: beside the program (`exe_dir`), below the
/// working directory `cwd` (with the pnpm packages listed in `pnpm_cwd`), below its parent
/// `cwd_parent` (with `pnpm_parent`), and in Format Factory below each of `program_roots`.
pub open spec fn ffmpeg_candidate_list(
    exe_dir: Option<Seq<char>>,
    cwd: Option<Seq<char>>,
    cwd_parent: Option<Seq<char>>,
    pnpm_cwd: Seq<Seq<char>>,
    pnpm_parent: Seq<Seq<char>>,
    program_roots: Seq<Seq<char>>,
    sep: char,
) -> Seq<Seq<char>> {
    (match exe_dir {
        Some(d) => exe_dir_candidates(d, sep),
        None => Seq::empty(),
    }) + (match cwd {
        Some(c) => cwd_candidates(c, sep) + pnpm_static_candidates(c, pnpm_cwd, sep)
            + pnpm_installer_candidates(c, pnpm_cwd, sep) + (match cwd_parent {
            Some(p) => parent_candidates(p, sep) + pnpm_static_candidates(p, pnpm_parent, sep)
                + pnpm_installer_candidates(p, pnpm_parent, sep),
            None => Seq::empty(),
        }),
        None => Seq::empty(),
    }) + format_factory_candidates(program_roots, sep)
}



fn join_seq(base: &Vec<char>, names: &Vec<Vec<char>>, sep: char) -> (r: Vec<char>)
    ensures
        r@ == join_all(base@, chars_texts(names@), sep),
{
    let mut cur: Vec<char> = crate::text::sub_chars(base, 0, base.len());
    assert(base@.subrange(0, base@.len() as int) =~= base@);
    let mut k: usize = 0;
    assert(chars_texts(names@).skip(0) =~= chars_texts(names@));
    while k < names.len()
        invariant
            k <= names@.len(),
            join_all(base@, chars_texts(names@), sep) == join_all(cur@, chars_texts(names@).skip(k as int), sep),
        decreases names.len() - k,
    {
        let ghost rest = chars_texts(names@).skip(k as int);
        assert(rest[0] == names@[k as int]@);
        assert(rest.drop_first() =~= chars_texts(names@).skip(k as int + 1));
        cur = join_chars(&cur, &names[k], sep);
        k += 1;
    }
    cur
}

fn push_exe_dir_candidates(out: &mut Vec<String>, d: &Vec<char>, sep: char)
    ensures
        texts_of(final(out)@) == texts_of(old(out)@) + exe_dir_candidates(d@, sep),
{
    let ghost start = texts_of(out@);
    push_path(out, join1(d, "ffmpeg.exe", sep));
    push_path(out, join1(d, "ffmpeg", sep));
    push_path(out, join2(d, "bin", "ffmpeg.exe", sep));
    push_path(out, join2(d, "bin", "ffmpeg", sep));
    assert(texts_of(out@) =~= start + exe_dir_candidates(d@, sep));
}

fn push_cwd_candidates(out: &mut Vec<String>, c: &Vec<char>, sep: char)
    ensures
        texts_of(final(out)@) == texts_of(old(out)@) + cwd_candidates(c@, sep),
{
    let ghost start = texts_of(out@);
    push_path(out, join1(c, "ffmpeg.exe", sep));
    push_path(out, join1(c, "ffmpeg", sep));
    push_path(out, join2(c, "bin", "ffmpeg.exe", sep));
    push_path(out, join2(c, "bin", "ffmpeg", sep));
    push_path(out, join2(c, "binaries", "ffmpeg.exe", sep));
    push_path(out, join2(c, "binaries", "ffmpeg", sep));
    push_path(out, join3(c, "src-tauri", "binaries", "ffmpeg.exe", sep));
    push_path(out, join3(c, "src-tauri", "binaries", "ffmpeg", sep));
    push_path(out, join3(c, "node_modules", "ffmpeg-static", "ffmpeg.exe", sep));
    push_path(out, join3(c, "node_modules", "ffmpeg-static", "ffmpeg", sep));
    push_path(out, join4(c, "node_modules", "@ffmpeg-installer", "win32-x64", "ffmpeg.exe", sep));
    push_path(out, join3(c, "tools", "ffmpeg", "ffmpeg.exe", sep));
    push_path(out, join3(c, "tools", "ffmpeg", "ffmpeg", sep));
    assert(texts_of(out@) =~= start + cwd_candidates(c@, sep));
}

fn push_parent_candidates(out: &mut Vec<String>, p: &Vec<char>, sep: char)
    ensures
        texts_of(final(out)@) == texts_of(old(out)@) + parent_candidates(p@, sep),
{
    let ghost start = texts_of(out@);
    push_path(out, join3(p, "src-tauri", "binaries", "ffmpeg.exe", sep));
    push_path(out, join3(p, "src-tauri", "binaries", "ffmpeg", sep));
    assert(texts_of(out@) =~= start + parent_candidates(p@, sep));
}

fn pnpm_package_dir(root: &Vec<char>, entry: &Vec<char>, package: &str, sep: char) -> (r: Vec<char>)
    ensures
        r@ == join_all(root@, seq!["node_modules"@, ".pnpm"@, entry@, "node_modules"@, package@], sep),
{
    let mut names: Vec<Vec<char>> = Vec::new();
    names.push(chars_of("node_modules"));
    names.push(chars_of(".pnpm"));
    names.push(crate::text::sub_chars(entry, 0, entry.len()));
    names.push(chars_of("node_modules"));
    names.push(chars_of(package));
    assert(entry@.subrange(0, entry@.len() as int) =~= entry@);
    assert(chars_texts(names@) =~= seq!["node_modules"@, ".pnpm"@, entry@, "node_modules"@, package@]);
    join_seq(root, &names, sep)
}

fn push_pnpm_static(out: &mut Vec<String>, root: &Vec<char>, entries: &Vec<String>, sep: char)
    ensures
        texts_of(final(out)@) == texts_of(old(out)@) + pnpm_static_candidates(root@, texts_of(entries@), sep),
{
    let ghost start = texts_of(out@);
    let prefix = chars_of("ffmpeg-static@");
    let mut i: usize = 0;
    assert(texts_of(entries@).take(0) =~= Seq::<Seq<char>>::empty());
    assert(start + Seq::<Seq<char>>::empty() =~= start);
    while i < entries.len()
        invariant
            i <= entries@.len(),
            prefix@ == "ffmpeg-static@"@,
            texts_of(out@) == start + pnpm_static_candidates(root@, texts_of(entries@).take(i as int), sep),
        decreases entries.len() - i,
    {
        let ghost es = texts_of(entries@).take(i as int + 1);
        assert(es.drop_last() =~= texts_of(entries@).take(i as int));
        assert(es.last() == entries@[i as int]@);
        let e = chars_of(entries[i].as_str());
        if has_prefix(&e, &prefix) {
            let base = pnpm_package_dir(root, &e, "ffmpeg-static", sep);
            let ghost before = texts_of(out@);
            let a = join_chars(&base, &chars_of("ffmpeg.exe"), sep);
            let b = join_chars(&base, &chars_of("ffmpeg"), sep);
            out.push(string_of(&a));
            out.push(string_of(&b));
            assert(texts_of(out@) =~= before + seq![a@, b@]);
        }
        i += 1;
    }
    assert(texts_of(entries@).take(entries@.len() as int) =~= texts_of(entries@));
}

fn push_pnpm_installer(out: &mut Vec<String>, root: &Vec<char>, entries: &Vec<String>, sep: char)
    ensures
        texts_of(final(out)@) == texts_of(old(out)@) + pnpm_installer_candidates(root@, texts_of(entries@), sep),
{
    let ghost start = texts_of(out@);
    let prefix = chars_of("@ffmpeg-installer+");
    let mut i: usize = 0;
    assert(texts_of(entries@).take(0) =~= Seq::<Seq<char>>::empty());
    assert(start + Seq::<Seq<char>>::empty() =~= start);
    while i < entries.len()
        invariant
            i <= entries@.len(),
            prefix@ == "@ffmpeg-installer+"@,
            texts_of(out@) == start + pnpm_installer_candidates(root@, texts_of(entries@).take(i as int), sep),
        decreases entries.len() - i,
    {
        let ghost es = texts_of(entries@).take(i as int + 1);
        assert(es.drop_last() =~= texts_of(entries@).take(i as int));
        assert(es.last() == entries@[i as int]@);
        let e = chars_of(entries[i].as_str());
        if has_prefix(&e, &prefix) {
            let base = pnpm_package_dir(root, &e, "@ffmpeg-installer", sep);
            let ghost before = texts_of(out@);
            push_path(out, join2(&base, "win32-x64", "ffmpeg.exe", sep));
            push_path(out, join2(&base, "linux-x64", "ffmpeg", sep));
            push_path(out, join2(&base, "darwin-x64", "ffmpeg", sep));
            push_path(out, join2(&base, "darwin-arm64", "ffmpeg", sep));
            assert(texts_of(out@) =~= before + seq![
                join_all(base@, seq!["win32-x64"@, "ffmpeg.exe"@], sep),
                join_all(base@, seq!["linux-x64"@, "ffmpeg"@], sep),
                join_all(base@, seq!["darwin-x64"@, "ffmpeg"@], sep),
                join_all(base@, seq!["darwin-arm64"@, "ffmpeg"@], sep),
            ]);
        }
        i += 1;
    }
    assert(texts_of(entries@).take(entries@.len() as int) =~= texts_of(entries@));
}

fn push_format_factory(out: &mut Vec<String>, roots: &Vec<String>, sep: char)
    ensures
        texts_of(final(out)@) == texts_of(old(out)@) + format_factory_candidates(texts_of(roots@), sep),
{
    let ghost start = texts_of(out@);
    let mut i: usize = 0;
    assert(texts_of(roots@).take(0) =~= Seq::<Seq<char>>::empty());
    assert(start + Seq::<Seq<char>>::empty() =~= start);
    while i < roots.len()
        invariant
            i <= roots@.len(),
            texts_of(out@) == start + format_factory_candidates(texts_of(roots@).take(i as int), sep),
        decreases roots.len() - i,
    {
        let ghost rs = texts_of(roots@).take(i as int + 1);
        assert(rs.drop_last() =~= texts_of(roots@).take(i as int));
        assert(rs.last() == roots@[i as int]@);
        let r = chars_of(roots[i].as_str());
        let a = join1(&r, "FormatFactory", sep);
        let b = join2(&r, "FreeTime", "FormatFactory", sep);
        let ghost before = texts_of(out@);
        push_path(out, join1(&a, "ffmpeg.exe", sep));
        push_path(out, join2(&a, "FFModules", "ffmpeg.exe", sep));
        push_path(out, join3(&a, "FFModules", "Encoder", "ffmpeg.exe", sep));
        push_path(out, join1(&b, "ffmpeg.exe", sep));
        push_path(out, join2(&b, "FFModules", "ffmpeg.exe", sep));
        push_path(out, join3(&b, "FFModules", "Encoder", "ffmpeg.exe", sep));
        assert(texts_of(out@) =~= before + seq![
            join_all(a@, seq!["ffmpeg.exe"@], sep),
            join_all(a@, seq!["FFModules"@, "ffmpeg.exe"@], sep),
            join_all(a@, seq!["FFModules"@, "Encoder"@, "ffmpeg.exe"@], sep),
            join_all(b@, seq!["ffmpeg.exe"@], sep),
            join_all(b@, seq!["FFModules"@, "ffmpeg.exe"@], sep),
            join_all(b@, seq!["FFModules"@, "Encoder"@, "ffmpeg.exe"@], sep),
        ]);
        i += 1;
    }
    assert(texts_of(roots@).take(roots@.len() as int) =~= texts_of(roots@));
}

/// Every place FFmpeg is looked for (see `ffmpeg_candidate_list`); `sep` is the system's path
/// separator, and the directories are those the program found itself in.
pub fn ffmpeg_candidates(
    exe_dir: Option<&str>,
    cwd: Option<&str>,
    cwd_parent: Option<&str>,
    pnpm_cwd: &Vec<String>,
    pnpm_parent: &Vec<String>,
    program_roots: &Vec<String>,
    sep: char,
) -> (r: Vec<String>)
    ensures
        texts_of(r@) == ffmpeg_candidate_list(
            opt_texts(exe_dir),
            opt_texts(cwd),
            opt_texts(cwd_parent),
            texts_of(pnpm_cwd@),
            texts_of(pnpm_parent@),
            texts_of(program_roots@),
            sep,
        ),
{
    let mut out: Vec<String> = Vec::new();
    assert(texts_of(out@) =~= Seq::<Seq<char>>::empty());
    if let Some(d) = exe_dir {
        push_exe_dir_candidates(&mut out, &chars_of(d), sep);
    }
    let ghost after_exe = texts_of(out@);
    if let Some(c) = cwd {
        let cv = chars_of(c);
        push_cwd_candidates(&mut out, &cv, sep);
        push_pnpm_static(&mut out, &cv, pnpm_cwd, sep);
        push_pnpm_installer(&mut out, &cv, pnpm_cwd, sep);
        if let Some(p) = cwd_parent {
            let pv = chars_of(p);
            push_parent_candidates(&mut out, &pv, sep);
            push_pnpm_static(&mut out, &pv, pnpm_parent, sep);
            push_pnpm_installer(&mut out, &pv, pnpm_parent, sep);
        }
    }
    let ghost after_cwd = texts_of(out@);
    push_format_factory(&mut out, program_roots, sep);
    assert(texts_of(out@) =~= ffmpeg_candidate_list(
        opt_texts(exe_dir),
        opt_texts(cwd),
        opt_texts(cwd_parent),
        texts_of(pnpm_cwd@),
        texts_of(pnpm_parent@),
        texts_of(program_roots@),
        sep,
    ));
    out
}


/// The FFmpeg of each `ffmpeg-static` package pnpm keeps below `root`, where `entries` are the
/// names listed in `root/node_modules/.pnpm` (see `pnpm_static_candidates`).
pub fn find_pnpm_ffmpeg_static_candidates(root: &str, entries: &Vec<String>, sep: char) -> (r: Vec<String>)
    ensures
        texts_of(r@) == pnpm_static_candidates(root@, texts_of(entries@), sep),
{
    let mut out: Vec<String> = Vec::new();
    push_pnpm_static(&mut out, &chars_of(root), entries, sep);
    assert(texts_of(out@) =~= pnpm_static_candidates(root@, texts_of(entries@), sep));
    out
}

/// The FFmpeg of each `@ffmpeg-installer` package pnpm keeps below `root` (see
/// `pnpm_installer_candidates`).
pub fn find_pnpm_ffmpeg_installer_candidates(root: &str, entries: &Vec<String>, sep: char) -> (r: Vec<String>)
    ensures
        texts_of(r@) == pnpm_installer_candidates(root@, texts_of(entries@), sep),
{
    let mut out: Vec<String> = Vec::new();
    push_pnpm_installer(&mut out, &chars_of(root), entries, sep);
    assert(texts_of(out@) =~= pnpm_installer_candidates(root@, texts_of(entries@), sep));
    out
}

/// Whether a cached file can be used: it is a file and not empty.
pub fn is_valid_cached_file(is_file: bool, len: u64) -> (r: bool)
    ensures
        r == (is_file && len > 0),
{
    is_file && len > 0
}

} // verus!
