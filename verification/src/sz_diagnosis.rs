//! The structure report on an MP4-shelled `.sz` course file: which tracks its `moov` lists,
//! whether their first samples look like standard H.264 and AAC, and whether it carries the
//! boxes of standard encryption.
use vstd::prelude::*;
use crate::mp4_atoms::{
    adts_aac_head, avcc_h264_head, contains_any_atom_marker, has_any_marker, hex_head, hex_join,
    looks_like_aac_sample, looks_like_avcc_h264_sample, Mp4TrackSummary, CODEC_AVC1, CODEC_MP4A,
};
use crate::mp4_layout::{find_track, first_track_with, read_sample_head, sz_conclusion, sz_conclusion_text};

verus! {

/// What the structure of a `.sz` file shows (its duration and media entropy are measured
/// apart).
#[derive(Clone, Debug)]
pub struct SzStructure {
    pub container: String,
    pub video_codec: Option<String>,
    pub audio_codec: Option<String>,
    pub video_sample_count: usize,
    pub audio_sample_count: usize,
    pub first_video_sample_size: Option<u32>,
    pub first_video_sample_head: Option<String>,
    pub first_audio_sample_size: Option<u32>,
    pub first_audio_sample_head: Option<String>,
    pub has_standard_protection_boxes: bool,
    pub looks_like_standard_h264: bool,
    pub looks_like_standard_aac: bool,
    pub conclusion: String,
}

/// The report on a file without a `moov` box: not a recognisable MP4 shell.
pub fn unknown_sz_structure() -> (r: SzStructure)
    ensures
        r.container@ == "unknown"@,
        r.video_codec is None,
        r.audio_codec is None,
        r.video_sample_count == 0,
        r.audio_sample_count == 0,
        r.first_video_sample_size is None,
        r.first_video_sample_head is None,
        r.first_audio_sample_size is None,
        r.first_audio_sample_head is None,
        !r.has_standard_protection_boxes,
        !r.looks_like_standard_h264,
        !r.looks_like_standard_aac,
        r.conclusion@ == "当前文件不是可识别的 MP4 外壳 .sz"@,
{
    SzStructure {
        container: String::from_str("unknown"),
        video_codec: None,
        audio_codec: None,
        video_sample_count: 0,
        audio_sample_count: 0,
        first_video_sample_size: None,
        first_video_sample_head: None,
        first_audio_sample_size: None,
        first_audio_sample_head: None,
        has_standard_protection_boxes: false,
        looks_like_standard_h264: false,
        looks_like_standard_aac: false,
        conclusion: String::from_str("当前文件不是可识别的 MP4 外壳 .sz"),
    }
}

/// The error for an MP4 shell without media data.
pub fn missing_mdat_message() -> (r: String)
    ensures
        r@ == "当前 .sz 是 MP4 外壳，但没有 mdat 媒体数据"@,
{
    String::from_str("当前 .sz 是 MP4 外壳，但没有 mdat 媒体数据")
}

/// The boxes of standard MP4 encryption: `sinf`, `encv`, `enca`, `pssh`, `tenc`, `senc`, `saio`,
/// `saiz`.
pub open spec fn protection_markers() -> Seq<[u8; 4]> {
    seq![
        [0x73u8, 0x69, 0x6e, 0x66],
        [0x65u8, 0x6e, 0x63, 0x76],
        [0x65u8, 0x6e, 0x63, 0x61],
        [0x70u8, 0x73, 0x73, 0x68],
        [0x74u8, 0x65, 0x6e, 0x63],
        [0x73u8, 0x65, 0x6e, 0x63],
        [0x73u8, 0x61, 0x69, 0x6f],
        [0x73u8, 0x61, 0x69, 0x7a],
    ]
}

/// The byte ranges `(offset, length)` of the heads of the first video (`avc1`) and audio
/// (`mp4a`) samples, where those tracks and their first samples are known.
pub fn sz_sample_head_ranges(tracks: &Vec<Mp4TrackSummary>) -> (r: (Option<(u64, u64)>, Option<(u64, u64)>))
    ensures
        match first_track_with(tracks@, CODEC_AVC1()) {
            Some(i) => match (tracks@[i].first_sample_offset, tracks@[i].first_sample_size) {
                (Some(o), Some(s)) => r.0 == Some((o, if s < 64 { s as u64 } else { 64u64 })),
                _ => r.0 is None,
            },
            None => r.0 is None,
        },
        match first_track_with(tracks@, CODEC_MP4A()) {
            Some(i) => match (tracks@[i].first_sample_offset, tracks@[i].first_sample_size) {
                (Some(o), Some(s)) => r.1 == Some((o, if s < 64 { s as u64 } else { 64u64 })),
                _ => r.1 is None,
            },
            None => r.1 is None,
        },
{
    let _n = tracks.len();
    proof {
        lemma_first_track_bounds(tracks@, CODEC_AVC1());
        lemma_first_track_bounds(tracks@, CODEC_MP4A());
    }
    let avc1: u32 = 0x6176_6331;
    let mp4a: u32 = 0x6d70_3461;
    assert(avc1 == CODEC_AVC1() && mp4a == CODEC_MP4A());
    let video = match find_track(tracks, avc1) {
        Some(i) => {
            let t = tracks[i];
            read_sample_head(t.first_sample_offset, t.first_sample_size)
        },
        None => None,
    };
    let audio = match find_track(tracks, mp4a) {
        Some(i) => {
            let t = tracks[i];
            read_sample_head(t.first_sample_offset, t.first_sample_size)
        },
        None => None,
    };
    (video, audio)
}

pub open spec fn head_bytes(h: Option<Vec<u8>>) -> Option<Seq<u8>> {
    match h {
        Some(v) => Some(v@),
        None => None,
    }
}

/// The first 16 bytes of `b` (or all of them) in hexadecimal, as the report shows a head.
pub open spec fn head_hex(b: Seq<u8>) -> Seq<char> {
    hex_join(b.take(if b.len() < 16 { b.len() as int } else { 16 }))
}

/// What the report says of one track kind: the track's codec name, sample count and first
/// sample size where the track exists.
pub open spec fn track_count(tracks: Seq<Mp4TrackSummary>, codec: u32) -> usize {
    match first_track_with(tracks, codec) {
        Some(i) => tracks[i].sample_count,
        None => 0,
    }
}

pub open spec fn track_first_size(tracks: Seq<Mp4TrackSummary>, codec: u32) -> Option<u32> {
    match first_track_with(tracks, codec) {
        Some(i) => tracks[i].first_sample_size,
        None => None,
    }
}

proof fn lemma_first_track_bounds(tracks: Seq<Mp4TrackSummary>, codec: u32)
    ensures
        match first_track_with(tracks, codec) {
            Some(i) => 0 <= i < tracks.len(),
            None => true,
        },
    decreases tracks.len(),
{
    if tracks.len() > 0 && tracks[0].codec != Some(codec) {
        lemma_first_track_bounds(tracks.drop_first(), codec);
    }
}

/// The report on an MP4 shell from its tracks (`summarize_mp4_tracks` of the `moov` box
/// `moov_data`) and the heads read from its first video and audio samples.
pub fn sz_structure(
    tracks: &Vec<Mp4TrackSummary>,
    moov_data: &[u8],
    video_head: Option<Vec<u8>>,
    audio_head: Option<Vec<u8>>,
) -> (r: SzStructure)
    ensures
        r.container@ == "mp4"@,
        first_track_with(tracks@, CODEC_AVC1()) is Some ==> (r.video_codec matches Some(c) && c@ == "avc1"@),
        first_track_with(tracks@, CODEC_AVC1()) is None ==> r.video_codec is None,
        first_track_with(tracks@, CODEC_MP4A()) is Some ==> (r.audio_codec matches Some(c) && c@ == "mp4a"@),
        first_track_with(tracks@, CODEC_MP4A()) is None ==> r.audio_codec is None,
        r.video_sample_count == track_count(tracks@, CODEC_AVC1()),
        r.audio_sample_count == track_count(tracks@, CODEC_MP4A()),
        r.first_video_sample_size == track_first_size(tracks@, CODEC_AVC1()),
        r.first_audio_sample_size == track_first_size(tracks@, CODEC_MP4A()),
        match head_bytes(video_head) {
            Some(b) => r.first_video_sample_head matches Some(h) && h@ == head_hex(b),
            None => r.first_video_sample_head is None,
        },
        match head_bytes(audio_head) {
            Some(b) => r.first_audio_sample_head matches Some(h) && h@ == head_hex(b),
            None => r.first_audio_sample_head is None,
        },
        r.looks_like_standard_h264 == (match head_bytes(video_head) {
            Some(b) => avcc_h264_head(b),
            None => false,
        }),
        r.looks_like_standard_aac == (match head_bytes(audio_head) {
            Some(b) => adts_aac_head(b),
            None => false,
        }),
        r.has_standard_protection_boxes == has_any_marker(moov_data@, protection_markers()),
        r.conclusion@ == sz_conclusion_text(
            first_track_with(tracks@, CODEC_AVC1()) is Some,
            first_track_with(tracks@, CODEC_MP4A()) is Some,
            r.looks_like_standard_h264,
            r.looks_like_standard_aac,
        ),
{
    let _n = tracks.len();
    proof {
        lemma_first_track_bounds(tracks@, CODEC_AVC1());
        lemma_first_track_bounds(tracks@, CODEC_MP4A());
    }
    let avc1: u32 = 0x6176_6331;
    let mp4a: u32 = 0x6d70_3461;
    assert(avc1 == CODEC_AVC1() && mp4a == CODEC_MP4A());
    let video = find_track(tracks, avc1);
    let audio = find_track(tracks, mp4a);
    let h264 = match &video_head {
        Some(b) => looks_like_avcc_h264_sample(b.as_slice()),
        None => false,
    };
    let aac = match &audio_head {
        Some(b) => looks_like_aac_sample(b.as_slice()),
        None => false,
    };
    let markers: [[u8; 4]; 8] = [
        [0x73u8, 0x69, 0x6e, 0x66],
        [0x65u8, 0x6e, 0x63, 0x76],
        [0x65u8, 0x6e, 0x63, 0x61],
        [0x70u8, 0x73, 0x73, 0x68],
        [0x74u8, 0x65, 0x6e, 0x63],
        [0x73u8, 0x65, 0x6e, 0x63],
        [0x73u8, 0x61, 0x69, 0x6f],
        [0x73u8, 0x61, 0x69, 0x7a],
    ];
    assert(markers@ =~= protection_markers());
    let protected = contains_any_atom_marker(moov_data, &markers);
    let video_head_hex = match &video_head {
        Some(b) => Some(hex_head(b.as_slice())),
        None => None,
    };
    let audio_head_hex = match &audio_head {
        Some(b) => Some(hex_head(b.as_slice())),
        None => None,
    };
    let mut video_codec: Option<String> = None;
    let mut video_sample_count: usize = 0;
    let mut first_video_sample_size: Option<u32> = None;
    if let Some(i) = video {
        let t = tracks[i];
        assert(t == tracks@[i as int]);
        video_codec = Some(String::from_str("avc1"));
        video_sample_count = t.sample_count;
        first_video_sample_size = t.first_sample_size;
    }
    let mut audio_codec: Option<String> = None;
    let mut audio_sample_count: usize = 0;
    let mut first_audio_sample_size: Option<u32> = None;
    if let Some(i) = audio {
        let t = tracks[i];
        assert(t == tracks@[i as int]);
        audio_codec = Some(String::from_str("mp4a"));
        audio_sample_count = t.sample_count;
        first_audio_sample_size = t.first_sample_size;
    }
    let conclusion = sz_conclusion(video.is_some(), audio.is_some(), h264, aac);
    SzStructure {
        container: String::from_str("mp4"),
        video_codec,
        audio_codec,
        video_sample_count,
        audio_sample_count,
        first_video_sample_size,
        first_video_sample_head: video_head_hex,
        first_audio_sample_size,
        first_audio_sample_head: audio_head_hex,
        has_standard_protection_boxes: protected,
        looks_like_standard_h264: h264,
        looks_like_standard_aac: aac,
        conclusion,
    }
}

} // verus!
