//! The verified core of a local course player: recognising media files, building the course
//! library tree, the local media server's protocol and byte ranges, MP4 and MPEG transport
//! stream structure, subtitles, FFmpeg strategies and diagnostics, and the playback history.
pub mod text;
pub mod bytes;
pub mod mp4_atoms;
pub mod mp4_patch;
pub mod mp4_layout;
pub mod sniff;
pub mod mpegts;
pub mod audio;
pub mod http;
pub mod media_types;
pub mod paths;
pub mod file_location;
pub mod mpv;
pub mod playback_history;
pub mod subtitles;
pub mod ffmpeg_log;
pub mod ffmpeg;
pub mod sz_diagnosis;
pub mod media_source;
pub mod media_library;
pub mod ts_clock;
pub mod probing;
