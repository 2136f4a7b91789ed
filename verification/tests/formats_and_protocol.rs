use open_course_player::audio::{mp3_bitrate, mp3_sample_rate, parse_mp3_frame, skip_id3v2};
use open_course_player::ffmpeg::{
    bundled_or_known_ffmpeg_path, ffmpeg_candidates, ffmpeg_leading_args, ffmpeg_path,
    find_pnpm_ffmpeg_installer_candidates, find_pnpm_ffmpeg_static_candidates,
    is_valid_cached_file, transcode_failure_entry, transcode_failure_message,
    transcode_strategies, transcode_temp_extension,
};
use open_course_player::ffmpeg_log::{
    collect_important_ffmpeg_lines, join_texts, summarize_ffmpeg_failure, trim_ffmpeg_log_line,
};
use open_course_player::http::{
    error_response_headers, is_header_end, memory_response_headers, options_response,
    parse_media_request_path, parse_range, range_header_value, route_request,
    segment_response_headers, strip_media_token_suffix, MediaRoute,
};
use open_course_player::media_source::{
    external_playback_needs_mp4, hls_playlist, hls_target_duration, plan_media_source,
    prepare_external_playback_path, served_size, ts_virtual_pieces, ExternalPlayback, SourceKind,
};
use open_course_player::mp4_layout::{moov_offset_delta, sz_conclusion};
use open_course_player::mp4_patch::patch_stco_offsets;
use open_course_player::mpegts::{detect_ts_packet_runs, ts_virtual_size, TsPacketRun};
use open_course_player::probing::{duration_probe_applies, duration_probe_order, DurationProbe};
use open_course_player::sniff::{looks_like_mp3_frame, looks_like_mpeg_ts, sniff_file_format, DetectedFormat};
use open_course_player::subtitles::{
    srt_to_vtt, subtitle_file_name, subtitle_search_order, subtitle_source_info,
    subtitle_source_plan, subtitle_track, SubtitleDelivery, SubtitleFormat,
};
use open_course_player::sz_diagnosis::{missing_mdat_message, unknown_sz_structure};
use open_course_player::ts_clock::{best_pts_ticks, ts_run_pts_summaries};

fn strings(items: &[&str]) -> Vec<String> {
    items.iter().map(|item| item.to_string()).collect()
}

#[test]
fn range_headers_cover_every_form() {
    assert_eq!(parse_range(None, 100).unwrap(), (0, 99, false));
    assert_eq!(parse_range(Some("bytes=10-"), 100).unwrap(), (10, 99, true));
    assert_eq!(parse_range(Some("bytes=10-19"), 100).unwrap(), (10, 19, true));
    assert_eq!(parse_range(Some("bytes=-5"), 100).unwrap(), (95, 99, true));
    assert_eq!(parse_range(Some("bytes=-500"), 100).unwrap(), (0, 99, true));
    assert_eq!(parse_range(Some("bytes=-0"), 100).unwrap(), (100, 99, true));
    assert_eq!(parse_range(Some("bytes=50-20"), 100).unwrap(), (50, 50, true));
    assert_eq!(parse_range(Some("bytes=500-600"), 100).unwrap(), (99, 99, true));
    assert_eq!(parse_range(Some("bytes=+3-+4"), 100).unwrap(), (3, 4, true));
    assert_eq!(parse_range(Some("bytes=x-4"), 100).unwrap(), (0, 4, true));
    assert_eq!(parse_range(Some("items=1-2"), 100).unwrap(), (0, 99, false));
    assert_eq!(parse_range(Some("bytes=12"), 100).unwrap(), (0, 99, false));
    assert_eq!(parse_range(Some("bytes=1-2"), 0).unwrap(), (0, 0, false));
}

#[test]
fn requests_are_routed_by_method_and_path() {
    assert!(matches!(route_request("OPTIONS * HTTP/1.1\r\n"), MediaRoute::Options));
    assert!(matches!(route_request("POST /media/x HTTP/1.1\r\n"), MediaRoute::MethodNotAllowed));
    assert!(matches!(route_request(""), MediaRoute::MethodNotAllowed));
    assert!(matches!(route_request("GET /other HTTP/1.1\r\n"), MediaRoute::NotFound));
    match route_request("head /media/tok.mp4 HTTP/1.1\r\n") {
        MediaRoute::Media { token, segment, head_only } => {
            assert_eq!(token, "tok");
            assert_eq!(segment, None);
            assert!(head_only);
        }
        other => panic!("unexpected route {other:?}"),
    }
    match route_request("GET /media/tok/segment/12.ts HTTP/1.1\r\n") {
        MediaRoute::Media { token, segment, head_only } => {
            assert_eq!(token, "tok");
            assert_eq!(segment, Some(12));
            assert!(!head_only);
        }
        other => panic!("unexpected route {other:?}"),
    }
    assert_eq!(strip_media_token_suffix("abc.mp4"), "abc");
    assert_eq!(strip_media_token_suffix("abc"), "abc");
    assert_eq!(parse_media_request_path("abc/segment/3.ts"), ("abc".to_string(), Some(3)));
    assert_eq!(parse_media_request_path("abc.m3u8/segment/x.ts"), ("abc".to_string(), None));
    assert_eq!(parse_media_request_path("abc/other"), ("abc".to_string(), None));
}

#[test]
fn request_headers_end_and_range_is_found() {
    assert!(is_header_end(0, "x"));
    assert!(is_header_end(2, "\r\n"));
    assert!(is_header_end(1, "\n"));
    assert!(!is_header_end(10, "Host: a\r\n"));
    assert_eq!(range_header_value("RANGE:  bytes=1-2 \r\n").as_deref(), Some("bytes=1-2"));
    assert_eq!(range_header_value("Host: x\r\n"), None);
    assert_eq!(range_header_value("no colon"), None);
}

#[test]
fn response_heads_are_exact() {
    assert_eq!(
        error_response_headers(404, "Not Found"),
        "HTTP/1.1 404 Not Found\r\nContent-Type: text/plain; charset=utf-8\r\nContent-Length: 9\r\nAccess-Control-Allow-Origin: *\r\nConnection: close\r\n\r\n"
    );
    assert!(options_response().starts_with("HTTP/1.1 204 No Content\r\n"));
    assert!(options_response().contains("Access-Control-Max-Age: 86400"));
    let segment = segment_response_headers(1000, 0, 999, false);
    assert!(segment.starts_with("HTTP/1.1 200 OK\r\nContent-Type: video/mp2t\r\nContent-Length: 1000\r\n"));
    assert!(!segment.contains("Content-Range: bytes"));
    assert!(segment.ends_with("Cache-Control: no-cache\r\nConnection: close\r\n\r\n"));
    let memory = memory_response_headers("text/plain", 12);
    assert!(memory.contains("Content-Length: 12\r\n"));
}

#[test]
fn joined_stream_reads_the_right_pieces() {
    let runs = vec![
        TsPacketRun { packet_size: 188, start: 0, end: 376 },
        TsPacketRun { packet_size: 188, start: 500, end: 876 },
    ];
    assert_eq!(ts_virtual_size(&runs), 752);
    assert_eq!(ts_virtual_pieces(&runs, 300, 200), vec![(300, 76), (500, 124)]);
    assert_eq!(ts_virtual_pieces(&runs, 400, 1000), vec![(524, 352)]);
    assert_eq!(ts_virtual_pieces(&runs, 752, 10), vec![]);
    assert_eq!(served_size(Some(&runs), 5000), 752);
    assert_eq!(served_size(None, 5000), 5000);
}

#[test]
fn sources_are_planned_by_what_was_found() {
    let plan = plan_media_source("video/mp4", false, false);
    assert_eq!((plan.mime.as_str(), plan.kind, plan.try_faststart), ("video/mp4", SourceKind::File, true));
    let plan = plan_media_source("video/mp2t", true, false);
    assert_eq!((plan.kind, plan.try_faststart), (SourceKind::TsVirtual, false));
    let plan = plan_media_source("video/mp2t", true, true);
    assert_eq!(plan.kind, SourceKind::HlsTs);
    assert!(external_playback_needs_mp4(Some("sz"), None));
    assert!(!external_playback_needs_mp4(Some("mkv"), None));
    assert_eq!(prepare_external_playback_path(Some("mkv"), None, false), ExternalPlayback::Unchanged);
    assert_eq!(prepare_external_playback_path(Some("sz"), Some(DetectedFormat::Mp4), true), ExternalPlayback::Faststart);
    assert_eq!(prepare_external_playback_path(Some("M4V"), None, false), ExternalPlayback::Unchanged);
    assert_eq!(prepare_external_playback_path(Some("sz"), None, false), ExternalPlayback::CopyToCache);
}

#[test]
fn playlists_list_each_segment() {
    assert_eq!(hls_target_duration(&vec![]), 1);
    assert_eq!(hls_target_duration(&vec![0, 0]), 1);
    assert_eq!(hls_target_duration(&vec![3, 9, 4]), 9);
    let playlist = hls_playlist("t", 9, &strings(&["3.000", "8.500"]));
    assert_eq!(
        playlist,
        "#EXTM3U\n#EXT-X-VERSION:3\n#EXT-X-PLAYLIST-TYPE:VOD\n#EXT-X-TARGETDURATION:9\n#EXT-X-MEDIA-SEQUENCE:0\n#EXTINF:3.000,\n/media/t/segment/0.ts\n#EXT-X-DISCONTINUITY\n#EXTINF:8.500,\n/media/t/segment/1.ts\n#EXT-X-ENDLIST\n"
    );
}

#[test]
fn srt_subtitles_become_webvtt() {
    assert_eq!(
        srt_to_vtt("1\r\n00:00:01,000 --> 00:00:02,500\r\nHello, world\r\n\r\n2\n"),
        "WEBVTT\n\n1\n00:00:01.000 --> 00:00:02.500\nHello, world\n\n2\n"
    );
    assert_eq!(srt_to_vtt(""), "WEBVTT\n\n");
    assert_eq!(srt_to_vtt("a\rb"), "WEBVTT\n\na\rb\n");
}

#[test]
fn subtitle_files_are_found_and_planned() {
    let order = subtitle_search_order();
    assert_eq!(order, vec![SubtitleFormat::Vtt, SubtitleFormat::Srt, SubtitleFormat::Ass]);
    assert_eq!(subtitle_file_name("lesson 1", SubtitleFormat::Srt), "lesson 1.srt");
    let track = subtitle_track(SubtitleFormat::Vtt, "/c/lesson.vtt");
    assert_eq!((track.label.as_str(), track.path.as_str(), track.format.as_str()), ("VTT 字幕", "/c/lesson.vtt", "vtt"));
    assert_eq!(subtitle_source_plan(Some("SRT")).unwrap(), ("srt".to_string(), SubtitleDelivery::FromSrt));
    assert_eq!(subtitle_source_plan(Some("vtt")).unwrap(), ("vtt".to_string(), SubtitleDelivery::AsIs));
    assert_eq!(
        subtitle_source_plan(Some("ass")).unwrap_err(),
        "ASS 字幕当前不能由内置浏览器播放器直接渲染，可通过 mpv 兜底播放"
    );
    assert_eq!(subtitle_source_plan(None).unwrap_err(), "当前字幕格式暂不支持");
    let source = subtitle_source_info("127.0.0.1:9", "tok", "srt".to_string());
    assert_eq!(source.url, "http://127.0.0.1:9/media/tok");
    assert_eq!(source.mime, "text/vtt; charset=utf-8");
    assert_eq!(source.format, "srt");
}

#[test]
fn ffmpeg_log_lines_are_compacted_and_chosen() {
    assert_eq!(trim_ffmpeg_log_line("a\t\tb   c  "), "a b c ");
    let long = "x".repeat(200);
    assert_eq!(trim_ffmpeg_log_line(&long), format!("{}...", "x".repeat(160)));
    let log = "ok\nError one\nwarning\nfailed two\nError one\r\ninvalid three\n  error four  \n";
    assert_eq!(
        collect_important_ffmpeg_lines(log),
        strings(&["Error one", "invalid three", "error four"])
    );
    assert_eq!(collect_important_ffmpeg_lines("nothing here\n"), Vec::<String>::new());
    assert_eq!(join_texts(&strings(&["a", "b", "c"]), " / "), "a / b / c");
}

#[test]
fn ffmpeg_failures_are_diagnosed() {
    assert_eq!(
        summarize_ffmpeg_failure("[h264] Invalid NAL unit size", "").as_deref(),
        Some("文件容器像 MP4，但视频帧不是标准 H.264 NAL 数据")
    );
    assert_eq!(
        summarize_ffmpeg_failure("", "Cannot determine format of input stream").as_deref(),
        Some("FFmpeg 能读到文件头，但音视频码流无法按标准格式解码，可能是专有封装或文件损坏")
    );
    assert_eq!(summarize_ffmpeg_failure("all good", "done"), None);
    assert_eq!(
        summarize_ffmpeg_failure("open failed", "Unsupported codec").as_deref(),
        Some("open failed / Unsupported codec")
    );
}

#[test]
fn transcoding_tries_each_strategy_and_reports_failures() {
    let strategies = transcode_strategies();
    let names: Vec<&str> = strategies.iter().map(|s| s.name).collect();
    assert_eq!(names, vec!["NVIDIA 硬件转码 1080P", "兼容软转码 1080P", "保守软转码 720P", "快速重封装"]);
    assert!(strategies[0].args.contains(&"h264_nvenc"));
    assert_eq!(strategies[3].args.len(), 14);
    assert_eq!(ffmpeg_leading_args().last().copied(), Some("-i"));
    assert_eq!(transcode_temp_extension("快速重封装"), "快速重封装.mp4.tmp");
    assert_eq!(
        transcode_failure_entry("快速重封装", "exit status: 1", Some("坏了")),
        "快速重封装：exit status: 1（坏了）"
    );
    assert_eq!(transcode_failure_entry("a", "exit status: 2", None), "a：exit status: 2");
    assert_eq!(
        transcode_failure_message(&strings(&["a：1", "b：2"])),
        "FFmpeg 转码失败，已尝试 a：1；b：2"
    );
    let message = transcode_failure_message(&strings(&["a：1（文件容器像 MP4，但视频帧不是标准 H.264 NAL 数据）"]));
    assert!(message.starts_with("FFmpeg 已完整尝试转码和重封装"));
    assert!(message.ends_with("已尝试 a：1（文件容器像 MP4，但视频帧不是标准 H.264 NAL 数据）"));
}

#[test]
fn ffmpeg_is_looked_for_in_order() {
    assert_eq!(ffmpeg_path(Some("/c".to_string()), Some("/b".to_string()), true).unwrap(), "/c");
    assert_eq!(ffmpeg_path(None, Some("/b".to_string()), true).unwrap(), "/b");
    assert_eq!(ffmpeg_path(None, None, true).unwrap(), "ffmpeg");
    assert!(ffmpeg_path(None, None, false).unwrap_err().starts_with("未找到 FFmpeg"));
    let candidates = vec![("/a".to_string(), false), ("/b".to_string(), true), ("/c".to_string(), true)];
    assert_eq!(bundled_or_known_ffmpeg_path(&candidates).as_deref(), Some("/b"));
    assert_eq!(bundled_or_known_ffmpeg_path(&vec![("/a".to_string(), false)]), None);
    assert!(is_valid_cached_file(true, 1));
    assert!(!is_valid_cached_file(true, 0));
    assert!(!is_valid_cached_file(false, 10));

    let pnpm = strings(&["ffmpeg-static@5.2.0", "@ffmpeg-installer+ffmpeg@1.1.0", "vue@3"]);
    let list = ffmpeg_candidates(Some("/opt/app/"), Some("/work"), Some("/"), &pnpm, &vec![], &vec![], '/');
    assert_eq!(list[0], "/opt/app/ffmpeg.exe");
    assert_eq!(list[3], "/opt/app/bin/ffmpeg");
    assert_eq!(list[4], "/work/ffmpeg.exe");
    assert_eq!(list[14], "/work/node_modules/@ffmpeg-installer/win32-x64/ffmpeg.exe");
    assert_eq!(list[17], "/work/node_modules/.pnpm/ffmpeg-static@5.2.0/node_modules/ffmpeg-static/ffmpeg.exe");
    assert_eq!(list[20], "/work/node_modules/.pnpm/@ffmpeg-installer+ffmpeg@1.1.0/node_modules/@ffmpeg-installer/linux-x64/ffmpeg");
    assert_eq!(list[23], "/src-tauri/binaries/ffmpeg.exe");
    assert_eq!(list.len(), 25);
    let windows = ffmpeg_candidates(None, None, None, &vec![], &vec![], &strings(&["C:\\Program Files"]), '\\');
    assert_eq!(windows[0], "C:\\Program Files\\FormatFactory\\ffmpeg.exe");
    assert_eq!(windows[5], "C:\\Program Files\\FreeTime\\FormatFactory\\FFModules\\Encoder\\ffmpeg.exe");
    assert_eq!(find_pnpm_ffmpeg_static_candidates("/w", &pnpm, '/').len(), 2);
    assert_eq!(find_pnpm_ffmpeg_installer_candidates("/w", &pnpm, '/').len(), 4);
}

#[test]
fn mp3_tables_and_frames() {
    assert_eq!(mp3_bitrate(1, 3, 9), Some(128));
    assert_eq!(mp3_bitrate(1, 3, 0), None);
    assert_eq!(mp3_sample_rate(1, 0), Some(44_100));
    assert_eq!(mp3_sample_rate(2, 3), None);
    let frame = parse_mp3_frame(&[0xff, 0xfb, 0x90, 0x64]).unwrap();
    assert_eq!((frame.length, frame.samples, frame.sample_rate), (417, 1152, 44_100));
    assert_eq!(skip_id3v2(&[b'I', b'D', b'3', 4, 0, 0, 0, 0, 1, 0]), 10 + 128);
    assert_eq!(skip_id3v2(b"nothing here"), 0);
}

#[test]
fn sniffing_recognises_containers() {
    assert_eq!(sniff_file_format(b"OggS\0\0"), Some(DetectedFormat::Ogg));
    assert_eq!(sniff_file_format(b"fLaC\0\0"), Some(DetectedFormat::Flac));
    assert_eq!(sniff_file_format(b"RIFF\0\0\0\0WAVEfmt "), Some(DetectedFormat::Wav));
    assert_eq!(sniff_file_format(&[0x1a, 0x45, 0xdf, 0xa3, 0]), Some(DetectedFormat::Webm));
    assert_eq!(sniff_file_format(b"ID3\x04"), Some(DetectedFormat::Mp3));
    assert_eq!(sniff_file_format(b"plain text"), None);
    assert!(looks_like_mp3_frame(&[0, 0xff, 0xe3]));
    assert!(!looks_like_mp3_frame(&[0xff]));
    let mut ts = vec![0u8; 188 * 3];
    for i in 0..3 {
        ts[i * 188] = 0x47;
    }
    assert!(looks_like_mpeg_ts(&ts));
    assert!(!looks_like_mpeg_ts(&ts[..188 * 2]));
}

#[test]
fn timestamps_measure_a_run() {
    let mut data = Vec::new();
    for index in 0..40u64 {
        let pts = 27 * 90_000 * index / 39;
        let mut packet = [0xffu8; 188];
        packet[0] = 0x47;
        packet[1] = 0x41;
        packet[2] = 0x00;
        packet[3] = 0x10;
        let b = [
            0x20 | ((((pts >> 30) as u8) & 0x07) << 1) | 1,
            ((pts >> 22) & 0xff) as u8,
            ((((pts >> 15) as u8) & 0x7f) << 1) | 1,
            ((pts >> 7) & 0xff) as u8,
            (((pts as u8) & 0x7f) << 1) | 1,
        ];
        let payload = [0, 0, 1, 0xe0, 0, 0, 0x80, 0x80, 0x05, b[0], b[1], b[2], b[3], b[4]];
        packet[4..18].copy_from_slice(&payload);
        data.extend_from_slice(&packet);
    }
    let runs = detect_ts_packet_runs(&data);
    assert_eq!(runs.len(), 1);
    let summaries = ts_run_pts_summaries(&data, runs[0]);
    assert_eq!(summaries.len(), 1);
    assert_eq!(summaries[0].pid, 0x100);
    assert!(summaries[0].repeated);
    assert_eq!(best_pts_ticks(&summaries), Some(27 * 90_000));
}

#[test]
fn duration_probes_run_in_order() {
    assert_eq!(
        duration_probe_order(Some(DetectedFormat::MpegTs)),
        vec![DurationProbe::TsRuns, DurationProbe::TsScan, DurationProbe::Ffprobe]
    );
    assert_eq!(
        duration_probe_order(None),
        vec![DurationProbe::Ffprobe, DurationProbe::Wav, DurationProbe::Mp3]
    );
    assert!(duration_probe_applies(DurationProbe::Wav, Some("WAV"), None));
    assert!(!duration_probe_applies(DurationProbe::Wav, Some("mp3"), None));
    assert!(duration_probe_applies(DurationProbe::Mp3, None, Some(DetectedFormat::Mp3)));
    assert!(duration_probe_applies(DurationProbe::TsScan, Some("m2ts"), None));
    assert!(duration_probe_applies(DurationProbe::Ffprobe, None, None));
}

#[test]
fn mp4_edits_report_their_errors() {
    assert_eq!(moov_offset_delta(u64::MAX).unwrap_err(), "MP4 moov atom 过大");
    assert_eq!(moov_offset_delta(300).unwrap(), 300);
    let mut data = vec![0, 0, 0, 0, 0, 0, 0, 1, 0xff, 0xff, 0xff, 0xf0];
    assert_eq!(patch_stco_offsets(&mut data, 0, 12, 0x20).unwrap_err(), "MP4 stco 偏移量超出 32 位范围");
    let mut ok = vec![0, 0, 0, 0, 0, 0, 0, 2, 0, 0, 0, 10, 0, 0, 0, 20];
    patch_stco_offsets(&mut ok, 0, 16, 5).unwrap();
    assert_eq!(ok, vec![0, 0, 0, 0, 0, 0, 0, 2, 0, 0, 0, 15, 0, 0, 0, 25]);
    assert_eq!(unknown_sz_structure().conclusion, "当前文件不是可识别的 MP4 外壳 .sz");
    assert_eq!(missing_mdat_message(), "当前 .sz 是 MP4 外壳，但没有 mdat 媒体数据");
    assert_eq!(sz_conclusion(true, false, true, false), "结构看起来接近标准 MP4，可继续尝试 FFmpeg 转码。");
    assert_eq!(sz_conclusion(true, true, false, true), "MP4 外壳存在，但首段视频帧不是公开标准 H.264 NAL 数据。");
}
