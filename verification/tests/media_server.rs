use open_course_player::audio::{mp3_frames, wav_data_timing};
use open_course_player::http::{
    content_length, media_response_headers, media_url, parse_range, route_request, MediaRoute,
};
use open_course_player::media_source::{
    hls_playlist, hls_segment_plan, hls_target_duration, plan_media_source, SourceKind,
};
use open_course_player::media_types::mime_for_path;
use open_course_player::mp4_atoms::{mp4_duration_from_moov, summarize_mp4_tracks};
use open_course_player::mp4_layout::{
    decode_top_level_atom, faststart_layout, find_top_level_atom, has_top_level_header,
    moov_offset_delta, Mp4Atom, TopLevelStep,
};
use open_course_player::mp4_patch::patch_mp4_chunk_offsets;
use open_course_player::mpegts::{detect_ts_packet_runs, parse_ts_packet_pts, ts_packet_pid};
use open_course_player::sniff::{sniff_file_format, DetectedFormat};
use open_course_player::sz_diagnosis::{sz_sample_head_ranges, sz_structure};

fn atom(kind: &[u8; 4], body: &[u8]) -> Vec<u8> {
    let mut data = Vec::new();
    data.extend_from_slice(&((body.len() + 8) as u32).to_be_bytes());
    data.extend_from_slice(kind);
    data.extend_from_slice(body);
    data
}

fn encode_test_pts(pts: u64) -> [u8; 5] {
    [
        0x20 | ((((pts >> 30) as u8) & 0x07) << 1) | 1,
        ((pts >> 22) & 0xff) as u8,
        ((((pts >> 15) as u8) & 0x7f) << 1) | 1,
        ((pts >> 7) & 0xff) as u8,
        (((pts as u8) & 0x7f) << 1) | 1,
    ]
}

fn test_ts_packet(pts: u64) -> [u8; 188] {
    let mut packet = [0xffu8; 188];
    packet[0] = 0x47;
    packet[1] = 0x41;
    packet[2] = 0x00;
    packet[3] = 0x10;
    let pts = encode_test_pts(pts);
    let payload = [
        0x00, 0x00, 0x01, 0xe0, 0x00, 0x00, 0x80, 0x80, 0x05, pts[0], pts[1], pts[2], pts[3],
        pts[4],
    ];
    packet[4..4 + payload.len()].copy_from_slice(&payload);
    packet
}

fn test_ts_bytes(seconds: u64, packet_count: u64) -> Vec<u8> {
    let mut data = Vec::new();
    for index in 0..packet_count {
        let pts = seconds * 90_000 * index / (packet_count - 1);
        data.extend_from_slice(&test_ts_packet(pts));
    }
    data
}

fn test_wav(seconds: u32) -> Vec<u8> {
    let sample_rate = 44_100u32;
    let channels = 1u16;
    let bits_per_sample = 16u16;
    let byte_rate = sample_rate * channels as u32 * bits_per_sample as u32 / 8;
    let block_align = channels * bits_per_sample / 8;
    let data_size = sample_rate * channels as u32 * bits_per_sample as u32 / 8 * seconds;
    let mut data = Vec::new();
    data.extend_from_slice(b"RIFF");
    data.extend_from_slice(&(36 + data_size).to_le_bytes());
    data.extend_from_slice(b"WAVEfmt ");
    data.extend_from_slice(&16u32.to_le_bytes());
    data.extend_from_slice(&1u16.to_le_bytes());
    data.extend_from_slice(&channels.to_le_bytes());
    data.extend_from_slice(&sample_rate.to_le_bytes());
    data.extend_from_slice(&byte_rate.to_le_bytes());
    data.extend_from_slice(&block_align.to_le_bytes());
    data.extend_from_slice(&bits_per_sample.to_le_bytes());
    data.extend_from_slice(b"data");
    data.extend_from_slice(&data_size.to_le_bytes());
    data.resize(data.len() + data_size as usize, 0);
    data
}

fn test_mp3(seconds: u32) -> Vec<u8> {
    let mut data = Vec::new();
    let frame_count = ((seconds as f64 * 44_100.0) / 1152.0).ceil() as usize;
    for _ in 0..frame_count {
        data.extend_from_slice(&[0xff, 0xfb, 0x90, 0x64]);
        data.resize(data.len() + 413, 0);
    }
    data
}

fn top_level_atoms(data: &[u8]) -> Vec<Mp4Atom> {
    let file_size = data.len() as u64;
    let mut atoms = Vec::new();
    let mut cursor = 0u64;
    while has_top_level_header(cursor, file_size) {
        let at = cursor as usize;
        let step = decode_top_level_atom(cursor, file_size, &data[at..at + 8]);
        let step = match step {
            TopLevelStep::NeedLargeSize => decode_top_level_atom(cursor, file_size, &data[at..at + 16]),
            other => other,
        };
        match step {
            TopLevelStep::Atom(a) => {
                atoms.push(a);
                cursor += a.size;
            }
            _ => break,
        }
    }
    atoms
}

fn pts_seconds(data: &[u8]) -> f64 {
    let runs = detect_ts_packet_runs(data);
    let mut total = 0.0;
    for run in runs {
        let mut first = None;
        let mut last = None;
        let mut index = run.start;
        while index + run.packet_size <= run.end {
            if let Some(pts) = parse_ts_packet_pts(&data[index..index + run.packet_size]) {
                if first.is_none() {
                    first = Some(pts);
                }
                last = Some(pts);
            }
            index += run.packet_size;
        }
        if let (Some(first), Some(last)) = (first, last) {
            total += (last - first) as f64 / 90_000.0;
        }
    }
    total
}

#[test]
fn probes_fixture_durations() {
    let ts = pts_seconds(&test_ts_bytes(27, 40));
    assert!((ts - 27.0).abs() < 0.2, "ts duration was {ts}");

    let (data_size, byte_rate) = wav_data_timing(&test_wav(3)).unwrap();
    let wav = data_size as f64 / byte_rate as f64;
    assert!((wav - 3.0).abs() < 0.2, "wav duration was {wav}");

    let frames = mp3_frames(&test_mp3(3));
    let mp3: f64 = frames
        .iter()
        .map(|frame| frame.samples as f64 / frame.sample_rate as f64)
        .sum();
    assert!((mp3 - 3.0).abs() < 0.2, "mp3 duration was {mp3}");
}

#[test]
fn sniffs_disguised_course_files() {
    let disguised_ts = test_ts_bytes(27, 40);
    assert_eq!(sniff_file_format(&disguised_ts), Some(DetectedFormat::MpegTs));
    assert_eq!(
        mime_for_path(Some("mp3"), sniff_file_format(&disguised_ts)),
        "video/mp2t"
    );

    let disguised_mp4 = [
        0x00, 0x00, 0x00, 0x20, b'f', b't', b'y', b'p', b'i', b's', b'o', b'm', 0x00, 0x00, 0x02,
        0x00,
    ];
    assert_eq!(sniff_file_format(&disguised_mp4), Some(DetectedFormat::Mp4));
    assert_eq!(
        mime_for_path(Some("sz"), sniff_file_format(&disguised_mp4)),
        "video/mp4"
    );
}

#[test]
fn keeps_pdf_as_document_even_if_bytes_look_audio_like() {
    let pdf: &[u8] =
        b"%PDF-1.7\n1 0 obj\n<< /Type /Catalog >>\nstream\n\xff\xfb\x90\x64\nendstream\n%%EOF";
    assert_eq!(sniff_file_format(pdf), None);
    assert_eq!(mime_for_path(Some("pdf"), sniff_file_format(pdf)), "application/pdf");
    let plan = plan_media_source(mime_for_path(Some("pdf"), None), false, false);
    assert_eq!(plan.mime, "application/pdf");
    assert_eq!(plan.kind, SourceKind::File);
    assert!(!plan.try_faststart);
}

#[test]
fn media_server_serves_byte_ranges() {
    let body = test_wav(3);
    let size = body.len() as u64;
    let url = media_url("127.0.0.1:5000", "abc123", "audio/wav");
    assert_eq!(url, "http://127.0.0.1:5000/media/abc123.wav");
    match route_request("GET /media/abc123.wav HTTP/1.1\r\n") {
        MediaRoute::Media { token, segment, head_only } => {
            assert_eq!(token, "abc123");
            assert_eq!(segment, None);
            assert!(!head_only);
        }
        other => panic!("unexpected route {other:?}"),
    }
    let (start, end, partial) = parse_range(Some("bytes=0-15"), size).unwrap();
    assert_eq!((start, end, partial), (0, 15, true));
    assert_eq!(content_length(start, end), 16);
    let response = media_response_headers("audio/wav", size, start, end, partial);
    assert!(response.starts_with("HTTP/1.1 206 Partial Content"), "{response}");
    assert!(response.contains("Content-Range: bytes 0-15/"), "{response}");
    assert!(response.contains("Accept-Ranges: bytes"), "{response}");
}

#[test]
fn media_server_wraps_ts_as_hls_playlist() {
    let mut data = Vec::new();
    data.extend(test_ts_bytes(6, 40));
    data.extend_from_slice(b"course-file-gap");
    data.extend(test_ts_bytes(8, 40));

    let runs = detect_ts_packet_runs(&data);
    assert_eq!(runs.len(), 2);
    let plan = plan_media_source("video/mp2t", true, true);
    assert_eq!(plan.mime, "application/vnd.apple.mpegurl");

    let target = hls_target_duration(&vec![6, 8]);
    let playlist = hls_playlist("tok", target, &vec!["6.000".to_string(), "8.000".to_string()]);
    assert!(playlist.contains("#EXTM3U"), "{playlist}");
    assert!(playlist.contains("#EXT-X-DISCONTINUITY"), "{playlist}");
    assert!(playlist.contains("/segment/0.ts"), "{playlist}");
    assert!(playlist.contains("/segment/1.ts"), "{playlist}");

    let segment = hls_segment_plan(&runs, 1, None).unwrap();
    assert_eq!(segment.seek, runs[1].start as u64);
    assert_eq!(segment.length, (runs[1].end - runs[1].start) as u64);
    assert!(hls_segment_plan(&runs, 2, None).is_none());
}

#[test]
fn media_server_rewrites_tail_moov_mp4_for_faststart() {
    let mut data = Vec::new();
    data.extend(atom(b"ftyp", b"isom\0\0\x02\0isomiso2avc1mp41"));
    data.extend(atom(b"free", b""));
    data.extend(atom(b"mdat", &[1, 2, 3, 4, 5, 6, 7, 8]));
    data.extend(atom(
        b"moov",
        &atom(
            b"trak",
            &atom(
                b"mdia",
                &atom(b"minf", &atom(b"stbl", &atom(b"stco", &[0, 0, 0, 0, 0, 0, 0, 1, 0, 0, 0, 40]))),
            ),
        ),
    ));

    let atoms = top_level_atoms(&data);
    let layout = faststart_layout(&atoms, data.len() as u64).unwrap();
    let moov = layout.moov;
    let mut moov_data = data[moov.start as usize..(moov.start + moov.size) as usize].to_vec();
    let delta = moov_offset_delta(moov.size).unwrap();
    patch_mp4_chunk_offsets(&mut moov_data, delta).unwrap();

    let mut out = Vec::new();
    out.extend_from_slice(&data[layout.ftyp.start as usize..(layout.ftyp.start + layout.ftyp.size) as usize]);
    out.extend_from_slice(&moov_data);
    for a in &layout.rest {
        out.extend_from_slice(&data[a.start as usize..(a.start + a.size) as usize]);
    }
    assert_eq!(out.len(), data.len());
    let text = String::from_utf8_lossy(&out);
    let moov_index = text.find("moov").unwrap();
    let mdat_index = text.find("mdat").unwrap();
    assert!(moov_index < mdat_index, "{text}");
    let offset_at = moov_data.len() - 4;
    let shifted = u32::from_be_bytes(moov_data[offset_at..].try_into().unwrap());
    assert_eq!(shifted as u64, 40 + moov.size);
}

fn stsd_entry(codec: &[u8; 4]) -> Vec<u8> {
    let mut body = Vec::new();
    body.extend_from_slice(&[0, 0, 0, 0]);
    body.extend_from_slice(&1u32.to_be_bytes());
    body.extend(atom(codec, &[0u8; 8]));
    body
}

fn stsc_one_sample() -> Vec<u8> {
    let mut body = Vec::new();
    body.extend_from_slice(&[0, 0, 0, 0]);
    for _ in 0..4 {
        body.extend_from_slice(&1u32.to_be_bytes());
    }
    body
}

fn stsz_one_sample(size: u32) -> Vec<u8> {
    let mut body = Vec::new();
    body.extend_from_slice(&[0, 0, 0, 0]);
    body.extend_from_slice(&0u32.to_be_bytes());
    body.extend_from_slice(&1u32.to_be_bytes());
    body.extend_from_slice(&size.to_be_bytes());
    body
}

fn stco_one_offset(offset: u32) -> Vec<u8> {
    let mut body = Vec::new();
    body.extend_from_slice(&[0, 0, 0, 0]);
    body.extend_from_slice(&1u32.to_be_bytes());
    body.extend_from_slice(&offset.to_be_bytes());
    body
}

fn mvhd_duration(timescale: u32, duration: u32) -> Vec<u8> {
    let mut body = Vec::new();
    body.extend_from_slice(&[0, 0, 0, 0]);
    body.extend_from_slice(&0u32.to_be_bytes());
    body.extend_from_slice(&0u32.to_be_bytes());
    body.extend_from_slice(&timescale.to_be_bytes());
    body.extend_from_slice(&duration.to_be_bytes());
    body
}

fn nonstandard_sz_like_mp4() -> Vec<u8> {
    let video_sample = vec![0x8a, 0x40, 0x22, 0x87, 0x27, 0x48, 0x55, 0xa7];
    let audio_sample = vec![0xdc, 0xaa, 0x1c, 0x1c, 0xf4, 0x04, 0x18, 0xe3];
    let mut mdat_payload = Vec::new();
    mdat_payload.extend(&video_sample);
    mdat_payload.extend(&audio_sample);
    let audio_offset = 48 + video_sample.len() as u32;
    let video_stbl = atom(
        b"stbl",
        &[
            atom(b"stsd", &stsd_entry(b"avc1")).as_slice(),
            atom(b"stsc", &stsc_one_sample()).as_slice(),
            atom(b"stsz", &stsz_one_sample(video_sample.len() as u32)).as_slice(),
            atom(b"stco", &stco_one_offset(48)).as_slice(),
        ]
        .concat(),
    );
    let audio_stbl = atom(
        b"stbl",
        &[
            atom(b"stsd", &stsd_entry(b"mp4a")).as_slice(),
            atom(b"stsc", &stsc_one_sample()).as_slice(),
            atom(b"stsz", &stsz_one_sample(audio_sample.len() as u32)).as_slice(),
            atom(b"stco", &stco_one_offset(audio_offset)).as_slice(),
        ]
        .concat(),
    );
    let moov = atom(
        b"moov",
        &[
            atom(b"mvhd", &mvhd_duration(1_000, 492_000)).as_slice(),
            atom(b"trak", &atom(b"mdia", &atom(b"minf", &video_stbl))).as_slice(),
            atom(b"trak", &atom(b"mdia", &atom(b"minf", &audio_stbl))).as_slice(),
        ]
        .concat(),
    );
    let mut data = Vec::new();
    data.extend(atom(b"ftyp", b"isom\0\0\x02\0isomiso2avc1mp41"));
    data.extend(atom(b"free", b""));
    data.extend(atom(b"mdat", &mdat_payload));
    data.extend(moov);
    data
}

#[test]
fn diagnoses_mp4_shell_with_nonstandard_sz_frames() {
    let data = nonstandard_sz_like_mp4();
    let atoms = top_level_atoms(&data);
    let moov = find_top_level_atom(&atoms, u32::from_be_bytes(*b"moov")).unwrap();
    assert!(find_top_level_atom(&atoms, u32::from_be_bytes(*b"mdat")).is_some());
    let moov_data = &data[moov.start as usize..(moov.start + moov.size) as usize];
    let tracks = summarize_mp4_tracks(moov_data);
    let (video_range, audio_range) = sz_sample_head_ranges(&tracks);
    let read = |range: Option<(u64, u64)>| {
        range.map(|(offset, len)| data[offset as usize..(offset + len) as usize].to_vec())
    };
    let diagnostic = sz_structure(&tracks, moov_data, read(video_range), read(audio_range));
    assert_eq!(diagnostic.container, "mp4");
    assert_eq!(diagnostic.video_codec.as_deref(), Some("avc1"));
    assert_eq!(diagnostic.audio_codec.as_deref(), Some("mp4a"));
    assert!(!diagnostic.looks_like_standard_h264);
    assert!(!diagnostic.looks_like_standard_aac);
    assert!(diagnostic.conclusion.contains("不是公开标准 H.264/AAC"));
    let (duration, timescale) = mp4_duration_from_moov(moov_data).unwrap();
    let seconds = duration as f64 / timescale as f64;
    assert!((seconds - 492.0).abs() < 0.001, "duration was {seconds}");
    assert_eq!(diagnostic.first_video_sample_head.as_deref(), Some("8a 40 22 87 27 48 55 a7"));
    assert_eq!(diagnostic.video_sample_count, 1);
}

#[test]
fn ts_packets_carry_pid_and_pts() {
    let packet = test_ts_packet(90_000 * 5);
    assert_eq!(ts_packet_pid(&packet), 0x0100);
    assert_eq!(parse_ts_packet_pts(&packet), Some(450_000));
}
