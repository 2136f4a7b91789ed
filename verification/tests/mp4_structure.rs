use open_course_player::mp4_atoms::{
    atom_body_start, contains_any_atom_marker, find_atom_path, find_child_atoms, first_mp4_sample_offset,
    hex_head, is_mp4_container_atom, looks_like_aac_sample, looks_like_avcc_h264_sample,
    mp4_atom_body_start, mp4_stsd_codec, parse_mp4_stco, parse_mp4_stsc, parse_mp4_stsz,
    summarize_mp4_tracks,
};
use open_course_player::mp4_layout::{read_sample_head, Mp4Atom, faststart_layout};
use open_course_player::mp4_patch::{patch_co64_offsets, patch_mp4_chunk_offsets, patch_mp4_container_offsets};
use open_course_player::mpegts::{decode_pts, detect_ts_packet_runs, push_ts_run, run_size, TsPacketRun};

fn atom(kind: &[u8; 4], body: &[u8]) -> Vec<u8> {
    let mut data = Vec::new();
    data.extend_from_slice(&((body.len() + 8) as u32).to_be_bytes());
    data.extend_from_slice(kind);
    data.extend_from_slice(body);
    data
}

fn full_box(body: &[u8]) -> Vec<u8> {
    let mut data = vec![0, 0, 0, 0];
    data.extend_from_slice(body);
    data
}

fn words(values: &[u32]) -> Vec<u8> {
    values.iter().flat_map(|v| v.to_be_bytes()).collect()
}

fn sample_moov() -> Vec<u8> {
    let mut stsd = full_box(&words(&[1]));
    stsd.extend(atom(b"avc1", &[0u8; 8]));
    let stbl = atom(
        b"stbl",
        &[
            atom(b"stsd", &stsd),
            atom(b"stsc", &full_box(&words(&[1, 1, 2, 1]))),
            atom(b"stsz", &full_box(&words(&[0, 3, 10, 20, 30]))),
            atom(b"stco", &full_box(&words(&[2, 100, 200]))),
        ]
        .concat(),
    );
    atom(b"moov", &atom(b"trak", &atom(b"mdia", &atom(b"minf", &stbl))))
}

#[test]
fn child_atoms_are_found_inside_their_parent() {
    let moov = sample_moov();
    let body = mp4_atom_body_start(&moov, 0).unwrap();
    assert_eq!(body, 8);
    let traks = find_child_atoms(&moov, body, moov.len(), *b"trak");
    assert_eq!(traks, vec![(8, moov.len())]);
    assert_eq!(atom_body_start(&moov, traks[0]), 16);
    assert!(find_child_atoms(&moov, body, moov.len(), *b"mdat").is_empty());
    let stbl = find_atom_path(&moov, traks[0], &[*b"mdia", *b"minf", *b"stbl"]).unwrap();
    let stsd = find_child_atoms(&moov, atom_body_start(&moov, stbl), stbl.1, *b"stsd")[0];
    assert_eq!(mp4_stsd_codec(&moov, stsd), Some(u32::from_be_bytes(*b"avc1")));
    let stsz = find_child_atoms(&moov, atom_body_start(&moov, stbl), stbl.1, *b"stsz")[0];
    assert_eq!(parse_mp4_stsz(&moov, stsz), vec![10, 20, 30]);
    let stco = find_child_atoms(&moov, atom_body_start(&moov, stbl), stbl.1, *b"stco")[0];
    assert_eq!(parse_mp4_stco(&moov, stco), vec![100, 200]);
    let stsc = find_child_atoms(&moov, atom_body_start(&moov, stbl), stbl.1, *b"stsc")[0];
    assert_eq!(parse_mp4_stsc(&moov, stsc), vec![(1, 2, 1)]);
    assert_eq!(first_mp4_sample_offset(&[100, 200], &[(1, 2, 1)]), Some(100));
    assert_eq!(first_mp4_sample_offset(&[], &[]), None);
}

#[test]
fn track_summaries_read_the_sample_tables() {
    let tracks = summarize_mp4_tracks(&sample_moov());
    assert_eq!(tracks.len(), 1);
    assert_eq!(tracks[0].codec, Some(u32::from_be_bytes(*b"avc1")));
    assert_eq!(tracks[0].sample_count, 3);
    assert_eq!(tracks[0].first_sample_offset, Some(100));
    assert_eq!(tracks[0].first_sample_size, Some(10));
    assert_eq!(read_sample_head(Some(100), Some(10)), Some((100, 10)));
    assert_eq!(read_sample_head(Some(100), Some(1000)), Some((100, 64)));
    assert_eq!(read_sample_head(None, Some(10)), None);
}

#[test]
fn sample_heads_are_recognised() {
    assert!(looks_like_avcc_h264_sample(&[0, 0, 0, 2, 0x65, 0x88]));
    assert!(!looks_like_avcc_h264_sample(&[0, 0, 0, 9, 0x65, 0x88]));
    assert!(!looks_like_avcc_h264_sample(&[0, 0, 0, 1, 0x62]));
    assert!(looks_like_aac_sample(&[0xff, 0xf1]));
    assert!(!looks_like_aac_sample(&[0xff, 0xe1]));
    assert_eq!(hex_head(&[0x0a, 0xff, 0x00]), "0a ff 00");
    assert_eq!(hex_head(&[1u8; 20]).len(), 16 * 3 - 1);
    assert!(contains_any_atom_marker(b"....pssh..", &[*b"sinf", *b"pssh"]));
    assert!(!contains_any_atom_marker(b"....pss", &[*b"pssh"]));
    assert!(is_mp4_container_atom(u32::from_be_bytes(*b"stbl")));
    assert!(!is_mp4_container_atom(u32::from_be_bytes(*b"stco")));
}

#[test]
fn chunk_offsets_shift_with_the_moov() {
    let mut moov = sample_moov();
    patch_mp4_chunk_offsets(&mut moov, 1000).unwrap();
    let traks = find_child_atoms(&moov, 8, moov.len(), *b"trak");
    let stbl = find_atom_path(&moov, traks[0], &[*b"mdia", *b"minf", *b"stbl"]).unwrap();
    let stco = find_child_atoms(&moov, atom_body_start(&moov, stbl), stbl.1, *b"stco")[0];
    assert_eq!(parse_mp4_stco(&moov, stco), vec![1100, 1200]);
    let mut shifted_back = moov.clone();
    let len = shifted_back.len();
    patch_mp4_container_offsets(&mut shifted_back, 8, len, -1000).unwrap();
    assert_eq!(shifted_back, sample_moov());

    let mut co64 = full_box(&words(&[1]));
    co64.extend_from_slice(&5u64.to_be_bytes());
    let len = co64.len();
    patch_co64_offsets(&mut co64, 0, len, 7).unwrap();
    assert_eq!(&co64[8..16], &12u64.to_be_bytes());
    let mut negative = co64.clone();
    assert_eq!(
        patch_co64_offsets(&mut negative, 0, len, -100).unwrap_err(),
        "MP4 co64 偏移量超出 64 位范围"
    );
}

#[test]
fn faststart_keeps_a_file_whose_moov_leads() {
    let atoms = vec![
        Mp4Atom { start: 0, header_size: 8, size: 20, kind: u32::from_be_bytes(*b"ftyp") },
        Mp4Atom { start: 20, header_size: 8, size: 30, kind: u32::from_be_bytes(*b"moov") },
        Mp4Atom { start: 50, header_size: 8, size: 40, kind: u32::from_be_bytes(*b"mdat") },
    ];
    assert!(faststart_layout(&atoms, 90).is_none());
    let trailing = vec![atoms[0], atoms[2], Mp4Atom { start: 90, ..atoms[1] }];
    let layout = faststart_layout(&trailing, 120).unwrap();
    assert_eq!(layout.ftyp.start, 0);
    assert_eq!(layout.moov.start, 90);
    assert_eq!(layout.rest.len(), 1);
    assert_eq!(layout.rest[0].start, 50);
    assert!(faststart_layout(&atoms[1..].to_vec(), 90).is_none());
}

#[test]
fn transport_runs_do_not_overlap() {
    let mut data = vec![0u8; 188 * 40 + 7 + 188 * 33];
    for i in 0..40 {
        data[i * 188] = 0x47;
    }
    for i in 0..33 {
        data[188 * 40 + 7 + i * 188] = 0x47;
    }
    let runs = detect_ts_packet_runs(&data);
    assert_eq!(runs.len(), 2);
    assert_eq!((runs[0].start, runs[0].end), (0, 188 * 40));
    assert_eq!((runs[1].start, runs[1].end), (188 * 40 + 7, 188 * 73 + 7));
    assert!(runs[0].end <= runs[1].start);
    assert_eq!(run_size(&runs[1]), 188 * 33);
    let mut pushed: Vec<TsPacketRun> = Vec::new();
    push_ts_run(&mut pushed, 188, 0, 31);
    assert!(pushed.is_empty());
    push_ts_run(&mut pushed, 188, 10, 32);
    assert_eq!((pushed[0].start, pushed[0].end), (10, 10 + 188 * 32));
    assert_eq!(decode_pts(&[0x21, 0x00, 0x01, 0x00, 0x03]), Some(1));
    assert_eq!(decode_pts(&[0x21]), None);
}
