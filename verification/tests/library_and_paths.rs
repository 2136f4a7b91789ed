use open_course_player::file_location::{
    missing_path_message, normalize_path as reveal_normalize, reveal_failure_message,
    reveal_in_file_manager, reveal_path, Platform,
};
use open_course_player::media_library::{file_node, folder_node, scan_depth_exceeded, scan_order};
use open_course_player::media_types::{
    classify_file, classify_format, document_mime_for_path, is_document_extension,
    mime_for_detected_format, mime_for_path,
};
use open_course_player::mpv::{mpv_failure_message, mpv_target, open_with_system_player};
use open_course_player::paths::{display_path, is_hidden_name, media_token, normalize_path, stable_id};
use open_course_player::playback_history::{normalize_roots, prepare_history_for_save, PlaybackHistory};
use open_course_player::sniff::DetectedFormat;

fn strings(items: &[&str]) -> Vec<String> {
    items.iter().map(|item| item.to_string()).collect()
}

#[test]
fn normalize_roots_drops_blank_and_repeated_roots_in_order() {
    let roots = strings(&["  ", "/a", "/b", "/a", "", "/c", "\t\n", "/b"]);
    assert_eq!(normalize_roots(roots), strings(&["/a", "/b", "/c"]));
}

#[test]
fn normalize_roots_is_idempotent() {
    let once = normalize_roots(strings(&["/x", " /x", "/x", "/y", " "]));
    assert_eq!(once, strings(&["/x", " /x", "/y"]));
    assert_eq!(normalize_roots(once.clone()), once);
}

#[test]
fn saving_history_normalizes_roots_and_stamps_time() {
    let history = PlaybackHistory {
        roots: strings(&["/a", "/a", " "]),
        active_root_path: Some("/a".to_string()),
        last_media_path: Some("/a/1.ts".to_string()),
        updated_at: None,
    };
    let saved = prepare_history_for_save(history, 1_700_000_000);
    assert_eq!(saved.roots, strings(&["/a"]));
    assert_eq!(saved.active_root_path.as_deref(), Some("/a"));
    assert_eq!(saved.last_media_path.as_deref(), Some("/a/1.ts"));
    assert_eq!(saved.updated_at, Some(1_700_000_000));
    let empty = PlaybackHistory::default();
    assert!(empty.roots.is_empty() && empty.updated_at.is_none());
}

#[test]
fn media_paths_lose_quotes_and_extended_prefixes() {
    assert_eq!(normalize_path("  \"\\\\?\\UNC\\server\\share\\x.mp4\"  "), "\\\\server\\share\\x.mp4");
    assert_eq!(normalize_path("\\\\?\\C:\\course\\a.mp4"), "C:\\course\\a.mp4");
    assert_eq!(normalize_path("/home/u/a.ts"), "/home/u/a.ts");
    assert_eq!(display_path("\\\\?\\C:\\a"), "C:\\a");
    assert_eq!(display_path("/a/b"), "/a/b");
}

#[test]
fn hidden_names_are_dot_files_and_system_volume_information() {
    assert!(is_hidden_name(".git"));
    assert!(is_hidden_name("system volume INFORMATION"));
    assert!(!is_hidden_name("Videos"));
    assert!(!is_hidden_name(""));
}

#[test]
fn identifiers_are_lower_case_hexadecimal() {
    let id = stable_id("/course/1.mp4");
    assert_eq!(id, stable_id("/course/1.mp4"));
    assert!(!id.is_empty() && id.chars().all(|c| c.is_ascii_hexdigit() && !c.is_ascii_uppercase()));
    assert_ne!(id, "/course/1.mp4");
    let token = media_token("/course/1.mp4", 10, 5);
    assert!(!token.is_empty() && token.chars().all(|c| c.is_ascii_hexdigit() && !c.is_ascii_uppercase()));
}

#[test]
fn reveal_paths_are_unquoted_and_lose_file_scheme() {
    assert_eq!(reveal_normalize("\"file:///C:/a b.mp4\""), "C:/a b.mp4");
    assert_eq!(reveal_normalize("file:///home/u"), "home/u");
    assert_eq!(reveal_normalize("file://server/x"), "server/x");
    assert_eq!(reveal_normalize("\\\\?\\UNC\\srv\\s"), "\\\\srv\\s");
    assert_eq!(reveal_path("   ").unwrap_err(), "路径不能为空");
    assert_eq!(reveal_path("\"\"").unwrap_err(), "路径不能为空");
    assert_eq!(reveal_path("  /tmp/a  ").unwrap(), "/tmp/a");
    assert_eq!(missing_path_message("/x"), "路径不存在：/x");
    assert_eq!(reveal_failure_message("denied"), "打开文件所在位置失败：denied");
}

#[test]
fn file_managers_select_files_or_open_folders() {
    let windows = reveal_in_file_manager(Platform::Windows, "C:\\a.mp4", true, None).unwrap();
    assert_eq!(windows.program, "explorer.exe");
    assert_eq!(windows.args, strings(&["/select,", "C:\\a.mp4"]));
    let mac = reveal_in_file_manager(Platform::MacOs, "/a", false, None).unwrap();
    assert_eq!(mac.program, "open");
    assert_eq!(mac.args, strings(&["/a"]));
    let linux = reveal_in_file_manager(Platform::Linux, "/a/b.mp4", true, Some("/a")).unwrap();
    assert_eq!(linux.program, "xdg-open");
    assert_eq!(linux.args, strings(&["/a"]));
    assert_eq!(
        reveal_in_file_manager(Platform::Mobile, "/a", true, None).unwrap_err(),
        "移动端不支持打开系统文件所在位置"
    );
    assert_eq!(
        reveal_in_file_manager(Platform::OtherUnix, "/a", true, None).unwrap_err(),
        "当前平台暂不支持打开文件所在位置"
    );
}

#[test]
fn mpv_targets_and_fallback_player() {
    assert_eq!(mpv_target("  \"/x.mp4\" ").unwrap(), "/x.mp4");
    assert_eq!(mpv_target(" \t ").unwrap_err(), "媒体路径不能为空");
    assert_eq!(
        mpv_failure_message("no mpv", "no player"),
        "启动 mpv 失败：no mpv；系统默认播放器也启动失败：no player"
    );
    let windows = open_with_system_player(Platform::Windows, "C:\\a.mp4");
    assert_eq!(windows.program, "cmd");
    assert_eq!(windows.args, strings(&["/C", "start", "", "C:\\a.mp4"]));
    assert_eq!(open_with_system_player(Platform::Linux, "/a").program, "xdg-open");
}

#[test]
fn classification_follows_documents_then_bytes_then_extension() {
    let c = classify_file(Some("PDF"), Some(DetectedFormat::MpegTs));
    assert_eq!((c.kind, c.playable, c.engine), ("document", true, "document"));
    let c = classify_file(Some("mp3"), Some(DetectedFormat::MpegTs));
    assert_eq!((c.kind, c.engine), ("video", "mpegts"));
    let c = classify_file(Some("MKV"), None);
    assert_eq!((c.kind, c.playable, c.engine), ("video", true, "mpv"));
    let c = classify_file(Some("m\u{212a}v"), None);
    assert_eq!(c.engine, "mpv");
    let c = classify_file(Some("m3u8"), None);
    assert_eq!(c.engine, "easy-player");
    let c = classify_file(Some("srt"), None);
    assert_eq!((c.kind, c.playable, c.engine), ("subtitle", false, "unsupported"));
    let c = classify_file(Some("exe"), None);
    assert_eq!(c.kind, "unknown");
    let c = classify_file(None, Some(DetectedFormat::Flac));
    assert_eq!((c.kind, c.engine), ("audio", "web-video"));
    let c = classify_format(DetectedFormat::Webm);
    assert_eq!((c.kind, c.engine), ("video", "web-video"));
    assert!(is_document_extension(".pptx"));
    assert!(!is_document_extension("pptx"));
}

#[test]
fn mime_types_by_document_bytes_and_extension() {
    assert_eq!(document_mime_for_path(Some("DOC")), Some("application/msword"));
    assert_eq!(document_mime_for_path(Some("mp4")), None);
    assert_eq!(mime_for_path(Some("docx"), Some(DetectedFormat::Mp4)),
        "application/vnd.openxmlformats-officedocument.wordprocessingml.document");
    assert_eq!(mime_for_path(Some("srt"), None), "application/x-subrip; charset=utf-8");
    assert_eq!(mime_for_path(Some("M4A"), None), "audio/aac");
    assert_eq!(mime_for_path(Some("xyz"), None), "application/octet-stream");
    assert_eq!(mime_for_path(None, None), "application/octet-stream");
    assert_eq!(mime_for_detected_format(DetectedFormat::Wav), "audio/wav");
}

#[test]
fn directory_entries_show_folders_first_then_files_by_name() {
    let entries = vec![
        ("b.mp4".to_string(), true),
        (".hidden".to_string(), false),
        ("A".to_string(), false),
        ("a.mp4".to_string(), true),
        ("Z-dir".to_string(), false),
        ("System Volume Information".to_string(), false),
        ("B.MP4".to_string(), true),
    ];
    assert_eq!(scan_order(&entries), vec![2, 4, 3, 0, 6]);
}

#[test]
fn library_nodes_skip_empty_folders_and_unknown_files() {
    assert!(scan_depth_exceeded(9));
    assert!(!scan_depth_exceeded(8));
    assert!(folder_node("/r/empty", "empty".to_string(), Vec::new()).is_none());
    let unknown = classify_file(Some("exe"), None);
    assert!(file_node("/r/x.exe", "x.exe".to_string(), unknown).is_none());
    let video = classify_file(Some("ts"), None);
    let node = file_node("\\\\?\\C:\\r\\1.ts", "1.ts".to_string(), video).unwrap();
    assert_eq!(node.path, "C:\\r\\1.ts");
    assert_eq!(node.kind, "video");
    assert_eq!(node.engine, "mpegts");
    assert_eq!(node.id, stable_id("\\\\?\\C:\\r\\1.ts"));
    assert!(node.children.is_none());
    let folder = folder_node("/r/course", "course".to_string(), vec![node]).unwrap();
    assert_eq!(folder.kind, "folder");
    assert!(!folder.playable);
    assert_eq!(folder.engine, "unsupported");
    assert_eq!(folder.children.as_ref().map(Vec::len), Some(1));
}
