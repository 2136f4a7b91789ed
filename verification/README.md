# open-course-player

A desktop player for local course folders. This crate is its core, written in Verus: every
function in `src/` carries a contract that the verifier proves.

- `src/` — the library: media recognition (`sniff`, `media_types`), the library tree
  (`media_library`, `paths`), the local media server's HTTP surface and sources (`http`,
  `media_source`), MP4 structure, fast start and `.sz` diagnosis (`mp4_atoms`, `mp4_layout`,
  `mp4_patch`, `sz_diagnosis`), MPEG transport streams (`mpegts`, `ts_clock`), audio headers
  (`audio`), subtitles (`subtitles`), FFmpeg (`ffmpeg`, `ffmpeg_log`), duration probes
  (`probing`), external players (`mpv`, `file_location`) and the playback history
  (`playback_history`).
- `tests/` — tests on concrete values.
- `app/` — the Tauri shell: commands, files, sockets, threads, processes, and the
  floating-point measures (durations, entropy).
