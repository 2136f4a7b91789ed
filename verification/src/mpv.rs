//! Playing a file in mpv, or in the system's default player when mpv cannot be started.
use vstd::prelude::*;
use crate::file_location::{command_view, LaunchCommand, Platform};
use crate::text::{chars_of, is_blank, is_blank_chars, push_text, string_of, trim, trim_char, trim_chars, trim_matching_char};

verus! {

/// The path to play, from what the user gave: trimmed and unquoted; or the error for a blank
/// one.
pub fn mpv_target(path: &str) -> (r: Result<String, String>)
    ensures
        is_blank(path@) ==> (r matches Err(e) && e@ == "媒体路径不能为空"@),
        !is_blank(path@) ==> (r matches Ok(p) && p@ == trim_char(trim(path@), '"')),
{
    let v = chars_of(path);
    if is_blank_chars(&v) {
        return Err(String::from_str("媒体路径不能为空"));
    }
    let t = trim_matching_char(&trim_chars(&v), '"');
    Ok(string_of(&t))
}

/// The error when neither mpv nor the system's player could be started.
pub fn mpv_failure_message(mpv_error: &str, system_error: &str) -> (r: String)
    ensures
        r@ == "启动 mpv 失败："@ + mpv_error@ + "；系统默认播放器也启动失败："@ + system_error@,
{
    let mut s = String::new();
    push_text(&mut s, "启动 mpv 失败：");
    push_text(&mut s, mpv_error);
    push_text(&mut s, "；系统默认播放器也启动失败：");
    push_text(&mut s, system_error);
    s
}

/// The command that opens `path` in the system's default player.
pub open spec fn system_player_command_of(platform: Platform, path: Seq<char>) -> (Seq<char>, Seq<Seq<char>>) {
    match platform {
        Platform::Windows => ("cmd"@, seq!["/C"@, "start"@, ""@, path]),
        Platform::MacOs => ("open"@, seq![path]),
        _ => ("xdg-open"@, seq![path]),
    }
}

fn text_of(s: &str) -> (r: String)
    ensures
        r@ == s@,
{
    let mut r = String::new();
    push_text(&mut r, s);
    r
}

/// The command that opens `path` in the default player of `platform`.
pub fn open_with_system_player(platform: Platform, path: &str) -> (r: LaunchCommand)
    ensures
        command_view(r) == system_player_command_of(platform, path@),
{
    let mut args: Vec<String> = Vec::new();
    match platform {
        Platform::Windows => {
            args.push(text_of("/C"));
            args.push(text_of("start"));
            args.push(text_of(""));
            args.push(text_of(path));
            let r = LaunchCommand { program: "cmd", args };
            assert(command_view(r).1 =~= seq!["/C"@, "start"@, ""@, path@]);
            r
        },
        Platform::MacOs => {
            args.push(text_of(path));
            let r = LaunchCommand { program: "open", args };
            assert(command_view(r).1 =~= seq![path@]);
            r
        },
        _ => {
            args.push(text_of(path));
            let r = LaunchCommand { program: "xdg-open", args };
            assert(command_view(r).1 =~= seq![path@]);
            r
        },
    }
}

} // verus!
