//! Showing a file or folder in the system's file manager.
use vstd::prelude::*;
use crate::paths::{strip_verbatim_prefix, without_verbatim_prefix};
use crate::text::{
    chars_of, concat_text, push_text, starts_with, string_of, strip_prefix_text, trim, trim_char,
    trim_chars, trim_matching_char,
};

verus! {

/// `p` without a leading `file:///` or `file://`.
pub open spec fn without_file_scheme(p: Seq<char>) -> Seq<char> {
    if starts_with(p, "file:///"@) {
        p.subrange(8, p.len() as int)
    } else if starts_with(p, "file://"@) {
        p.subrange(7, p.len() as int)
    } else {
        p
    }
}

/// A path to reveal, from what the user gave: unquoted, without a `file://` scheme and
/// without an extended-length prefix.
pub open spec fn normalized_reveal_path(p: Seq<char>) -> Seq<char> {
    without_verbatim_prefix(without_file_scheme(trim_char(p, '"')))
}

/// The path to reveal for `path` (see `normalized_reveal_path`).
pub fn normalize_path(path: &str) -> (r: String)
    ensures
        r@ == normalized_reveal_path(path@),
{
    proof {
        reveal_strlit("file:///");
        reveal_strlit("file://");
    }
    let v = trim_matching_char(&chars_of(path), '"');
    let rest = match strip_prefix_text(&v, "file:///") {
        Some(r) => r,
        None => match strip_prefix_text(&v, "file://") {
            Some(r) => r,
            None => v,
        },
    };
    strip_verbatim_prefix(&rest)
}

/// The path that `reveal_path` looks for, from the text the user gave (trimmed first).
pub open spec fn reveal_target_of(path: Seq<char>) -> Seq<char> {
    normalized_reveal_path(trim(path))
}

/// The path to reveal, or the error for an empty one. Whether it exists is for the caller to
/// find out; `missing_path_message` words the error when it does not.
pub fn reveal_path(path: &str) -> (r: Result<String, String>)
    ensures
        reveal_target_of(path@).len() == 0 ==> (r matches Err(e) && e@ == "路径不能为空"@),
        reveal_target_of(path@).len() > 0 ==> (r matches Ok(p) && p@ == reveal_target_of(path@)),
{
    let t = string_of(&trim_chars(&chars_of(path)));
    let p = normalize_path(t.as_str());
    if chars_of(p.as_str()).len() == 0 {
        return Err(String::from_str("路径不能为空"));
    }
    Ok(p)
}

/// The error for a path that does not exist.
pub fn missing_path_message(path: &str) -> (r: String)
    ensures
        r@ == "路径不存在："@ + path@,
{
    concat_text("路径不存在：", path)
}

/// The systems the file manager is opened on.
#[derive(Clone, Copy, Debug, PartialEq, Eq, Structural)]
pub enum Platform {
    Windows,
    MacOs,
    Linux,
    Mobile,
    OtherUnix,
}

/// A program to start and its arguments.
#[derive(Clone, Debug)]
pub struct LaunchCommand {
    pub program: &'static str,
    pub args: Vec<String>,
}

/// The view of a command: the program and its arguments.
pub open spec fn command_view(c: LaunchCommand) -> (Seq<char>, Seq<Seq<char>>) {
    (c.program@, c.args@.map_values(|a: String| a@))
}

/// The command that shows `path` in the file manager of `platform`: the file selected in its
/// folder where `is_file` and the system can select, the folder itself otherwise (on Linux the
/// file's `parent`, where it has one); or the error on systems without one.
pub open spec fn reveal_command_of(platform: Platform, path: Seq<char>, is_file: bool, parent: Option<Seq<char>>) -> Result<(Seq<char>, Seq<Seq<char>>), Seq<char>> {
    match platform {
        Platform::Windows => Ok(("explorer.exe"@, if is_file { seq!["/select,"@, path] } else { seq![path] })),
        Platform::MacOs => Ok(("open"@, if is_file { seq!["-R"@, path] } else { seq![path] })),
        Platform::Linux => Ok((
            "xdg-open"@,
            seq![if is_file { match parent { Some(d) => d, None => path } } else { path }],
        )),
        Platform::Mobile => Err("移动端不支持打开系统文件所在位置"@),
        Platform::OtherUnix => Err("当前平台暂不支持打开文件所在位置"@),
    }
}

/// Revealing a file selects it in its folder: on macOS `open -R <path>` (plain `open <path>`
/// would open the file itself), on Windows `explorer.exe /select,<path>`; a folder is opened
/// as it is. So on both, the arguments for a file are those for a folder with the selecting
/// flag in front.
pub proof fn lemma_reveal_selects_files(path: Seq<char>, parent: Option<Seq<char>>)
    ensures
        reveal_command_of(Platform::MacOs, path, true, parent) == Ok::<(Seq<char>, Seq<Seq<char>>), Seq<char>>(("open"@, seq!["-R"@, path])),
        reveal_command_of(Platform::MacOs, path, false, parent) == Ok::<(Seq<char>, Seq<Seq<char>>), Seq<char>>(("open"@, seq![path])),
        reveal_command_of(Platform::Windows, path, true, parent) == Ok::<(Seq<char>, Seq<Seq<char>>), Seq<char>>(("explorer.exe"@, seq!["/select,"@, path])),
        reveal_command_of(Platform::Windows, path, false, parent) == Ok::<(Seq<char>, Seq<Seq<char>>), Seq<char>>(("explorer.exe"@, seq![path])),
{
}

pub open spec fn opt_str_view(p: Option<&str>) -> Option<Seq<char>> {
    match p {
        Some(s) => Some(s@),
        None => None,
    }
}

fn text_of(s: &str) -> (r: String)
    ensures
        r@ == s@,
{
    let mut r = String::new();
    push_text(&mut r, s);
    r
}

/// The command that reveals `path` (see `reveal_command_of`).
pub fn reveal_in_file_manager(platform: Platform, path: &str, is_file: bool, parent: Option<&str>) -> (r: Result<LaunchCommand, String>)
    ensures
        match reveal_command_of(platform, path@, is_file, opt_str_view(parent)) {
            Ok(c) => r matches Ok(cmd) && command_view(cmd) == c,
            Err(e) => r matches Err(msg) && msg@ == e,
        },
{
    let mut args: Vec<String> = Vec::new();
    match platform {
        Platform::Windows => {
            if is_file {
                args.push(text_of("/select,"));
            }
            args.push(text_of(path));
            let r = LaunchCommand { program: "explorer.exe", args };
            assert(command_view(r).1 =~= (if is_file { seq!["/select,"@, path@] } else { seq![path@] }));
            Ok(r)
        },
        Platform::MacOs => {
            if is_file {
                args.push(text_of("-R"));
            }
            args.push(text_of(path));
            let r = LaunchCommand { program: "open", args };
            assert(command_view(r).1 =~= (if is_file { seq!["-R"@, path@] } else { seq![path@] }));
            Ok(r)
        },
        Platform::Linux => {
            let target = if is_file {
                match parent {
                    Some(d) => d,
                    None => path,
                }
            } else {
                path
            };
            args.push(text_of(target));
            let r = LaunchCommand { program: "xdg-open", args };
            assert(command_view(r).1 =~= seq![target@]);
            Ok(r)
        },
        Platform::Mobile => Err(String::from_str("移动端不支持打开系统文件所在位置")),
        Platform::OtherUnix => Err(String::from_str("当前平台暂不支持打开文件所在位置")),
    }
}

/// The error when the file manager cannot be started.
pub fn reveal_failure_message(error: &str) -> (r: String)
    ensures
        r@ == "打开文件所在位置失败："@ + error@,
{
    concat_text("打开文件所在位置失败：", error)
}

} // verus!
