//! Checking (and installing what is missing of) the host tools this project
//! expects, ffmpeg and aplay, and the piper voice models.
use vstd::prelude::*;

use crate::paths::{join_path, path_exists, path_join, PathAnswer};
use crate::say::arg_texts;
use crate::text::{chars_of, push_char, str_eq};

verus! {

/// The voice model files, relative to the voices root, mirroring the
/// rhasspy/piper-voices layout.
pub open spec fn voice_files_spec() -> Seq<Seq<char>> {
    seq![
        "en/en_US/amy/medium/en_US-amy-medium.onnx"@,
        "en/en_US/amy/medium/en_US-amy-medium.onnx.json"@,
        "ru/ru_RU/denis/medium/ru_RU-denis-medium.onnx"@,
        "ru/ru_RU/denis/medium/ru_RU-denis-medium.onnx.json"@,
        "ru/ru_RU/irina/medium/ru_RU-irina-medium.onnx"@,
        "ru/ru_RU/irina/medium/ru_RU-irina-medium.onnx.json"@,
    ]
}

/// The voice model files, relative to the voices root.
pub fn voice_files() -> (v: Vec<&'static str>)
    ensures
        v@.len() == voice_files_spec().len(),
        forall|i: int| 0 <= i < v@.len() ==> #[trigger] v@[i]@ == voice_files_spec()[i],
{
    let mut v: Vec<&'static str> = Vec::new();
    v.push("en/en_US/amy/medium/en_US-amy-medium.onnx");
    v.push("en/en_US/amy/medium/en_US-amy-medium.onnx.json");
    v.push("ru/ru_RU/denis/medium/ru_RU-denis-medium.onnx");
    v.push("ru/ru_RU/denis/medium/ru_RU-denis-medium.onnx.json");
    v.push("ru/ru_RU/irina/medium/ru_RU-irina-medium.onnx");
    v.push("ru/ru_RU/irina/medium/ru_RU-irina-medium.onnx.json");
    v
}

/// The host tools that are checked, by command name.
pub fn system_tools() -> (v: Vec<&'static str>)
    ensures
        v@.len() == 2,
        v@[0]@ == "ffmpeg"@,
        v@[1]@ == "aplay"@,
{
    let mut v: Vec<&'static str> = Vec::new();
    v.push("ffmpeg");
    v.push("aplay");
    v
}

/// The dnf package that provides a checked tool.
pub open spec fn package_spec(name: Seq<char>) -> Seq<char> {
    if name == "ffmpeg"@ {
        "ffmpeg-free"@
    } else {
        "alsa-utils"@
    }
}

/// The dnf package that provides the tool `name`, which is one of the
/// checked tools.
pub fn package_for(name: &str) -> (r: &'static str)
    requires
        name@ == "ffmpeg"@ || name@ == "aplay"@,
    ensures
        r@ == package_spec(name@),
{
    if str_eq(name, "ffmpeg") {
        "ffmpeg-free"
    } else {
        "alsa-utils"
    }
}

/// The directory under `home` that holds the voice models.
pub fn voices_root(home: &str) -> (r: String)
    ensures
        r@ == join_path(home@, ".local/share/piper-voices"@),
{
    path_join(home, ".local/share/piper-voices")
}

/// The answer about each voice model file under `root`, in order: each one
/// asked about its own path. Whether each exists depends on what is on disk.
pub fn check_voice_files(root: &str) -> (r: Vec<PathAnswer>)
    ensures
        r@.len() == voice_files_spec().len(),
        forall|i: int|
            0 <= i < r@.len() ==> (#[trigger] r@[i]).asked() == join_path(
                root@,
                voice_files_spec()[i],
            ),
{
    let files = voice_files();
    let mut r: Vec<PathAnswer> = Vec::new();
    let mut i: usize = 0;
    while i < files.len()
        invariant
            i <= files@.len(),
            files@.len() == voice_files_spec().len(),
            forall|k: int| 0 <= k < files@.len() ==> #[trigger] files@[k]@ == voice_files_spec()[k],
            r@.len() == i,
            forall|k: int|
                0 <= k < i ==> (#[trigger] r@[k]).asked() == join_path(root@, voice_files_spec()[k]),
        decreases files@.len() - i,
    {
        let path = path_join(root, files[i]);
        let answer = path_exists(path.as_str());
        let ghost before = r@;
        r.push(answer);
        assert forall|k: int| 0 <= k < i + 1 implies (#[trigger] r@[k]).asked() == join_path(
            root@,
            voice_files_spec()[k],
        ) by {
            if k < i {
                assert(r@[k] == before[k]);
            }
        }
        i = i + 1;
    }
    r
}

/// Each answer as a status line's parts: the path and whether something is
/// there.
pub fn voice_status(answers: &[PathAnswer]) -> (r: Vec<(String, bool)>)
    ensures
        r@.len() == answers@.len(),
        forall|i: int|
            0 <= i < r@.len() ==> (#[trigger] r@[i]).0@ == answers@[i].asked() && r@[i].1
                == answers@[i].found(),
{
    let mut r: Vec<(String, bool)> = Vec::new();
    let mut i: usize = 0;
    while i < answers.len()
        invariant
            i <= answers@.len(),
            r@.len() == i,
            forall|k: int|
                0 <= k < i ==> (#[trigger] r@[k]).0@ == answers@[k].asked() && r@[k].1
                    == answers@[k].found(),
        decreases answers@.len() - i,
    {
        let path = answers[i].path().clone();
        let present = answers[i].present();
        r.push((path, present));
        i = i + 1;
    }
    r
}

/// Whether every tool was found and every voice file is present.
pub open spec fn everything_present(
    voice_status: Seq<(String, bool)>,
    tool_status: Seq<(String, Option<String>)>,
) -> bool {
    &&& forall|i: int| 0 <= i < tool_status.len() ==> (#[trigger] tool_status[i]).1 is Some
    &&& forall|i: int| 0 <= i < voice_status.len() ==> (#[trigger] voice_status[i]).1
}

/// Whether nothing is missing: every tool resolved to a path and every
/// voice file present.
pub fn all_present(voice_status: &[(String, bool)], tool_status: &[(String, Option<String>)]) -> (r:
    bool)
    ensures
        r == everything_present(voice_status@, tool_status@),
{
    let mut i: usize = 0;
    while i < tool_status.len()
        invariant
            i <= tool_status@.len(),
            forall|k: int| 0 <= k < i ==> (#[trigger] tool_status@[k]).1 is Some,
        decreases tool_status@.len() - i,
    {
        if tool_status[i].1.is_none() {
            return false;
        }
        i = i + 1;
    }
    let mut j: usize = 0;
    while j < voice_status.len()
        invariant
            j <= voice_status@.len(),
            forall|k: int| 0 <= k < j ==> (#[trigger] voice_status@[k]).1,
        decreases voice_status@.len() - j,
    {
        if !voice_status[j].1 {
            return false;
        }
        j = j + 1;
    }
    true
}

/// Where the voice files are downloaded from.
pub open spec fn hf_base_url() -> Seq<char> {
    "https://huggingface.co/rhasspy/piper-voices/resolve/main"@
}

/// `s` with every backslash turned into a slash.
pub open spec fn slashes(s: Seq<char>) -> Seq<char> {
    Seq::new(s.len(), |i: int| if s[i] == '\\' { '/' } else { s[i] })
}

/// The address of the voice file at `relative` under the voices root.
pub open spec fn voice_url_spec(relative: Seq<char>) -> Seq<char> {
    hf_base_url() + "/"@ + slashes(relative)
}

/// The address to download the voice file at `relative` (relative to the
/// voices root, mirroring the repository's layout) from.
pub fn voice_file_url(relative: &str) -> (r: String)
    ensures
        r@ == voice_url_spec(relative@),
{
    let c = chars_of(relative);
    let mut r = "https://huggingface.co/rhasspy/piper-voices/resolve/main".to_owned();
    r.append("/");
    let ghost head = r@;
    let mut i: usize = 0;
    while i < c.len()
        invariant
            c@ == relative@,
            i <= c@.len(),
            r@ == head + slashes(c@.take(i as int)),
        decreases c@.len() - i,
    {
        let ch = if c[i] == '\\' {
            '/'
        } else {
            c[i]
        };
        push_char(&mut r, ch);
        assert(slashes(c@.take(i + 1)) =~= slashes(c@.take(i as int)).push(ch));
        i = i + 1;
    }
    assert(c@.take(c@.len() as int) =~= c@);
    r
}

/// The tools to install: the name and package of each one not found, in
/// order.
pub open spec fn tools_to_install_spec(tool_status: Seq<(String, Option<String>)>) -> Seq<
    (Seq<char>, Seq<char>),
>
    decreases tool_status.len(),
{
    if tool_status.len() == 0 {
        Seq::empty()
    } else {
        let init = tools_to_install_spec(tool_status.drop_last());
        let last = tool_status.last();
        if last.1 is Some {
            init
        } else {
            init.push((last.0@, package_spec(last.0@)))
        }
    }
}

/// Whether every tool in the status is one of the checked tools.
pub open spec fn known_tools(tool_status: Seq<(String, Option<String>)>) -> bool {
    forall|i: int|
        0 <= i < tool_status.len() ==> (#[trigger] tool_status[i]).0@ == "ffmpeg"@
            || tool_status[i].0@ == "aplay"@
}

/// The name and dnf package of each tool that was not found, in order.
pub fn tools_to_install(tool_status: &[(String, Option<String>)]) -> (r: Vec<(String, String)>)
    requires
        known_tools(tool_status@),
    ensures
        r@.len() == tools_to_install_spec(tool_status@).len(),
        forall|k: int|
            0 <= k < r@.len() ==> (#[trigger] r@[k]).0@ == tools_to_install_spec(tool_status@)[k].0
                && r@[k].1@ == tools_to_install_spec(tool_status@)[k].1,
{
    let mut r: Vec<(String, String)> = Vec::new();
    let mut i: usize = 0;
    assert(tool_status@.take(0) =~= Seq::<(String, Option<String>)>::empty());
    while i < tool_status.len()
        invariant
            i <= tool_status@.len(),
            known_tools(tool_status@),
            r@.len() == tools_to_install_spec(tool_status@.take(i as int)).len(),
            forall|k: int|
                0 <= k < r@.len() ==> (#[trigger] r@[k]).0@ == tools_to_install_spec(
                    tool_status@.take(i as int),
                )[k].0 && r@[k].1@ == tools_to_install_spec(tool_status@.take(i as int))[k].1,
        decreases tool_status@.len() - i,
    {
        assert(tool_status@.take(i + 1).drop_last() =~= tool_status@.take(i as int));
        assert(tool_status@.take(i + 1).last() == tool_status@[i as int]);
        if tool_status[i].1.is_none() {
            let name = tool_status[i].0.clone();
            let package = package_for(name.as_str()).to_owned();
            r.push((name, package));
        }
        i = i + 1;
    }
    assert(tool_status@.take(tool_status@.len() as int) =~= tool_status@);
    r
}

/// The status line of a tool: where it was found, or how to install it.
pub open spec fn tool_line(name: Seq<char>, resolved: Option<Seq<char>>) -> Seq<char> {
    match resolved {
        Some(p) => "ok       "@ + name + " -> "@ + p,
        None => "MISSING  "@ + name + " -> dnf install -y "@ + package_spec(name),
    }
}

/// The status line of a voice file.
pub open spec fn voice_line(path: Seq<char>, present: bool) -> Seq<char> {
    (if present {
        "ok     "@
    } else {
        "MISSING"@
    }) + "  "@ + path
}

/// The status report: a line per tool, then a line per voice file.
pub fn report_lines(voice_status: &[(String, bool)], tool_status: &[(String, Option<String>)]) -> (r:
    Vec<String>)
    requires
        known_tools(tool_status@),
    ensures
        r@.len() == tool_status@.len() + voice_status@.len(),
        forall|i: int|
            0 <= i < tool_status@.len() ==> (#[trigger] r@[i])@ == tool_line(
                tool_status@[i].0@,
                crate::say::opt_view(tool_status@[i].1),
            ),
        forall|i: int|
            0 <= i < voice_status@.len() ==> (#[trigger] r@[tool_status@.len() + i])@ == voice_line(
                voice_status@[i].0@,
                voice_status@[i].1,
            ),
{
    let mut r: Vec<String> = Vec::new();
    let mut i: usize = 0;
    while i < tool_status.len()
        invariant
            i <= tool_status@.len(),
            known_tools(tool_status@),
            r@.len() == i,
            forall|k: int|
                0 <= k < i ==> (#[trigger] r@[k])@ == tool_line(
                    tool_status@[k].0@,
                    crate::say::opt_view(tool_status@[k].1),
                ),
        decreases tool_status@.len() - i,
    {
        let name = tool_status[i].0.as_str();
        let line = match &tool_status[i].1 {
            Some(path) => {
                let mut m = "ok       ".to_owned();
                m.append(name);
                m.append(" -> ");
                m.append(path.as_str());
                m
            },
            None => {
                let mut m = "MISSING  ".to_owned();
                m.append(name);
                m.append(" -> dnf install -y ");
                m.append(package_for(name));
                m
            },
        };
        r.push(line);
        i = i + 1;
    }
    let mut j: usize = 0;
    while j < voice_status.len()
        invariant
            j <= voice_status@.len(),
            r@.len() == tool_status@.len() + j,
            forall|k: int|
                0 <= k < tool_status@.len() ==> (#[trigger] r@[k])@ == tool_line(
                    tool_status@[k].0@,
                    crate::say::opt_view(tool_status@[k].1),
                ),
            forall|k: int|
                0 <= k < j ==> (#[trigger] r@[tool_status@.len() + k])@ == voice_line(
                    voice_status@[k].0@,
                    voice_status@[k].1,
                ),
        decreases voice_status@.len() - j,
    {
        let mut m = if voice_status[j].1 {
            "ok     ".to_owned()
        } else {
            "MISSING".to_owned()
        };
        m.append("  ");
        m.append(voice_status[j].0.as_str());
        r.push(m);
        j = j + 1;
    }
    r
}

/// What the arguments ask for: nothing means check only, `--install` means
/// install what is missing; anything else is a usage error.
pub open spec fn install_flag(args: Seq<Seq<char>>) -> Result<bool, Seq<char>> {
    if args.len() == 0 {
        Ok(false)
    } else if args.len() == 1 && args[0] == "--install"@ {
        Ok(true)
    } else {
        Err("usage: setup_piper_voices [--install]"@)
    }
}

/// Reads the arguments: whether to install what is missing.
pub fn parse_args(args: &[String]) -> (r: Result<bool, String>)
    ensures
        match install_flag(arg_texts(args@)) {
            Ok(b) => r == Ok::<bool, String>(b),
            Err(m) => r matches Err(e) && e@ == m,
        },
{
    if args.len() == 0 {
        return Ok(false);
    }
    if args.len() == 1 && str_eq(args[0].as_str(), "--install") {
        return Ok(true);
    }
    Err("usage: setup_piper_voices [--install]".to_owned())
}

/// The host is complete exactly when nothing is missing: one voice file
/// that is not there, or one tool that was not found, makes it incomplete,
/// and such a tool is among those to install.
pub proof fn law_anything_missing_means_incomplete(
    voice_status: Seq<(String, bool)>,
    tool_status: Seq<(String, Option<String>)>,
)
    ensures
        (exists|i: int| 0 <= i < voice_status.len() && !(#[trigger] voice_status[i]).1)
            ==> !everything_present(voice_status, tool_status),
        (exists|i: int| 0 <= i < tool_status.len() && (#[trigger] tool_status[i]).1 is None)
            ==> !everything_present(voice_status, tool_status),
        (forall|i: int| 0 <= i < voice_status.len() ==> (#[trigger] voice_status[i]).1) && (forall|
            i: int,
        |
            0 <= i < tool_status.len() ==> (#[trigger] tool_status[i]).1 is Some)
            ==> everything_present(voice_status, tool_status),
{
}

} // verus!
