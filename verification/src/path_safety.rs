//! Classifying where a write is headed: descendants of system directories
//! are blocked, descendants of the user's configuration directories and of
//! known per-tool directories are safe, and everything else earns a
//! warning.  The classifier works on canonicalized path text; resolving
//! symbolic links is the caller's business, so a link inside a safe
//! directory pointing into a system directory is classified by where it
//! really leads.

use vstd::prelude::*;
use vstd::string::StrSliceExecFns;
use vstd::string::StringExecFns;
use crate::text::{starts_with, str_to_string};

verus! {

/// How safe a write to a path is without explicit confirmation.
#[derive(Debug, Clone, Copy, PartialEq, Eq, Structural)]
pub enum PathSafetyLevel {
    /// A well-known configuration location.
    Safe,
    /// An unusual location: ask first.
    Warn,
    /// A system location: block, or demand strong confirmation.
    Block,
}

/// The platform whose directory conventions apply.
#[derive(Debug, Clone, Copy, PartialEq, Eq, Structural)]
pub enum Platform {
    Linux,
    Macos,
    Windows,
}

/// A path separator on either platform.
pub open spec fn is_path_sep(c: char) -> bool {
    c == '/' || c == '\\'
}

/// Whether `path` names `dir` itself or something below it: `dir` is a
/// textual prefix and the split falls on a component boundary.
pub open spec fn spec_under_dir(path: Seq<char>, dir: Seq<char>) -> bool {
    &&& dir.len() > 0
    &&& dir.is_prefix_of(path)
    &&& (path.len() == dir.len() || is_path_sep(path[dir.len() as int]) || is_path_sep(dir.last()))
}

/// Whether `path` sits under any of `dirs`.
pub open spec fn spec_under_any(path: Seq<char>, dirs: Seq<Seq<char>>) -> bool {
    exists|i: int| 0 <= i < dirs.len() && spec_under_dir(path, #[trigger] dirs[i])
}

/// The classification: the deny list is authoritative, then the allow
/// list, and everything else warns.
pub open spec fn spec_safety_level(
    path: Seq<char>,
    blocked: Seq<Seq<char>>,
    safe: Seq<Seq<char>>,
) -> PathSafetyLevel {
    if spec_under_any(path, blocked) {
        PathSafetyLevel::Block
    } else if spec_under_any(path, safe) {
        PathSafetyLevel::Safe
    } else {
        PathSafetyLevel::Warn
    }
}

/// Whether `path` names `dir` or a descendant of it.
pub fn is_under_dir(path: &str, dir: &str) -> (r: bool)
    ensures
        r == spec_under_dir(path@, dir@),
{
    let dlen = dir.unicode_len();
    if dlen == 0 {
        return false;
    }
    if !starts_with(path, dir) {
        return false;
    }
    let plen = path.unicode_len();
    if plen == dlen {
        return true;
    }
    let boundary = path.get_char(dlen);
    if boundary == '/' || boundary == '\\' {
        return true;
    }
    let last = dir.get_char(dlen - 1);
    last == '/' || last == '\\'
}

/// Whether `path` sits under any of the given directories.
pub fn is_under_any(path: &str, dirs: &Vec<String>) -> (r: bool)
    ensures
        r == spec_under_any(path@, dirs.deep_view()),
{
    let n = dirs.len();
    let mut i: usize = 0;
    while i < n
        invariant
            n == dirs.len(),
            0 <= i <= n,
            forall|j: int| 0 <= j < i ==> !spec_under_dir(path@, #[trigger] dirs.deep_view()[j]),
        decreases n - i,
    {
        if is_under_dir(path, dirs[i].as_str()) {
            proof {
                assert(dirs.deep_view()[i as int] == dirs@[i as int]@);
                assert(spec_under_dir(path@, dirs.deep_view()[i as int]));
            }
            return true;
        }
        proof {
            assert(dirs.deep_view()[i as int] == dirs@[i as int]@);
        }
        i += 1;
    }
    false
}

/// The deny list of each platform.
pub open spec fn spec_blocked_dirs(platform: Platform) -> Seq<Seq<char>> {
    match platform {
        Platform::Linux => seq![
            "/bin"@,
            "/sbin"@,
            "/usr/bin"@,
            "/usr/sbin"@,
            "/usr/lib"@,
            "/usr/lib64"@,
            "/lib"@,
            "/lib64"@,
            "/etc"@,
            "/var"@,
            "/boot"@,
            "/root"@,
        ],
        Platform::Macos => seq![
            "/bin"@,
            "/sbin"@,
            "/usr/bin"@,
            "/usr/sbin"@,
            "/usr/lib"@,
            "/usr/lib64"@,
            "/lib"@,
            "/lib64"@,
            "/etc"@,
            "/var"@,
            "/boot"@,
            "/root"@,
            "/System"@,
            "/Library"@,
            "/private"@,
        ],
        Platform::Windows => seq![
            "C:\\Windows"@,
            "C:\\Program Files"@,
            "C:\\Program Files (x86)"@,
        ],
    }
}

/// The directories whose descendants are dangerous to write to.
pub fn get_blocked_directories(platform: Platform) -> (r: Vec<String>)
    ensures
        r.deep_view() == spec_blocked_dirs(platform),
{
    let mut dirs: Vec<String> = Vec::new();
    match platform {
        Platform::Windows => {
            dirs.push(str_to_string("C:\\Windows"));
            dirs.push(str_to_string("C:\\Program Files"));
            dirs.push(str_to_string("C:\\Program Files (x86)"));
        },
        _ => {
            dirs.push(str_to_string("/bin"));
            dirs.push(str_to_string("/sbin"));
            dirs.push(str_to_string("/usr/bin"));
            dirs.push(str_to_string("/usr/sbin"));
            dirs.push(str_to_string("/usr/lib"));
            dirs.push(str_to_string("/usr/lib64"));
            dirs.push(str_to_string("/lib"));
            dirs.push(str_to_string("/lib64"));
            dirs.push(str_to_string("/etc"));
            dirs.push(str_to_string("/var"));
            dirs.push(str_to_string("/boot"));
            dirs.push(str_to_string("/root"));
            match platform {
                Platform::Macos => {
                    dirs.push(str_to_string("/System"));
                    dirs.push(str_to_string("/Library"));
                    dirs.push(str_to_string("/private"));
                },
                _ => {},
            }
        },
    }
    proof {
        assert(dirs.deep_view() =~= spec_blocked_dirs(platform));
    }
    dirs
}

/// The per-tool directories under the user's home whose descendants are
/// safe.
pub open spec fn spec_known_tool_dirs() -> Seq<Seq<char>> {
    seq![
        ".aider"@,
        ".amp"@,
        ".augment"@,
        ".agent"@,
        ".continue"@,
        ".cursor"@,
        ".droid"@,
        ".kiro"@,
        ".cody"@,
        ".opencode"@,
        ".qwen-code"@,
        ".copilot"@,
        ".github"@,
        ".vscode"@,
        ".rovodev"@,
    ]
}

/// The allow list: home configuration directories, the known per-tool
/// directories, the platform's extra locations, and the user's
/// configuration and data directories when known.
pub open spec fn spec_safe_dirs(
    platform: Platform,
    home: Seq<char>,
    config: Option<Seq<char>>,
    data: Option<Seq<char>>,
) -> Seq<Seq<char>> {
    seq![home + "/.config"@, home + "/.local"@] + (match platform {
        Platform::Macos => seq![
            home + "/Library/Application Support"@,
            home + "/Library/Preferences"@,
        ],
        _ => Seq::empty(),
    }) + spec_known_tool_dirs().map_values(|d: Seq<char>| home + "/"@ + d) + (match config {
        Some(c) => seq![c],
        None => Seq::empty(),
    }) + (match data {
        Some(d) => seq![d],
        None => Seq::empty(),
    })
}

fn push_home_join(dirs: &mut Vec<String>, home: &str, tail: &str)
    ensures
        final(dirs)@.len() == old(dirs)@.len() + 1,
        final(dirs).deep_view() == old(dirs).deep_view().push(home@ + "/"@ + tail@),
{
    let mut d = str_to_string(home);
    d.append("/");
    d.append(tail);
    let ghost pre = dirs.deep_view();
    dirs.push(d);
    proof {
        assert(dirs.deep_view() =~= pre.push(home@ + "/"@ + tail@));
    }
}

/// The directories whose descendants are safe to write to.
pub fn get_safe_directories(
    platform: Platform,
    home: &str,
    config_dir: Option<&String>,
    data_dir: Option<&String>,
) -> (r: Vec<String>)
    ensures
        r.deep_view() == spec_safe_dirs(
            platform,
            home@,
            match config_dir {
                Some(c) => Some(c@),
                None => None,
            },
            match data_dir {
                Some(d) => Some(d@),
                None => None,
            },
        ),
{
    let mut dirs: Vec<String> = Vec::new();
    let mut d1 = str_to_string(home);
    d1.append("/.config");
    dirs.push(d1);
    proof {
        assert(dirs.deep_view() =~= seq![home@ + "/.config"@]);
    }
    let mut d2 = str_to_string(home);
    d2.append("/.local");
    dirs.push(d2);
    proof {
        assert(dirs.deep_view() =~= seq![home@ + "/.config"@, home@ + "/.local"@]);
    }
    match platform {
        Platform::Macos => {
            push_home_join(&mut dirs, home, "Library/Application Support");
            push_home_join(&mut dirs, home, "Library/Preferences");
            proof {
                assert(dirs.deep_view() =~= seq![
                    home@ + "/.config"@,
                    home@ + "/.local"@,
                    home@ + "/"@ + "Library/Application Support"@,
                    home@ + "/"@ + "Library/Preferences"@,
                ]);
            }
        },
        _ => {},
    }
    push_home_join(&mut dirs, home, ".aider");
    push_home_join(&mut dirs, home, ".amp");
    push_home_join(&mut dirs, home, ".augment");
    push_home_join(&mut dirs, home, ".agent");
    push_home_join(&mut dirs, home, ".continue");
    push_home_join(&mut dirs, home, ".cursor");
    push_home_join(&mut dirs, home, ".droid");
    push_home_join(&mut dirs, home, ".kiro");
    push_home_join(&mut dirs, home, ".cody");
    push_home_join(&mut dirs, home, ".opencode");
    push_home_join(&mut dirs, home, ".qwen-code");
    push_home_join(&mut dirs, home, ".copilot");
    push_home_join(&mut dirs, home, ".github");
    push_home_join(&mut dirs, home, ".vscode");
    push_home_join(&mut dirs, home, ".rovodev");
    proof {
        let base = seq![home@ + "/.config"@, home@ + "/.local"@] + (match platform {
            Platform::Macos => seq![
                home@ + "/Library/Application Support"@,
                home@ + "/Library/Preferences"@,
            ],
            _ => Seq::<Seq<char>>::empty(),
        });
        reveal_strlit("/.config");
        reveal_strlit("/.local");
        reveal_strlit("/");
        reveal_strlit("Library/Application Support");
        reveal_strlit("/Library/Application Support");
        reveal_strlit("Library/Preferences");
        reveal_strlit("/Library/Preferences");
        assert(home@ + "/"@ + "Library/Application Support"@ =~= home@
            + "/Library/Application Support"@);
        assert(home@ + "/"@ + "Library/Preferences"@ =~= home@ + "/Library/Preferences"@);
        let tools = spec_known_tool_dirs().map_values(|d: Seq<char>| home@ + "/"@ + d);
        assert(tools.len() == 15);
        assert(tools[0] == home@ + "/"@ + ".aider"@);
        assert(tools[1] == home@ + "/"@ + ".amp"@);
        assert(tools[2] == home@ + "/"@ + ".augment"@);
        assert(tools[3] == home@ + "/"@ + ".agent"@);
        assert(tools[4] == home@ + "/"@ + ".continue"@);
        assert(tools[5] == home@ + "/"@ + ".cursor"@);
        assert(tools[6] == home@ + "/"@ + ".droid"@);
        assert(tools[7] == home@ + "/"@ + ".kiro"@);
        assert(tools[8] == home@ + "/"@ + ".cody"@);
        assert(tools[9] == home@ + "/"@ + ".opencode"@);
        assert(tools[10] == home@ + "/"@ + ".qwen-code"@);
        assert(tools[11] == home@ + "/"@ + ".vscode"@ || tools[11] == home@ + "/"@ + ".copilot"@);
        assert(tools[12] == home@ + "/"@ + ".github"@);
        assert(tools[13] == home@ + "/"@ + ".vscode"@);
        assert(tools[14] == home@ + "/"@ + ".rovodev"@);
        assert(dirs.deep_view() =~= base + tools);
    }
    match config_dir {
        Some(c) => {
            dirs.push(c.clone());
        },
        None => {},
    }
    match data_dir {
        Some(d) => {
            dirs.push(d.clone());
        },
        None => {},
    }
    proof {
        assert(dirs.deep_view() =~= spec_safe_dirs(
            platform,
            home@,
            match config_dir {
                Some(c) => Some(c@),
                None => None,
            },
            match data_dir {
                Some(d) => Some(d@),
                None => None,
            },
        ));
    }
    dirs
}

/// A classified path: as given, as resolved, and its level.
#[derive(Debug, PartialEq)]
pub struct PathSafetyResult {
    pub path: String,
    pub resolved_path: String,
    pub safety_level: PathSafetyLevel,
}

/// Classifies a canonicalized path: the deny list wins over the allow
/// list, and a path on neither list warns.
pub fn get_path_safety_level(path: &str, blocked: &Vec<String>, safe: &Vec<String>) -> (r:
    PathSafetyLevel)
    ensures
        r == spec_safety_level(path@, blocked.deep_view(), safe.deep_view()),
{
    if is_under_any(path, blocked) {
        PathSafetyLevel::Block
    } else if is_under_any(path, safe) {
        PathSafetyLevel::Safe
    } else {
        PathSafetyLevel::Warn
    }
}

} // verus!
