//! Path-token expansion and the platform directories it rests on.  The
//! tokens `~`, `%USERPROFILE%` and `%APPDATA%` resolve against the user's
//! home and configuration directories; what those directories are comes
//! from the environment, so the library only states what holds whatever
//! the environment answered.

use vstd::prelude::*;
use vstd::string::StrSliceExecFns;
use vstd::string::StringExecFns;
use crate::text::{starts_with, str_to_string};

verus! {

/// Errors of the plain file commands.
#[derive(Debug, PartialEq)]
pub enum CommandError {
    /// An expected configuration file is absent.
    ConfigNotFound(String),
    /// An underlying storage failure, with its text.
    Io(String),
    /// The operating system refused access.
    PermissionDenied(String),
    /// A path token could not be resolved.
    PathResolution(String),
    /// JSON text that does not parse.
    JsonParse(String),
    /// A dotted path that names nothing.
    JsonPathNotFound(String),
}

/// Whether a path exists, with how its tokens resolved.
#[derive(Debug, PartialEq)]
pub struct FileExistsResult {
    pub path: String,
    pub exists: bool,
    pub resolved_path: String,
}

/// Which sidebar sections the user keeps open; plain interface data.
#[derive(Debug, PartialEq)]
pub struct SidebarState {
    pub expanded_tools: Vec<String>,
}

/// One backup file in a listing.
#[derive(Debug, PartialEq)]
pub struct BackupInfo {
    pub path: String,
    pub name: String,
    pub modified_at: u64,
    pub size: u64,
}

/// Relies on dirs::home_dir for the user's home directory; the answer
/// depends on the environment, so nothing is promised of it.
#[verifier::external_body]
fn home_dir_string() -> Option<String> {
    dirs::home_dir().map(|p| p.to_string_lossy().to_string())
}

/// Relies on dirs::config_dir for the user's configuration directory; the
/// answer depends on the environment, so nothing is promised of it.
#[verifier::external_body]
fn config_dir_string() -> Option<String> {
    dirs::config_dir().map(|p| p.to_string_lossy().to_string())
}

/// What a path expands to against the given home and configuration
/// directories: `~` prefixes join the home, `%USERPROFILE%` joins the
/// home, `%APPDATA%` joins the configuration directory, and a path with
/// no token stands as it is.  A token whose directory is unknown expands
/// to nothing.
pub open spec fn spec_expand_path(
    path: Seq<char>,
    home: Option<Seq<char>>,
    config: Option<Seq<char>>,
) -> Option<Seq<char>> {
    if "~/"@.is_prefix_of(path) {
        match home {
            Some(h) => Some(h + "/"@ + path.skip(2)),
            None => None,
        }
    } else if "~"@.is_prefix_of(path) {
        match home {
            Some(h) => Some(h + "/"@ + path.skip(1)),
            None => None,
        }
    } else if "%USERPROFILE%"@.is_prefix_of(path) {
        match home {
            Some(h) => Some(
                h + "/"@ + (if "%USERPROFILE%\\"@.is_prefix_of(path) {
                    path.skip(14)
                } else {
                    Seq::empty()
                }),
            ),
            None => None,
        }
    } else if "%APPDATA%"@.is_prefix_of(path) {
        match config {
            Some(c) => Some(
                c + "/"@ + (if "%APPDATA%\\"@.is_prefix_of(path) {
                    path.skip(10)
                } else {
                    Seq::empty()
                }),
            ),
            None => None,
        }
    } else {
        Some(path)
    }
}

/// Whether expansion needs a directory from the environment at all.
pub open spec fn spec_needs_token(path: Seq<char>) -> bool {
    "~"@.is_prefix_of(path) || "%USERPROFILE%"@.is_prefix_of(path) || "%APPDATA%"@.is_prefix_of(
        path,
    )
}

fn join_dir(dir: &str, tail: &str) -> (r: String)
    ensures
        r@ == dir@ + "/"@ + tail@,
{
    let mut d = str_to_string(dir);
    d.append("/");
    d.append(tail);
    d
}

/// Expands the leading path token against the given directories.
pub fn expand_path(path: &str, home: Option<&String>, config: Option<&String>) -> (r: Option<
    String,
>)
    ensures
        ({
            let gh = match home {
                Some(h) => Some(h@),
                None => None,
            };
            let gc = match config {
                Some(c) => Some(c@),
                None => None,
            };
            match r {
                Some(s) => spec_expand_path(path@, gh, gc) == Some(s@),
                None => spec_expand_path(path@, gh, gc) is None,
            }
        }),
{
    proof {
        reveal_strlit("~/");
        reveal_strlit("~");
        reveal_strlit("%USERPROFILE%");
        reveal_strlit("%USERPROFILE%\\");
        reveal_strlit("%APPDATA%");
        reveal_strlit("%APPDATA%\\");
        reveal_strlit("");
        assert(""@ =~= Seq::<char>::empty());
    }
    let len = path.unicode_len();
    if starts_with(path, "~/") {
        match home {
            Some(h) => {
                let tail = path.substring_char(2, len);
                proof {
                    assert(tail@ =~= path@.skip(2));
                }
                Some(join_dir(h.as_str(), tail))
            },
            None => None,
        }
    } else if starts_with(path, "~") {
        match home {
            Some(h) => {
                let tail = path.substring_char(1, len);
                proof {
                    assert(tail@ =~= path@.skip(1));
                }
                Some(join_dir(h.as_str(), tail))
            },
            None => None,
        }
    } else if starts_with(path, "%USERPROFILE%") {
        match home {
            Some(h) => {
                if starts_with(path, "%USERPROFILE%\\") {
                    let tail = path.substring_char(14, len);
                    proof {
                        assert(tail@ =~= path@.skip(14));
                    }
                    Some(join_dir(h.as_str(), tail))
                } else {
                    Some(join_dir(h.as_str(), ""))
                }
            },
            None => None,
        }
    } else if starts_with(path, "%APPDATA%") {
        match config {
            Some(c) => {
                if starts_with(path, "%APPDATA%\\") {
                    let tail = path.substring_char(10, len);
                    proof {
                        assert(tail@ =~= path@.skip(10));
                    }
                    Some(join_dir(c.as_str(), tail))
                } else {
                    Some(join_dir(c.as_str(), ""))
                }
            },
            None => None,
        }
    } else {
        Some(str_to_string(path))
    }
}

/// Expands a path against the environment's own directories.  A path with
/// no leading token always resolves, to itself.
pub fn resolve_path(path: &str) -> (r: Option<String>)
    ensures
        !spec_needs_token(path@) ==> (r matches Some(s) && s@ == path@),
        r matches Some(s) ==> exists|h: Option<Seq<char>>, c: Option<Seq<char>>|
            spec_expand_path(path@, h, c) == Some(s@),
{
    proof {
        reveal_strlit("~/");
        reveal_strlit("~");
        reveal_strlit("%USERPROFILE%");
        reveal_strlit("%APPDATA%");
    }
    let home = home_dir_string();
    let config = config_dir_string();
    let r = expand_path(path, home.as_ref(), config.as_ref());
    proof {
        let gh = match home {
            Some(h) => Some(h@),
            None => None::<Seq<char>>,
        };
        let gc = match config {
            Some(c) => Some(c@),
            None => None::<Seq<char>>,
        };
        assert(r matches Some(s) ==> spec_expand_path(path@, gh, gc) == Some(s@));
    }
    r
}

} // verus!
