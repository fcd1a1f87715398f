//! Named snapshots of configuration content: the records, their summary
//! form, and the file naming they are stored under.  Reading and writing
//! the snapshot files stays with the caller.

use vstd::prelude::*;
use vstd::string::StrSliceExecFns;
use vstd::string::StringExecFns;
use crate::text::str_to_string;

verus! {

/// One stored snapshot of a configuration's content.
#[derive(Debug, PartialEq)]
pub struct ConfigVersion {
    pub id: String,
    pub config_id: String,
    pub name: String,
    pub content: String,
    pub description: Option<String>,
    pub timestamp: u64,
    pub source: String,
    pub is_default: bool,
}

/// A snapshot without its content, for listings.
#[derive(Debug, PartialEq)]
pub struct VersionMetadata {
    pub id: String,
    pub config_id: String,
    pub name: String,
    pub description: Option<String>,
    pub timestamp: u64,
    pub source: String,
    pub is_default: bool,
}

/// The summary of a snapshot: every field but the content.
pub fn metadata_of(v: &ConfigVersion) -> (r: VersionMetadata)
    ensures
        r.id@ == v.id@,
        r.config_id@ == v.config_id@,
        r.name@ == v.name@,
        r.description == v.description,
        r.timestamp == v.timestamp,
        r.source@ == v.source@,
        r.is_default == v.is_default,
{
    VersionMetadata {
        id: v.id.clone(),
        config_id: v.config_id.clone(),
        name: v.name.clone(),
        description: match &v.description {
            Some(d) => Some(d.clone()),
            None => None,
        },
        timestamp: v.timestamp,
        source: v.source.clone(),
        is_default: v.is_default,
    }
}

/// A character kept when a configuration identifier becomes a directory
/// name: ASCII letters and digits, the dash and the underscore.
pub open spec fn keeps_char(c: char) -> bool {
    ('a' <= c && c <= 'z') || ('A' <= c && c <= 'Z') || ('0' <= c && c <= '9') || c == '-' || c
        == '_'
}

/// The identifier with every other character replaced by an underscore.
pub open spec fn spec_sanitized(s: Seq<char>) -> Seq<char> {
    s.map_values(
        |c: char|
            if keeps_char(c) {
                c
            } else {
                '_'
            },
    )
}

/// Makes an identifier safe to use as a directory name.
pub fn sanitize_filename(name: &str) -> (r: String)
    ensures
        r@ == spec_sanitized(name@),
{
    let len = name.unicode_len();
    let mut out = String::new();
    let mut i: usize = 0;
    proof {
        assert(out@ =~= spec_sanitized(name@.take(0)));
    }
    while i < len
        invariant
            len == name@.len(),
            0 <= i <= len,
            out@ == spec_sanitized(name@.take(i as int)),
        decreases len - i,
    {
        let c = name.get_char(i);
        let keep = ('a' <= c && c <= 'z') || ('A' <= c && c <= 'Z') || ('0' <= c && c <= '9') || c
            == '-' || c == '_';
        if keep {
            let piece = name.substring_char(i, i + 1);
            proof {
                assert(piece@ =~= seq![name@[i as int]]);
            }
            out.append(piece);
        } else {
            out.append("_");
            proof {
                reveal_strlit("_");
            }
        }
        proof {
            assert(spec_sanitized(name@.take(i + 1)) =~= spec_sanitized(name@.take(i as int)).push(
                if keeps_char(name@[i as int]) {
                    name@[i as int]
                } else {
                    '_'
                },
            ));
        }
        i += 1;
    }
    proof {
        assert(name@.take(len as int) =~= name@);
    }
    out
}

/// The file a snapshot is stored in: its identifier with the JSON
/// extension.
pub fn version_file_name(version_id: &str) -> (r: String)
    ensures
        r@ == version_id@ + ".json"@,
{
    let mut f = str_to_string(version_id);
    f.append(".json");
    f
}

} // verus!
