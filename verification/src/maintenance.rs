//! Maintenance: names of database backups and the reading of release
//! versions.
use vstd::prelude::*;
use crate::text::{push_str, from_chars, to_chars, replace_all, replace_str};

verus! {

/// Backups, NFO exports and update checks.
pub struct MaintenanceEngine;

/// `s` without its leading `v` characters.
pub open spec fn strip_leading_v(s: Seq<char>) -> Seq<char>
    decreases s.len(),
{
    if s.len() > 0 && s[0] == 'v' {
        strip_leading_v(s.drop_first())
    } else {
        s
    }
}

impl MaintenanceEngine {
    /// The name of the backup archive made at `timestamp`.
    pub fn backup_file_name(timestamp: &str) -> (r: String)
        ensures
            r@ == "mediavault_backup_"@ + timestamp@ + ".zip"@,
    {
        let mut v: Vec<char> = Vec::new();
        push_str(&mut v, "mediavault_backup_");
        push_str(&mut v, timestamp);
        push_str(&mut v, ".zip");
        from_chars(&v)
    }

    /// The name of the database copy made at `timestamp` before it is
    /// archived.
    pub fn temp_db_file_name(timestamp: &str) -> (r: String)
        ensures
            r@ == "temp_backup_"@ + timestamp@ + ".db"@,
    {
        let mut v: Vec<char> = Vec::new();
        push_str(&mut v, "temp_backup_");
        push_str(&mut v, timestamp);
        push_str(&mut v, ".db");
        from_chars(&v)
    }

    /// The statement that copies the database to `path`, with `/` for `\`.
    pub fn vacuum_into_query(path: &str) -> (r: String)
        ensures
            r@ == "VACUUM INTO '"@ + replace_all(path@, "\\"@, "/"@) + "'"@,
    {
        proof {
            reveal_strlit("\\");
        }
        let p = replace_str(path, "\\", "/");
        let mut v: Vec<char> = Vec::new();
        push_str(&mut v, "VACUUM INTO '");
        push_str(&mut v, p.as_str());
        push_str(&mut v, "'");
        from_chars(&v)
    }

    /// The version a release tag names: the tag without leading `v`s, or
    /// `unknown` without a tag.
    pub fn release_version(tag: Option<&str>) -> (r: String)
        ensures
            r@ == strip_leading_v(
                match tag {
                    Some(t) => t@,
                    None => "unknown"@,
                },
            ),
    {
        let t = match tag {
            Some(t) => t,
            None => "unknown",
        };
        let v = to_chars(t);
        let mut i: usize = 0;
        assert(v@.subrange(0, v.len() as int) =~= v@);
        while i < v.len() && v[i] == 'v'
            invariant
                i <= v.len(),
                strip_leading_v(v@) == strip_leading_v(v@.subrange(i as int, v.len() as int)),
            decreases v.len() - i,
        {
            assert(v@.subrange(i as int, v.len() as int).drop_first() =~= v@.subrange(
                i + 1,
                v.len() as int,
            ));
            i = i + 1;
        }
        from_chars(&crate::text::slice_of(&v, i, v.len()))
    }
}

} // verus!
