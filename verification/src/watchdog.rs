//! Reacting to files that appear in a watched library: which files are
//! videos worth a scan, and which library a new file belongs to.
use vstd::prelude::*;
use crate::text::{str_eq, to_chars, from_chars, occurs_at, occurs_at_exec};
use crate::parser::{extension_of, extension_exec};
use crate::paths::{normalized_path, normalize_slashes};
use crate::shows::{lowercase, lowercase_string};

verus! {

/// Extensions (lower case) of the videos a new file is scanned for.
pub open spec fn is_watched_ext(e: Seq<char>) -> bool {
    ||| e == "mp4"@
    ||| e == "mkv"@
    ||| e == "avi"@
    ||| e == "mov"@
    ||| e == "wmv"@
    ||| e == "m4v"@
}

/// Whether a lower-case extension is one of watched videos.
pub fn watched_ext(lower_ext: &str) -> (r: bool)
    ensures
        r == is_watched_ext(lower_ext@),
{
    str_eq(lower_ext, "mp4") || str_eq(lower_ext, "mkv") || str_eq(lower_ext, "avi") || str_eq(
        lower_ext,
        "mov",
    ) || str_eq(lower_ext, "wmv") || str_eq(lower_ext, "m4v")
}

/// The extension of the file at `path`, or nothing.
pub open spec fn path_ext_text(path: Seq<char>) -> Seq<char> {
    match extension_of(path) {
        Some(e) => e,
        None => Seq::<char>::empty(),
    }
}

/// A new file at `path` is a video to scan: its extension, in lower case,
/// is a watched one.
pub open spec fn is_new_video(path: Seq<char>) -> bool {
    is_watched_ext(lowercase(path_ext_text(path)))
}

/// Whether the new file at `path` is a video to scan.
pub fn is_watched_video(path: &str) -> (r: bool)
    ensures
        r == is_new_video(path@),
{
    let v = to_chars(path);
    let ext = match extension_exec(&v) {
        Some(e) => from_chars(&e),
        None => from_chars(&Vec::new()),
    };
    let lower = lowercase_string(ext.as_str());
    watched_ext(lower.as_str())
}

/// The file at `path` lies in the library at `lib`: the library's path,
/// normalised, starts the file's path, normalised.
pub open spec fn in_library(path: Seq<char>, lib: Seq<char>) -> bool {
    occurs_at(normalized_path(path), 0, normalized_path(lib))
}

/// The first of `libraries` that the file at `path` lies in.
pub fn library_for_path(path: &str, libraries: &[String]) -> (r: Option<usize>)
    ensures
        match r {
            Some(i) => i < libraries@.len() && in_library(path@, libraries@[i as int]@) && forall|j: int|
                0 <= j < i ==> !in_library(path@, #[trigger] libraries@[j]@),
            None => forall|j: int|
                0 <= j < libraries@.len() ==> !in_library(path@, #[trigger] libraries@[j]@),
        },
{
    let p = to_chars(normalize_slashes(path).as_str());
    let mut i: usize = 0;
    while i < libraries.len()
        invariant
            i <= libraries@.len(),
            p@ == normalized_path(path@),
            forall|j: int| 0 <= j < i ==> !in_library(path@, #[trigger] libraries@[j]@),
        decreases libraries.len() - i,
    {
        let l = to_chars(normalize_slashes(libraries[i].as_str()).as_str());
        if occurs_at_exec(&p, 0, &l) {
            return Some(i);
        }
        i = i + 1;
    }
    None
}

} // verus!
