//! Which library a download manager's webhook asks to be scanned.
use vstd::prelude::*;
use crate::models::{Library, MediaType};
use crate::text::str_eq;

verus! {

/// `i` is the first library of `libs` that holds media of type `t`.
pub open spec fn first_of_type(libs: Seq<Library>, t: MediaType, i: int) -> bool {
    &&& 0 <= i < libs.len()
    &&& libs[i].media_type == t
    &&& forall|j: int| 0 <= j < i ==> libs[j].media_type != t
}

/// The first library of `libs` with media of type `t`, if any.
pub open spec fn first_index(libs: Seq<Library>, t: MediaType) -> Option<int> {
    if exists|i: int| first_of_type(libs, t, i) {
        Some(choose|i: int| first_of_type(libs, t, i))
    } else {
        None
    }
}

/// The library to scan for a webhook from `source`: the first movie library
/// for Radarr, the first TV library for Sonarr, the first library for any
/// other sender; none where there is no such library.
pub open spec fn webhook_target(source: Seq<char>, libs: Seq<Library>) -> Option<int> {
    if source == "radarr"@ {
        first_index(libs, MediaType::Movie)
    } else if source == "sonarr"@ {
        first_index(libs, MediaType::Tv)
    } else if libs.len() > 0 {
        Some(0)
    } else {
        None
    }
}

proof fn lemma_first_is_unique(libs: Seq<Library>, t: MediaType, i: int, k: int)
    requires
        first_of_type(libs, t, i),
        first_of_type(libs, t, k),
    ensures
        i == k,
{
    if i < k {
        assert(libs[i].media_type != t);
    } else if k < i {
        assert(libs[k].media_type != t);
    }
}

/// Index of the first library of `libs` with media of type `t`.
fn first_library_of(libs: &[Library], t: MediaType) -> (r: Option<usize>)
    ensures
        match r {
            Some(i) => first_index(libs@, t) == Some(i as int),
            None => first_index(libs@, t) is None,
        },
{
    let mut i: usize = 0;
    while i < libs.len()
        invariant
            i <= libs@.len(),
            forall|j: int| 0 <= j < i ==> libs@[j].media_type != t,
        decreases libs.len() - i,
    {
        if libs[i].media_type == t {
            proof {
                assert(first_of_type(libs@, t, i as int));
                let k = choose|k: int| first_of_type(libs@, t, k);
                lemma_first_is_unique(libs@, t, i as int, k);
            }
            return Some(i);
        }
        i = i + 1;
    }
    None
}

/// The index in `libraries` of the library that a webhook from `source`
/// asks to be scanned (see `webhook_target`).
pub fn webhook_library(source: &str, libraries: &[Library]) -> (r: Option<usize>)
    ensures
        match r {
            Some(i) => webhook_target(source@, libraries@) == Some(i as int),
            None => webhook_target(source@, libraries@) is None,
        },
{
    if str_eq(source, "radarr") {
        first_library_of(libraries, MediaType::Movie)
    } else if str_eq(source, "sonarr") {
        first_library_of(libraries, MediaType::Tv)
    } else if libraries.len() > 0 {
        Some(0)
    } else {
        None
    }
}

} // verus!
