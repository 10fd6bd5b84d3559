//! Deep analysis of videos: which stored fingerprint is reused, which
//! generated assets are recorded for a fingerprint, and the progress
//! messages of an analysis run.
use vstd::prelude::*;
use crate::text::{decimal, push_decimal, push_digits, push_str, from_chars, to_chars};

verus! {

/// The kinds of asset generated for a video and their file names under the
/// folder named after its fingerprint, in the order they are recorded.
pub open spec fn asset_files() -> Seq<(Seq<char>, Seq<char>)> {
    seq![
        ("thumb"@, "thumb.jpg"@),
        ("sprite"@, "sprite.webp"@),
        ("vtt"@, "sprite.vtt"@),
        ("preview"@, "preview.mp4"@),
    ]
}

/// The record of asset `k` of the video with fingerprint `fp`: its kind
/// and its path relative to the generated-assets root.
pub open spec fn asset_record(fp: Seq<char>, k: int) -> (Seq<char>, Seq<char>) {
    (asset_files()[k].0, fp + "/"@ + asset_files()[k].1)
}

fn record(fp: &str, kind: &str, file: &str) -> (r: (String, String))
    ensures
        r.0@ == kind@,
        r.1@ == fp@ + "/"@ + file@,
{
    let k = from_chars(&to_chars(kind));
    let mut v = to_chars(fp);
    push_str(&mut v, "/");
    push_str(&mut v, file);
    (k, from_chars(&v))
}

/// The asset records of the video with fingerprint `fingerprint`.
pub fn generated_assets(fingerprint: &str) -> (r: Vec<(String, String)>)
    ensures
        r@.len() == asset_files().len(),
        forall|k: int|
            0 <= k < r@.len() ==> (#[trigger] r@[k].0@, r@[k].1@) == asset_record(fingerprint@, k),
{
    let mut out: Vec<(String, String)> = Vec::new();
    out.push(record(fingerprint, "thumb", "thumb.jpg"));
    out.push(record(fingerprint, "sprite", "sprite.webp"));
    out.push(record(fingerprint, "vtt", "sprite.vtt"));
    out.push(record(fingerprint, "preview", "preview.mp4"));
    assert forall|k: int| 0 <= k < out@.len() implies (#[trigger] out@[k].0@, out@[k].1@)
        == asset_record(fingerprint@, k) by {
        if k == 0 {
        } else if k == 1 {
        } else if k == 2 {
        } else {
        }
    }
    out
}

/// A stored fingerprint is reused unless it is missing or empty.
pub open spec fn reusable_fingerprint(stored: Option<Seq<char>>) -> Option<Seq<char>> {
    match stored {
        Some(f) => if f.len() > 0 {
            Some(f)
        } else {
            None
        },
        None => None,
    }
}

/// The stored fingerprint to reuse; none when it has to be computed.
pub fn stored_fingerprint(stored: Option<&str>) -> (r: Option<String>)
    ensures
        match r {
            Some(f) => reusable_fingerprint(crate::scan::opt_text(stored)) == Some(f@),
            None => reusable_fingerprint(crate::scan::opt_text(stored)) is None,
        },
{
    match stored {
        Some(f) => {
            if f.unicode_len() > 0 {
                Some(from_chars(&to_chars(f)))
            } else {
                None
            }
        },
        None => None,
    }
}

/// `i + 1` of `total`, written `"<i + 1>/<total>"`.
pub open spec fn position(i: int, total: int) -> Seq<char> {
    decimal(i + 1) + "/"@ + decimal(total)
}

fn push_position(out: &mut Vec<char>, i: u64, total: i64)
    requires
        i < u64::MAX,
    ensures
        final(out)@ == old(out)@ + position(i as int, total as int),
{
    push_digits(out, i + 1);
    push_str(out, "/");
    push_decimal(out, total);
    assert(final(out)@ =~= old(out)@ + position(i as int, total as int));
}

/// The progress message for movie `i` (from 0) of `total` in a library run.
pub fn library_movie_message(i: u64, total: i32) -> (r: String)
    requires
        i < u64::MAX,
    ensures
        r@ == "Movies: "@ + position(i as int, total as int),
{
    let mut v = to_chars("Movies: ");
    push_position(&mut v, i, total as i64);
    from_chars(&v)
}

/// The progress message for episode `ei` of `ep_total` of show `si` of
/// `show_total` in a library run.
pub fn library_episode_message(si: u64, show_total: u64, ei: u64, ep_total: u64) -> (r: String)
    requires
        si < u64::MAX,
        ei < u64::MAX,
        show_total <= i64::MAX,
        ep_total <= i64::MAX,
    ensures
        r@ == "Show "@ + position(si as int, show_total as int) + ", Ep "@ + position(
            ei as int,
            ep_total as int,
        ),
{
    let mut v = to_chars("Show ");
    push_position(&mut v, si, show_total as i64);
    push_str(&mut v, ", Ep ");
    push_position(&mut v, ei, ep_total as i64);
    from_chars(&v)
}

/// The progress message for episode `i` of `total` of one show.
pub fn show_episode_message(i: u64, total: i32) -> (r: String)
    requires
        i < u64::MAX,
    ensures
        r@ == "Analyzing Ep "@ + position(i as int, total as int),
{
    let mut v = to_chars("Analyzing Ep ");
    push_position(&mut v, i, total as i64);
    from_chars(&v)
}

} // verus!
