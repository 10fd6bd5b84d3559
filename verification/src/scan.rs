//! Decisions a library scan makes about each file: whether it is a video,
//! whether it changed, whether it moved, under which show and season it is
//! stored, and how organised episodes are named.
use vstd::prelude::*;
use crate::text::digits_of;
use crate::text::{is_ws, is_digit, is_digit_exec, ci_is, ci_is_exec, trim, trim_chars, to_chars, from_chars, slice_of, strs, str_eq, ci_at, ci_at_exec, ws_run, ws_run_exec, digit_run, digit_run_exec, lemma_digit_run, lemma_ws_run, first_from, lemma_first_from, has_sub, has_sub_exec, push_str, push_range, push_decimal_padded, decimal_padded, push_decimal, decimal};
use crate::parser::{num_value, lemma_num_value_prefix, lemma_num_value_bound, extension_of, extension_exec};
use crate::models::{MediaStatus, Resolution, resolution_of_dimensions, resolution_text};
use crate::parser::{path_parts, path_parts_of, parse_i32_digits, PathParts, path_view, path_eq, stem_of_name, extension_of_name, view_parent, view_file_name, to_parent, file_name_of};
use crate::parser::PathView;
use crate::shows::{lowercase, lowercase_string};
use crate::pattern::{Lead, Core, first_cand, has_core, has_core_chars, number_ends_word, season_word_at};
use crate::paths::joined_path;

verus! {

// ---------------------------------------------------------------------------
// Which files and folders a scan looks at.
// ---------------------------------------------------------------------------

pub open spec fn video_extensions() -> Seq<Seq<char>> {
    seq![
        "mkv"@,
        "mp4"@,
        "avi"@,
        "mov"@,
        "wmv"@,
        "m4v"@,
        "ts"@,
        "m2ts"@,
        "mts"@,
        "mpg"@,
        "mpeg"@,
        "vob"@,
        "divx"@,
        "xvid"@,
        "webm"@,
        "flv"@,
        "ogv"@,
        "iso"@,
    ]
}

/// The file at `path` has a video extension, regardless of ASCII case.
pub open spec fn is_video_path(path: Seq<char>) -> bool {
    match extension_of(path) {
        Some(e) => exists|k: int| 0 <= k < video_extensions().len() && #[trigger] ci_is(e, video_extensions()[k]),
        None => false,
    }
}

/// Whether the file at `path` is a video, by its extension.
pub fn is_video_file(path: &str) -> (r: bool)
    ensures
        r == is_video_path(path@),
{
    let v = to_chars(path);
    let ext = match extension_exec(&v) {
        Some(x) => x,
        None => return false,
    };
    let e = from_chars(&ext);
    let exts = vec![
        "mkv",
        "mp4",
        "avi",
        "mov",
        "wmv",
        "m4v",
        "ts",
        "m2ts",
        "mts",
        "mpg",
        "mpeg",
        "vob",
        "divx",
        "xvid",
        "webm",
        "flv",
        "ogv",
        "iso",
    ];
    let ghost xs = video_extensions();
    assert(exts@.map_values(|t: &str| t@) =~= xs);
    let mut k: usize = 0;
    while k < exts.len()
        invariant
            k <= exts.len() == xs.len(),
            exts@.map_values(|t: &str| t@) == xs,
            xs == video_extensions(),
            extension_of(path@) == Some(e@),
            forall|j: int| 0 <= j < k ==> !#[trigger] ci_is(e@, xs[j]),
        decreases exts.len() - k,
    {
        assert(xs[k as int] == exts[k as int]@);
        if ci_is_exec(e.as_str(), exts[k]) {
            assert(ci_is(e@, video_extensions()[k as int]));
            assert(extension_of(path@).unwrap() == e@);
            return true;
        }
        k = k + 1;
    }
    false
}

pub open spec fn skipped_dirs() -> Seq<Seq<char>> {
    seq![
        ".git"@,
        "node_modules"@,
        ".actors"@,
        "@eaDir"@,
        "#recycle"@,
        "System Volume Information"@,
        "$RECYCLE.BIN"@,
        "Config.Msi"@,
        "$Recycle.Bin"@,
    ]
}

/// Whether a scan leaves out the folder named `name` and all below it.
pub fn is_skipped_dir(name: &str) -> (r: bool)
    ensures
        r == skipped_dirs().contains(name@),
{
    let dirs = vec![
        ".git",
        "node_modules",
        ".actors",
        "@eaDir",
        "#recycle",
        "System Volume Information",
        "$RECYCLE.BIN",
        "Config.Msi",
        "$Recycle.Bin",
    ];
    let ghost ds = skipped_dirs();
    assert(dirs@.map_values(|t: &str| t@) =~= ds);
    let mut k: usize = 0;
    while k < dirs.len()
        invariant
            k <= dirs.len() == ds.len(),
            dirs@.map_values(|t: &str| t@) == ds,
            ds == skipped_dirs(),
            forall|j: int| 0 <= j < k ==> #[trigger] ds[j] != name@,
        decreases dirs.len() - k,
    {
        assert(ds[k as int] == dirs[k as int]@);
        if str_eq(dirs[k], name) {
            return true;
        }
        k = k + 1;
    }
    false
}

/// Whether a file known with size and modification time `known` is
/// unchanged and can be skipped.
pub fn is_unchanged(known: Option<(i64, i64)>, size: i64, mtime: i64) -> (r: bool)
    ensures
        r == (known == Some((size, mtime))),
{
    match known {
        Some((s, m)) => s == size && m == mtime,
        None => false,
    }
}

// ---------------------------------------------------------------------------
// Tracking files across scans.
// ---------------------------------------------------------------------------

/// What processing a file amounted to.
#[derive(Clone, Copy, PartialEq, Eq, Structural, Debug)]
pub enum ProcessAction {
    Added,
    Healed,
    Updated,
    Skipped,
}

/// A stored file with the same fingerprint as the scanned one.
pub struct FingerprintHit {
    pub id: i64,
    /// Its stored path, relative to the library.
    pub file_path: String,
    /// Whether a file still exists at that stored path.
    pub old_exists: bool,
}

/// The first thing to do with a scanned file.
#[derive(Clone, Copy, PartialEq, Eq, Structural, Debug)]
pub enum TrackStep {
    /// The file is unchanged and stored: record that it was seen.
    MarkScanned(i64),
    /// The stored file moved here: store its new path.
    HealPath(i64),
    /// Another stored file has the same content and still exists.
    IgnoreDuplicate,
    /// Read the file and store what it holds.
    Index,
}

pub open spec fn track_step_spec(
    is_skipped: bool,
    by_path: Option<i64>,
    hit: Option<(i64, Seq<char>, bool)>,
    relative_path: Seq<char>,
) -> TrackStep {
    if is_skipped && by_path is Some {
        TrackStep::MarkScanned(by_path.unwrap())
    } else if hit is Some && hit.unwrap().1 != relative_path {
        if !hit.unwrap().2 {
            TrackStep::HealPath(hit.unwrap().0)
        } else {
            TrackStep::IgnoreDuplicate
        }
    } else {
        TrackStep::Index
    }
}

pub open spec fn hit_view(hit: Option<FingerprintHit>) -> Option<(i64, Seq<char>, bool)> {
    match hit {
        Some(h) => Some((h.id, h.file_path@, h.old_exists)),
        None => None,
    }
}

/// Decides what to do with a scanned file at `relative_path`: `by_path` is
/// the stored file at that path (looked up for skipped files only),
/// `hit` a stored file with the same fingerprint.  A skipped file that is
/// stored is only marked; a file whose content is stored elsewhere heals
/// that record when the old path is gone, and is a duplicate otherwise.
pub fn track_step(
    is_skipped: bool,
    by_path: Option<i64>,
    hit: Option<FingerprintHit>,
    relative_path: &str,
) -> (r: TrackStep)
    ensures
        r == track_step_spec(is_skipped, by_path, hit_view(hit), relative_path@),
{
    if is_skipped {
        if let Some(id) = by_path {
            return TrackStep::MarkScanned(id);
        }
    }
    match hit {
        Some(h) => {
            if !str_eq(h.file_path.as_str(), relative_path) {
                if !h.old_exists {
                    TrackStep::HealPath(h.id)
                } else {
                    TrackStep::IgnoreDuplicate
                }
            } else {
                TrackStep::Index
            }
        },
        None => TrackStep::Index,
    }
}

/// What a file's processing amounted to, once its step is done.
pub fn action_for(step: TrackStep, is_known: bool) -> (r: ProcessAction)
    ensures
        r == match step {
            TrackStep::MarkScanned(_) => ProcessAction::Skipped,
            TrackStep::HealPath(_) => ProcessAction::Healed,
            TrackStep::IgnoreDuplicate => ProcessAction::Skipped,
            TrackStep::Index => if is_known {
                ProcessAction::Updated
            } else {
                ProcessAction::Added
            },
        },
{
    match step {
        TrackStep::MarkScanned(_) => ProcessAction::Skipped,
        TrackStep::HealPath(_) => ProcessAction::Healed,
        TrackStep::IgnoreDuplicate => ProcessAction::Skipped,
        TrackStep::Index => if is_known {
            ProcessAction::Updated
        } else {
            ProcessAction::Added
        },
    }
}

/// Counts of a scan: files added and files healed.
pub struct ScanTally {
    pub files_new: u64,
    pub files_healed: u64,
}

pub open spec fn count_action(actions: Seq<ProcessAction>, a: ProcessAction) -> nat
    decreases actions.len(),
{
    if actions.len() == 0 {
        0
    } else {
        count_action(actions.drop_last(), a) + if actions.last() == a {
            1nat
        } else {
            0nat
        }
    }
}

impl ScanTally {
    pub fn new() -> (r: Self)
        ensures
            r.files_new == 0,
            r.files_healed == 0,
    {
        ScanTally { files_new: 0, files_healed: 0 }
    }

    /// Counts one more processed file.
    pub fn record(&mut self, action: ProcessAction)
        requires
            old(self).files_new < u64::MAX,
            old(self).files_healed < u64::MAX,
        ensures
            final(self).files_new == old(self).files_new + if action == ProcessAction::Added {
                1int
            } else {
                0int
            },
            final(self).files_healed == old(self).files_healed + if action == ProcessAction::Healed {
                1int
            } else {
                0int
            },
    {
        match action {
            ProcessAction::Added => self.files_new = self.files_new + 1,
            ProcessAction::Healed => self.files_healed = self.files_healed + 1,
            _ => {},
        }
    }
}

/// Tallying the actions of a scan one by one counts exactly the added and
/// the healed files among them.
pub proof fn lemma_tally_counts(actions: Seq<ProcessAction>, k: int, new: int, healed: int)
    requires
        0 <= k < actions.len(),
        new == count_action(actions.subrange(0, k), ProcessAction::Added),
        healed == count_action(actions.subrange(0, k), ProcessAction::Healed),
    ensures
        new + (if actions[k] == ProcessAction::Added { 1int } else { 0int }) == count_action(
            actions.subrange(0, k + 1),
            ProcessAction::Added,
        ),
        healed + (if actions[k] == ProcessAction::Healed { 1int } else { 0int }) == count_action(
            actions.subrange(0, k + 1),
            ProcessAction::Healed,
        ),
{
    assert(actions.subrange(0, k + 1).drop_last() =~= actions.subrange(0, k));
}

/// A scan reports its progress after every tenth file and after the last.
pub open spec fn report_due(progress: int, total: int) -> bool {
    progress % 10 == 0 || progress == total
}

/// Whether the scan reports its progress after `progress` of `total` files.
pub fn progress_report_due(progress: i32, total: i32) -> (r: bool)
    ensures
        r == report_due(progress as int, total as int),
{
    let p: i64 = progress as i64;
    let m: i64 = if p >= 0 { p % 10 } else { (-p) % 10 };
    proof {
        if p < 0 {
            assert((p % 10 == 0) == ((-p) % 10 == 0)) by (nonlinear_arith);
        }
    }
    m == 0 || progress == total
}

/// While the library is walked, feedback is given every five seconds and
/// every 5000 entries.
pub open spec fn walk_feedback(elapsed_secs: int, visited: int) -> bool {
    elapsed_secs >= 5 || visited % 5000 == 0
}

/// Whether to give feedback after `visited` entries, `elapsed_secs`
/// seconds after the last feedback.
pub fn walk_feedback_due(elapsed_secs: u64, visited: u64) -> (r: bool)
    ensures
        r == walk_feedback(elapsed_secs as int, visited as int),
{
    elapsed_secs >= 5 || visited % 5000 == 0
}

/// The feedback while the library is walked.
pub fn walking_message(visited: u64, found: u64) -> (r: String)
    ensures
        r@ == "Walking directory... visited "@ + decimal(visited as int) + " items ("@ + decimal(
            found as int,
        ) + " videos found)"@,
{
    let mut v = to_chars("Walking directory... visited ");
    crate::text::push_digits(&mut v, visited);
    push_str(&mut v, " items (");
    crate::text::push_digits(&mut v, found);
    push_str(&mut v, " videos found)");
    from_chars(&v)
}

/// The report once the walk has found `total` videos.
pub fn found_message(total: i32) -> (r: String)
    ensures
        r@ == "Found "@ + decimal(total as int) + " files. Analyzing metadata..."@,
{
    let mut v = to_chars("Found ");
    crate::text::push_decimal(&mut v, total as i64);
    push_str(&mut v, " files. Analyzing metadata...");
    from_chars(&v)
}

/// The report that ends a scan: the files added, the files found again
/// under a new path, and the files `missing` that the scan did not see.
pub fn complete_message(tally: &ScanTally, missing: u64) -> (r: String)
    ensures
        r@ == "Library scan complete. "@ + decimal(tally.files_new as int) + " new, "@ + decimal(
            tally.files_healed as int,
        ) + " healed, "@ + decimal(missing as int) + " missing."@,
{
    let mut v = to_chars("Library scan complete. ");
    push_str(&mut v, crate::text::decimal_string_u64(tally.files_new).as_str());
    push_str(&mut v, " new, ");
    push_str(&mut v, crate::text::decimal_string_u64(tally.files_healed).as_str());
    push_str(&mut v, " healed, ");
    push_str(&mut v, crate::text::decimal_string_u64(missing).as_str());
    push_str(&mut v, " missing.");
    from_chars(&v)
}

/// The progress report after file `name`, the `progress`-th of `total`.
pub fn scanned_message(progress: i32, total: i32, name: &str) -> (r: String)
    ensures
        r@ == "Scanned "@ + decimal(progress as int) + "/"@ + decimal(total as int) + ": "@ + name@,
{
    let mut v = to_chars("Scanned ");
    crate::text::push_decimal(&mut v, progress as i64);
    push_str(&mut v, "/");
    crate::text::push_decimal(&mut v, total as i64);
    push_str(&mut v, ": ");
    push_str(&mut v, name);
    from_chars(&v)
}

// ---------------------------------------------------------------------------
// Numbers in metadata.
// ---------------------------------------------------------------------------

pub open spec fn all_digits_from(s: Seq<char>, a: int) -> bool {
    forall|i: int| a <= i < s.len() ==> is_digit(#[trigger] s[i])
}

/// The `i32` that `s` writes, as `str::parse::<i32>` reads it: an optional
/// sign and one or more ASCII digits, within range.
pub open spec fn parsed_i32(s: Seq<char>) -> Option<int> {
    let a: int = if s.len() > 0 && (s[0] == '-' || s[0] == '+') {
        1
    } else {
        0
    };
    if a >= s.len() || !all_digits_from(s, a) {
        None
    } else {
        let v = num_value(s.subrange(a, s.len() as int));
        let val = if s[0] == '-' {
            -v
        } else {
            v
        };
        if i32::MIN <= val <= i32::MAX {
            Some(val)
        } else {
            None
        }
    }
}

pub open spec fn opt_i32(o: Option<i32>) -> Option<int> {
    match o {
        Some(v) => Some(v as int),
        None => None,
    }
}

/// Reads an `i32` as `str::parse` does.
pub fn parse_i32(s: &Vec<char>) -> (r: Option<i32>)
    ensures
        opt_i32(r) == parsed_i32(s@),
{
    let n = s.len();
    if n == 0 {
        return None;
    }
    let neg = s[0] == '-';
    let a: usize = if s[0] == '-' || s[0] == '+' {
        1
    } else {
        0
    };
    if a >= n {
        return None;
    }
    let mut i = a;
    while i < n
        invariant
            a <= i <= n == s@.len(),
            a as int == (if s@.len() > 0 && (s@[0] == '-' || s@[0] == '+') {
                1int
            } else {
                0int
            }),
            forall|j: int| a <= j < i ==> is_digit(#[trigger] s@[j]),
        decreases n - i,
    {
        if !is_digit_exec(s[i]) {
            assert(!is_digit(s@[i as int]));
            assert(!all_digits_from(s@, a as int));
            return None;
        }
        i = i + 1;
    }
    assert(all_digits_from(s@, a as int));
    let mut v: i64 = 0;
    i = a;
    while i < n
        invariant
            a <= i <= n == s@.len(),
            a < n,
            a as int == (if s@.len() > 0 && (s@[0] == '-' || s@[0] == '+') {
                1int
            } else {
                0int
            }),
            neg == (s@[0] == '-'),
            all_digits_from(s@, a as int),
            v as int == num_value(s@.subrange(a as int, i as int)),
            0 <= v <= 0x8000_0000,
        decreases n - i,
    {
        assert(s@.subrange(a as int, i + 1).drop_last() =~= s@.subrange(a as int, i as int));
        assert(is_digit(s@[i as int]));
        let d = (s[i] as u32 - 48) as i64;
        let w = v * 10 + d;
        assert(w as int == num_value(s@.subrange(a as int, i + 1)));
        if w > 0x8000_0000 {
            proof {
                let full = s@.subrange(a as int, n as int);
                assert(full.subrange(0, i + 1 - a) =~= s@.subrange(a as int, i + 1));
                assert forall|j: int| 0 <= j < full.len() implies is_digit(#[trigger] full[j]) by {
                    assert(full[j] == s@[a + j]);
                }
                lemma_num_value_prefix(full, i + 1 - a);
                assert(num_value(full) >= w);
                assert(parsed_i32(s@) is None);
            }
            return None;
        }
        v = w;
        i = i + 1;
    }
    assert(s@.subrange(a as int, n as int) == s@.subrange(a as int, i as int));
    if neg {
        Some((0 - v) as i32)
    } else if v <= 0x7fff_ffff {
        Some(v as i32)
    } else {
        None
    }
}

/// Reads an `i32` from metadata text, surrounding whitespace ignored.
pub fn parse_i32_trimmed(s: &str) -> (r: Option<i32>)
    ensures
        opt_i32(r) == parsed_i32(trim(s@)),
{
    let v = to_chars(s);
    let t = trim_chars(&v);
    parse_i32(&t)
}

// ---------------------------------------------------------------------------
// Metadata from NFO files.
// ---------------------------------------------------------------------------

/// A title from metadata replaces the one read from the file name when it
/// is there and not empty.
pub open spec fn overridden(current: Seq<char>, from_nfo: Option<Seq<char>>) -> Seq<char> {
    match from_nfo {
        Some(t) => if t.len() > 0 {
            t
        } else {
            current
        },
        None => current,
    }
}

pub open spec fn opt_text(o: Option<&str>) -> Option<Seq<char>> {
    match o {
        Some(t) => Some(t@),
        None => None,
    }
}

/// The title to store: the first title of the NFO file when it is not
/// empty, else `current`.
pub fn title_with_override(current: String, nfo_title: Option<&str>) -> (r: String)
    ensures
        r@ == overridden(current@, opt_text(nfo_title)),
{
    match nfo_title {
        Some(t) => if t.unicode_len() > 0 {
            String::from_str(t)
        } else {
            current
        },
        None => current,
    }
}

/// The year to store: the first year of the NFO file when it reads as a
/// number, else `current`.
pub fn year_with_override(current: Option<i32>, nfo_year: Option<&str>) -> (r: Option<i32>)
    ensures
        opt_i32(r) == match nfo_year {
            Some(y) => match parsed_i32(trim(y@)) {
                Some(v) => Some(v),
                None => opt_i32(current),
            },
            None => opt_i32(current),
        },
{
    match nfo_year {
        Some(y) => match parse_i32_trimmed(y) {
            Some(v) => Some(v),
            None => current,
        },
        None => current,
    }
}

/// The status a movie gets from its metadata: matched when the NFO file
/// gave an id or a plot, unmatched when only artwork was found, and no
/// update when there is neither.
pub fn metadata_status(has_nfo_data: bool, has_artwork: bool) -> (r: Option<MediaStatus>)
    ensures
        r == if has_nfo_data {
            Some(MediaStatus::Matched)
        } else if has_artwork {
            Some(MediaStatus::Unmatched)
        } else {
            None
        },
{
    if has_nfo_data {
        Some(MediaStatus::Matched)
    } else if has_artwork {
        Some(MediaStatus::Unmatched)
    } else {
        None
    }
}

// ---------------------------------------------------------------------------
// Show and season from the folders of an episode.
// ---------------------------------------------------------------------------

pub open spec fn drop_dotdots(ps: Seq<Seq<char>>) -> Seq<Seq<char>>
    decreases ps.len(),
{
    if ps.len() == 0 {
        ps
    } else if ps.last() == seq!['.', '.'] {
        drop_dotdots(ps.drop_last())
    } else {
        drop_dotdots(ps.drop_last()).push(ps.last())
    }
}

/// The names of the folders that hold the file at relative path `rel`,
/// outermost first.
pub open spec fn folder_names(rel: Seq<char>) -> Seq<Seq<char>> {
    let parts = path_parts(rel);
    if parts.len() > 0 {
        drop_dotdots(parts.drop_last())
    } else {
        parts
    }
}

/// Length of the keyword of the season marker (`season`, `series` or `s`)
/// at `q`.
pub open spec fn season_keyword_len(s: Seq<char>, q: int) -> int {
    if ci_at(s, q, "season"@) && number_ends_word(s, q + 6) {
        6
    } else if ci_at(s, q, "series"@) && number_ends_word(s, q + 6) {
        6
    } else {
        1
    }
}

/// Where the number of the first season marker of `s` starts.
pub open spec fn season_digits_start(s: Seq<char>) -> int {
    let q = first_cand(Lead::Bare, Core::SeasonWord, s, 0);
    let k = q + season_keyword_len(s, q);
    k + ws_run(s, k)
}

/// Where the first season marker of `s` ends, after its number.
pub open spec fn season_marker_end(s: Seq<char>) -> int {
    season_digits_start(s) + digit_run(s, season_digits_start(s))
}

/// The number of the first season marker of `s`, when it fits an `i32`.
pub open spec fn season_number_in(s: Seq<char>) -> Option<int> {
    let v = num_value(s.subrange(season_digits_start(s), season_marker_end(s)));
    if v <= i32::MAX {
        Some(v)
    } else {
        None
    }
}

/// `s` without its first season marker.
pub open spec fn without_season_marker(s: Seq<char>) -> Seq<char> {
    let q = first_cand(Lead::Bare, Core::SeasonWord, s, 0);
    s.subrange(0, q) + s.subrange(season_marker_end(s), s.len() as int)
}

/// `t` occurs in `s` regardless of ASCII case.
pub open spec fn has_ci_sub(s: Seq<char>, t: Seq<char>) -> bool {
    exists|i: int| #[trigger] ci_at(s, i, t)
}

/// The season that the folders `names[0..k]` give, innermost first: the
/// number of a season marker, or 0 for a folder of specials.
pub open spec fn season_from_folders(names: Seq<Seq<char>>, k: int) -> Option<int>
    decreases k,
{
    if k <= 0 || k > names.len() {
        None
    } else {
        let p = names[k - 1];
        if has_core(Core::SeasonWord, p) {
            match season_number_in(p) {
                Some(n) => Some(n),
                None => season_from_folders(names, k - 1),
            }
        } else if has_ci_sub(p, "special"@) {
            Some(0)
        } else {
            season_from_folders(names, k - 1)
        }
    }
}

pub open spec fn or_default(o: Option<int>, d: int) -> int {
    match o {
        Some(v) => v,
        None => d,
    }
}

/// The show title and season of an episode at relative path `rel`, given
/// what its file name says.  Without folders the file name decides; one
/// folder is the show, its season marker (if any) removed and read as the
/// season; with more, the outermost folder is the show and the innermost
/// folder with a season marker or of specials gives the season.
pub open spec fn show_and_season(rel: Seq<char>, parsed_title: Seq<char>, parsed_season: Option<
    int,
>) -> (Seq<char>, int) {
    let names = folder_names(rel);
    let default_season = or_default(parsed_season, 1);
    if names.len() == 0 {
        (parsed_title, default_season)
    } else if names.len() == 1 {
        let f = names[0];
        if has_core(Core::SeasonWord, f) {
            (without_season_marker(f), or_default(season_number_in(f), default_season))
        } else {
            (f, default_season)
        }
    } else {
        (names[0], or_default(season_from_folders(names, names.len() as int), default_season))
    }
}

fn folder_names_exec(rel: &str) -> (r: Vec<Vec<char>>)
    ensures
        r@.map_values(|v: Vec<char>| v@) == folder_names(rel@),
{
    let v = to_chars(rel);
    let p = path_parts_of(&v);
    let ghost ps = p@.parts;
    let mut out: Vec<Vec<char>> = Vec::new();
    if p.parts.len() == 0 {
        assert(out@.map_values(|v: Vec<char>| v@) =~= folder_names(rel@));
        return out;
    }
    let k = p.parts.len() - 1;
    let mut i: usize = 0;
    while i < k
        invariant
            k + 1 == p.parts.len() == ps.len(),
            ps == p@.parts,
            ps == path_parts(rel@),
            i <= k,
            out@.map_values(|v: Vec<char>| v@) == drop_dotdots(ps.subrange(0, i as int)),
        decreases k - i,
    {
        let part = &p.parts[i];
        assert(ps[i as int] == part@);
        assert(ps.subrange(0, i + 1).drop_last() =~= ps.subrange(0, i as int));
        let is_dd = part.len() == 2 && part[0] == '.' && part[1] == '.';
        if is_dd {
            assert(part@ =~= seq!['.', '.']);
        } else {
            assert(part@ != seq!['.', '.']) by {
                if part@.len() == 2 {
                    assert(part@[0] != '.' || part@[1] != '.');
                }
            }
            let ghost before = out@;
            out.push(part.clone());
            assert(out@.map_values(|v: Vec<char>| v@) =~= before.map_values(|v: Vec<char>| v@).push(
                part@,
            ));
        }
        i = i + 1;
    }
    assert(ps.subrange(0, k as int) =~= ps.drop_last());
    out
}

fn season_keyword_len_exec(s: &Vec<char>, q: usize) -> (r: usize)
    requires
        season_word_at(s@, q as int),
    ensures
        r == season_keyword_len(s@, q as int),
        q + r <= s.len(),
{
    proof {
        reveal_strlit("season");
        reveal_strlit("series");
    }
    let room = s.len() >= 6 && q <= s.len() - 6;
    if ci_at_exec(s, q, "season") && room && number_ends_word_exec(s, q + 6) {
        6
    } else if ci_at_exec(s, q, "series") && room && number_ends_word_exec(s, q + 6) {
        6
    } else {
        proof {
            reveal_strlit("s");
        }
        1
    }
}

fn number_ends_word_exec(s: &Vec<char>, j: usize) -> (r: bool)
    requires
        j <= s.len(),
    ensures
        r == number_ends_word(s@, j as int),
{
    let k = j + ws_run_exec(s, j);
    let d = digit_run_exec(s, k);
    d >= 1 && crate::text::boundary_after_exec(s, k + d)
}

/// The first season marker of `s`: where it starts, where its number
/// starts and where it ends.
fn season_marker_exec(s: &Vec<char>) -> (r: Option<(usize, usize, usize)>)
    ensures
        match r {
            Some((q, ds, de)) => {
                &&& has_core(Core::SeasonWord, s@)
                &&& q as int == first_cand(Lead::Bare, Core::SeasonWord, s@, 0)
                &&& ds as int == season_digits_start(s@)
                &&& de as int == season_marker_end(s@)
                &&& q <= ds <= de <= s.len()
            },
            None => !has_core(Core::SeasonWord, s@),
        },
{
    let n = s.len();
    let mut q: usize = 0;
    while q < n && !season_word_at_exec(s, q)
        invariant
            q <= n == s@.len(),
            forall|j: int| 0 <= j < q ==> !#[trigger] season_word_at(s@, j),
        decreases n - q,
    {
        q = q + 1;
    }
    proof {
        let p = crate::pattern::cand_pred(Lead::Bare, Core::SeasonWord, s@, 0);
        assert forall|j: int| 0 <= j < q implies !#[trigger] p(j) by {}
        if q < n {
            assert(p(q as int));
        }
        crate::text::lemma_first_from_is(p, 0, n as int, q as int);
    }
    if q >= n {
        return None;
    }
    let kl = season_keyword_len_exec(s, q);
    let k = q + kl;
    let ds = k + ws_run_exec(s, k);
    let de = ds + digit_run_exec(s, ds);
    Some((q, ds, de))
}

fn season_word_at_exec(s: &Vec<char>, q: usize) -> (r: bool)
    requires
        q <= s.len(),
    ensures
        r == season_word_at(s@, q as int),
{
    proof {
        reveal_strlit("season");
        reveal_strlit("series");
        reveal_strlit("s");
    }
    if !crate::text::boundary_before_exec(s, q) {
        return false;
    }
    (ci_at_exec(s, q, "season") && q + 6 <= s.len() && number_ends_word_exec(s, q + 6)) || (
    ci_at_exec(s, q, "series") && q + 6 <= s.len() && number_ends_word_exec(s, q + 6)) || (
    ci_at_exec(s, q, "s") && q + 1 <= s.len() && number_ends_word_exec(s, q + 1))
}

fn season_number_exec(s: &Vec<char>, ds: usize, de: usize) -> (r: Option<i32>)
    requires
        ds <= de <= s.len(),
        de - ds == digit_run(s@, ds as int),
    ensures
        opt_i32(r) == (if num_value(s@.subrange(ds as int, de as int)) <= i32::MAX {
            Some(num_value(s@.subrange(ds as int, de as int)))
        } else {
            None
        }),
{
    proof {
        lemma_digit_run(s@, ds as int);
    }
    let d = slice_of(s, ds, de);
    assert(d@.subrange(0, d@.len() as int) =~= d@);
    assert forall|i: int| 0 <= i < d@.len() implies is_digit(#[trigger] d@[i]) by {
        assert(d@[i] == s@[ds + i]);
    }
    let r = parse_i32_digits(&d, 0);
    assert(d@.subrange(0, d.len() as int) == s@.subrange(ds as int, de as int));
    proof {
        lemma_num_value_bound(d@);
    }
    r
}

fn has_ci_sub_exec(s: &Vec<char>, t: &str) -> (r: bool)
    ensures
        r == has_ci_sub(s@, t@),
{
    let n = s.len();
    let mut i: usize = 0;
    while i < n
        invariant
            i <= n == s.len(),
            forall|j: int| 0 <= j < i ==> !#[trigger] ci_at(s@, j, t@),
        decreases n - i,
    {
        if ci_at_exec(s, i, t) {
            return true;
        }
        i = i + 1;
    }
    if ci_at_exec(s, n, t) {
        return true;
    }
    assert forall|j: int| !#[trigger] ci_at(s@, j, t@) by {
        if 0 <= j < n {
        } else if j == n {
        } else {
        }
    }
    false
}

/// The show title and season of an episode at relative path
/// `relative_path`, given the title and season its file name gives.
pub fn show_and_season_from_path(
    relative_path: &str,
    parsed_title: &str,
    parsed_season: Option<i32>,
) -> (r: (String, i32))
    ensures
        (r.0@, r.1 as int) == show_and_season(relative_path@, parsed_title@, opt_i32(parsed_season)),
{
    let names = folder_names_exec(relative_path);
    let ghost ns = folder_names(relative_path@);
    let default_season: i32 = match parsed_season {
        Some(v) => v,
        None => 1,
    };
    if names.len() == 0 {
        return (String::from_str(parsed_title), default_season);
    }
    if names.len() == 1 {
        let f = &names[0];
        assert(ns[0] == f@);
        match season_marker_exec(f) {
            Some((q, ds, de)) => {
                let season = match season_number_exec(f, ds, de) {
                    Some(v) => v,
                    None => default_season,
                };
                let mut out = slice_of(f, 0, q);
                push_range(&mut out, f, de, f.len());
                return (from_chars(&out), season);
            },
            None => {
                return (from_chars(f), default_season);
            },
        }
    }
    let show = from_chars(&names[0]);
    assert(ns[0] == names[0]@);
    let mut k = names.len();
    let mut found: Option<i32> = None;
    while k > 0 && found.is_none()
        invariant
            k <= names.len() == ns.len(),
            names@.map_values(|v: Vec<char>| v@) == ns,
            found is None ==> season_from_folders(ns, names.len() as int) == season_from_folders(
                ns,
                k as int,
            ),
            found is Some ==> opt_i32(found) == season_from_folders(ns, names.len() as int),
        decreases k,
    {
        let p = &names[k - 1];
        assert(ns[k - 1] == p@);
        match season_marker_exec(p) {
            Some((q, ds, de)) => {
                match season_number_exec(p, ds, de) {
                    Some(v) => {
                        found = Some(v);
                    },
                    None => {},
                }
            },
            None => {
                if has_ci_sub_exec(p, "special") {
                    found = Some(0);
                }
            },
        }
        k = k - 1;
    }
    let season = match found {
        Some(v) => v,
        None => default_season,
    };
    (show, season)
}

// ---------------------------------------------------------------------------
// Naming organised episodes.
// ---------------------------------------------------------------------------

/// The folder of a season: `Season 01`.
pub open spec fn season_dir(season: int) -> Seq<char> {
    "Season "@ + decimal_padded(season, 2)
}

/// The name of a season's folder.
pub fn season_dir_name(season: i32) -> (r: String)
    ensures
        r@ == season_dir(season as int),
{
    let mut v: Vec<char> = Vec::new();
    push_str(&mut v, "Season ");
    push_decimal_padded(&mut v, season as i64, 2);
    from_chars(&v)
}

/// The file name of an organised episode:
/// `Show - S01E02 - Title [suffix].ext`, the title part left out when
/// there is none; show and title made safe for the file system.
pub open spec fn episode_name(
    show: Seq<char>,
    season: int,
    episode: int,
    title: Option<Seq<char>>,
    suffix: Seq<char>,
    ext: Seq<char>,
) -> Seq<char> {
    crate::renamer::sanitized(show) + " - S"@ + decimal_padded(season, 2) + "E"@ + decimal_padded(
        episode,
        2,
    ) + match title {
        Some(t) => " - "@ + crate::renamer::sanitized(t),
        None => Seq::<char>::empty(),
    } + suffix + "."@ + ext
}

/// The file name an episode is organised under.
pub fn episode_file_name(
    show_title: &str,
    season: i32,
    episode: i32,
    episode_title: Option<&str>,
    suffix: &str,
    ext: &str,
) -> (r: String)
    ensures
        r@ == episode_name(show_title@, season as int, episode as int, opt_text(episode_title), suffix@, ext@),
{
    let show = crate::titles::sanitize_name(show_title);
    let mut v: Vec<char> = Vec::new();
    push_str(&mut v, show.as_str());
    push_str(&mut v, " - S");
    push_decimal_padded(&mut v, season as i64, 2);
    push_str(&mut v, "E");
    push_decimal_padded(&mut v, episode as i64, 2);
    let ghost before_title = v@;
    match episode_title {
        Some(t) => {
            let st = crate::titles::sanitize_name(t);
            push_str(&mut v, " - ");
            push_str(&mut v, st.as_str());
        },
        None => {},
    }
    push_str(&mut v, suffix);
    push_str(&mut v, ".");
    push_str(&mut v, ext);
    from_chars(&v)
}

/// One file of a group of files that are the same episode.
pub struct EpisodeVariant {
    /// The resolution the file name gives.
    pub resolution: Option<Resolution>,
    /// The picture size a probe gave.
    pub dimensions: Option<(i32, i32)>,
    pub size_bytes: i64,
}

pub open spec fn variant_resolution(v: EpisodeVariant) -> Option<Resolution> {
    match v.resolution {
        Some(r) => Some(r),
        None => match v.dimensions {
            Some((w, h)) => Some(resolution_of_dimensions(w as int, h as int)),
            None => None,
        },
    }
}

/// Every file of the group has a resolution, and no two share one.
pub open spec fn resolutions_distinct(vs: Seq<EpisodeVariant>) -> bool {
    &&& forall|i: int| 0 <= i < vs.len() ==> (#[trigger] variant_resolution(vs[i])) is Some
    &&& forall|i: int, j: int|
        0 <= i < j < vs.len() ==> variant_resolution(#[trigger] vs[i]) != variant_resolution(
            #[trigger] vs[j],
        )
}

/// Integer division rounding toward zero, as `i64` division does.
pub open spec fn trunc_div(a: int, b: int) -> int {
    if a >= 0 {
        a / b
    } else {
        -((-a) / b)
    }
}

/// The suffix that tells a file of a group apart: its resolution, and its
/// size in MiB as well when resolutions do not tell the files apart.
pub open spec fn variant_suffix(v: EpisodeVariant, distinct: bool) -> Seq<char> {
    let res = match variant_resolution(v) {
        Some(r) => resolution_text(r),
        None => "unknown"@,
    };
    if distinct {
        " ["@ + res + "]"@
    } else {
        " ["@ + res + "-"@ + decimal(trunc_div(v.size_bytes as int, 1048576)) + "MB]"@
    }
}

/// The suffixes of the files of a group, in order; a lone file gets none.
pub open spec fn episode_suffixes(vs: Seq<EpisodeVariant>) -> Seq<Seq<char>> {
    if vs.len() <= 1 {
        seq![Seq::<char>::empty()]
    } else {
        Seq::new(vs.len(), |i: int| variant_suffix(vs[i], resolutions_distinct(vs)))
    }
}

fn variant_resolution_exec(v: &EpisodeVariant) -> (r: Option<Resolution>)
    ensures
        r == variant_resolution(*v),
{
    match v.resolution {
        Some(r) => Some(r),
        None => match v.dimensions {
            Some((w, h)) => Some(Resolution::from_dimensions(w, h)),
            None => None,
        },
    }
}

fn resolutions_distinct_exec(vs: &Vec<EpisodeVariant>) -> (r: bool)
    ensures
        r == resolutions_distinct(vs@),
{
    let n = vs.len();
    let mut i: usize = 0;
    while i < n
        invariant
            i <= n == vs@.len(),
            forall|a: int| 0 <= a < i ==> (#[trigger] variant_resolution(vs@[a])) is Some,
            forall|a: int, b: int|
                0 <= a < b < i ==> variant_resolution(#[trigger] vs@[a]) != variant_resolution(
                    #[trigger] vs@[b],
                ),
        decreases n - i,
    {
        let ri = variant_resolution_exec(&vs[i]);
        if ri.is_none() {
            assert(variant_resolution(vs@[i as int]) is None);
            return false;
        }
        let mut j: usize = 0;
        while j < i
            invariant
                j <= i < n == vs@.len(),
                ri == variant_resolution(vs@[i as int]),
                forall|a: int| 0 <= a < j ==> variant_resolution(#[trigger] vs@[a]) != ri,
            decreases i - j,
        {
            let rj = variant_resolution_exec(&vs[j]);
            if rj == ri {
                assert(variant_resolution(vs@[j as int]) == variant_resolution(vs@[i as int]));
                return false;
            }
            j = j + 1;
        }
        i = i + 1;
    }
    true
}

/// Suffixes that keep the files of one episode apart once they are
/// organised side by side.
pub fn get_episode_suffixes(group: &Vec<EpisodeVariant>) -> (r: Vec<String>)
    ensures
        strs(r@) == episode_suffixes(group@),
{
    if group.len() <= 1 {
        let r = vec![String::new()];
        assert(strs(r@) =~= episode_suffixes(group@));
        return r;
    }
    let distinct = resolutions_distinct_exec(group);
    let mut out: Vec<String> = Vec::new();
    let mut i: usize = 0;
    while i < group.len()
        invariant
            i <= group.len(),
            group.len() > 1,
            distinct == resolutions_distinct(group@),
            strs(out@) =~= episode_suffixes(group@).subrange(0, i as int),
        decreases group.len() - i,
    {
        let v = &group[i];
        let res: String = match variant_resolution_exec(v) {
            Some(r) => String::from_str(r.as_str()),
            None => String::from_str("unknown"),
        };
        let mut t: Vec<char> = Vec::new();
        push_str(&mut t, " [");
        push_str(&mut t, res.as_str());
        if distinct {
            push_str(&mut t, "]");
        } else {
            push_str(&mut t, "-");
            let mb: i64 = if v.size_bytes >= 0 {
                v.size_bytes / 1048576
            } else {
                let m = (0i128 - v.size_bytes as i128) / 1048576;
                (0i128 - m) as i64
            };
            push_decimal(&mut t, mb);
            push_str(&mut t, "MB]");
        }
        let ghost before = out@;
        out.push(from_chars(&t));
        assert(strs(out@) =~= strs(before).push(variant_suffix(group@[i as int], distinct)));
        i = i + 1;
    }
    out
}

// ---------------------------------------------------------------------------
// Free destination names.
// ---------------------------------------------------------------------------

/// The `k`-th alternative to file name `name`: `stem_k.ext`, or `stem_k`
/// for a name without extension.
pub open spec fn numbered_name(name: Seq<char>, k: int) -> Seq<char> {
    let ext = match extension_of_name(name) {
        Some(e) => e,
        None => Seq::<char>::empty(),
    };
    if ext.len() == 0 {
        stem_of_name(name) + "_"@ + decimal(k)
    } else {
        stem_of_name(name) + "_"@ + decimal(k) + "."@ + ext
    }
}

pub open spec fn free_pred(name: Seq<char>, taken: Seq<Seq<char>>) -> spec_fn(int) -> bool {
    |k: int| !taken.contains(numbered_name(name, k))
}

/// The name a file is stored under in a folder where the names `taken`
/// exist: `name` itself when free, else the first free numbered
/// alternative.
pub open spec fn free_name(name: Seq<char>, taken: Seq<Seq<char>>) -> Seq<char> {
    if !taken.contains(name) {
        name
    } else {
        numbered_name(name, first_from(free_pred(name, taken), 1, taken.len() as int + 2))
    }
}

proof fn lemma_digit_char_injective(x: int, y: int)
    requires
        0 <= x < 10,
        0 <= y < 10,
        crate::text::digit_char(x) == crate::text::digit_char(y),
    ensures
        x == y,
{
    assert((48 + x) as u8 == 48 + x);
    assert((48 + y) as u8 == 48 + y);
    assert((((48 + x) as u8) as char) as u32 == 48 + x);
    assert((((48 + y) as u8) as char) as u32 == 48 + y);
}

proof fn lemma_digits_of_injective(a: nat, b: nat)
    requires
        digits_of(a) == digits_of(b),
    ensures
        a == b,
    decreases a,
{
    crate::text::lemma_digits_of_len(a / 10);
    crate::text::lemma_digits_of_len(b / 10);
    if a < 10 && b < 10 {
        assert(digits_of(a) == seq![crate::text::digit_char(a as int)]);
        assert(digits_of(b) == seq![crate::text::digit_char(b as int)]);
        assert(seq![crate::text::digit_char(a as int)][0] == crate::text::digit_char(a as int));
        assert(seq![crate::text::digit_char(b as int)][0] == crate::text::digit_char(b as int));
        lemma_digit_char_injective(a as int, b as int);
    } else if a >= 10 && b >= 10 {
        assert(digits_of(a).last() == crate::text::digit_char((a % 10) as int));
        assert(digits_of(b).last() == crate::text::digit_char((b % 10) as int));
        lemma_digit_char_injective((a % 10) as int, (b % 10) as int);
        assert(digits_of(a).drop_last() =~= digits_of(a / 10));
        assert(digits_of(b).drop_last() =~= digits_of(b / 10));
        lemma_digits_of_injective(a / 10, b / 10);
    } else {
        crate::text::lemma_digits_of_len(a);
        crate::text::lemma_digits_of_len(b);
        if a < 10 {
            assert(digits_of(b) == digits_of(b / 10).push(crate::text::digit_char((b % 10) as int)));
            assert(digits_of(b).len() >= 2);
        } else {
            assert(digits_of(a) == digits_of(a / 10).push(crate::text::digit_char((a % 10) as int)));
            assert(digits_of(a).len() >= 2);
        }
        assert(digits_of(a).len() != digits_of(b).len());
    }
}

proof fn lemma_numbered_name_injective(name: Seq<char>, j: int, k: int)
    requires
        1 <= j,
        1 <= k,
        numbered_name(name, j) == numbered_name(name, k),
    ensures
        j == k,
{
    let stem = stem_of_name(name);
    let ext = match extension_of_name(name) {
        Some(e) => e,
        None => Seq::<char>::empty(),
    };
    let dj = decimal(j);
    let dk = decimal(k);
    let pre = stem + "_"@;
    let (a, b) = if ext.len() == 0 {
        (pre + dj, pre + dk)
    } else {
        (pre + dj + "."@ + ext, pre + dk + "."@ + ext)
    };
    assert(a == numbered_name(name, j));
    assert(b == numbered_name(name, k));
    if ext.len() == 0 {
        assert(dj =~= a.subrange(pre.len() as int, a.len() as int));
        assert(dk =~= b.subrange(pre.len() as int, b.len() as int));
    } else {
        let tail = "."@ + ext;
        assert(a =~= pre + dj + tail);
        assert(b =~= pre + dk + tail);
        assert(dj.len() == dk.len());
        assert(dj =~= a.subrange(pre.len() as int, (pre.len() + dj.len()) as int));
        assert(dk =~= b.subrange(pre.len() as int, (pre.len() + dk.len()) as int));
    }
    lemma_digits_of_injective(j as nat, k as nat);
}

/// The name a file is stored under is never one that is taken: either the
/// name itself is free, or one of the numbered alternatives tried (as many
/// as there are taken names, plus one) is.
pub proof fn lemma_free_name_is_free(name: Seq<char>, taken: Seq<Seq<char>>)
    ensures
        !taken.contains(free_name(name, taken)),
{
    if taken.contains(name) {
        let n = taken.len() as int + 2;
        let p = free_pred(name, taken);
        let f = |k: int| numbered_name(name, k);
        let x = vstd::set_lib::set_int_range(1, n);
        vstd::set_lib::lemma_int_range(1, n);
        crate::text::lemma_first_from(p, 1, n);
        let q = first_from(p, 1, n);
        if q >= n {
            assert forall|k: int| #[trigger] x.contains(k) implies taken.to_set().contains(f(k)) by {
                assert(!p(k));
            }
            assert(x.map(f).subset_of(taken.to_set()));
            assert(vstd::relations::injective_on(f, x)) by {
                assert forall|j: int, k: int|
                    x.contains(j) && x.contains(k) && #[trigger] f(j) == #[trigger] f(k) implies j == k by {
                    lemma_numbered_name_injective(name, j, k);
                }
            }
            vstd::set_lib::lemma_map_size(x, x.map(f), f);
            taken.lemma_cardinality_of_set();
            vstd::set_lib::lemma_len_subset(x.map(f), taken.to_set());
            assert(false);
        }
        assert(p(q));
    }
}

fn numbered_name_exec(name: &Vec<char>, k: u64) -> (r: String)
    ensures
        r@ == numbered_name(name@, k as int),
{
    let stem = crate::parser::stem_of_name_exec(name);
    let mut v = slice_of(&stem, 0, stem.len());
    assert(stem@.subrange(0, stem.len() as int) =~= stem@);
    push_str(&mut v, "_");
    let ds = crate::text::decimal_string_u64(k);
    push_str(&mut v, ds.as_str());
    let ext = crate::parser::extension_of_name_exec(name);
    match ext {
        Some(e) => {
            if e.len() > 0 {
                push_str(&mut v, ".");
                push_range(&mut v, &e, 0, e.len());
                assert(e@.subrange(0, e.len() as int) =~= e@);
            }
        },
        None => {},
    }
    from_chars(&v)
}

/// The path under which a file named `file_name` is stored in `dest_dir`,
/// where the names `taken` already exist: the name itself when free, else
/// `stem_1.ext`, `stem_2.ext`, ... whichever comes first free.
pub fn get_unique_dest_path(dest_dir: &str, file_name: &str, taken: &[String]) -> (r: String)
    requires
        taken@.len() < u64::MAX - 2,
    ensures
        r@ == joined_path(free_name(file_name@, strs(taken@)), dest_dir@),
{
    if !crate::text::contains_str(taken, file_name) {
        return crate::paths::make_absolute(file_name, dest_dir);
    }
    let name = to_chars(file_name);
    let ghost ts = strs(taken@);
    let bound: u64 = taken.len() as u64 + 2;
    let mut k: u64 = 1;
    let mut cand = numbered_name_exec(&name, 1);
    while k < bound && crate::text::contains_str(taken, cand.as_str())
        invariant
            1 <= k <= bound,
            bound == ts.len() + 2,
            ts == strs(taken@),
            name@ == file_name@,
            cand@ == numbered_name(name@, k as int),
            forall|j: int| 1 <= j < k ==> !#[trigger] free_pred(name@, ts)(j),
        decreases bound - k,
    {
        k = k + 1;
        cand = numbered_name_exec(&name, k);
    }
    proof {
        let p = free_pred(name@, ts);
        if k < bound {
            assert(p(k as int));
        }
        crate::text::lemma_first_from_is(p, 1, bound as int, k as int);
    }
    crate::paths::make_absolute(cand.as_str(), dest_dir)
}

// ---------------------------------------------------------------------------
// Files that belong to a show, not to an episode.
// ---------------------------------------------------------------------------

/// Files kept at a show's top level that follow its episodes when they
/// are organised into a new show folder.
pub open spec fn show_level_names(season: int) -> Seq<Seq<char>> {
    seq![
        "tvshow.nfo"@,
        "poster.jpg"@,
        "fanart.jpg"@,
        "banner.jpg"@,
        "clearlogo.png"@,
        "season"@ + decimal_padded(season, 2) + "-poster.jpg"@,
    ]
}

/// The names of the show files to carry from `old_show_dir` to
/// `new_show_dir` (each moved when it exists there and not yet at the
/// destination); none when the folders are the same.
pub fn show_level_files(old_show_dir: &str, new_show_dir: &str, season: i32) -> (r: Vec<String>)
    ensures
        strs(r@) == if path_view(old_show_dir@) == path_view(new_show_dir@) {
            Seq::<Seq<char>>::empty()
        } else {
            show_level_names(season as int)
        },
{
    let a = path_parts_of(&to_chars(old_show_dir));
    let b = path_parts_of(&to_chars(new_show_dir));
    if path_eq(&a, &b) {
        let r: Vec<String> = Vec::new();
        assert(strs(r@) =~= Seq::<Seq<char>>::empty());
        return r;
    }
    let mut sp: Vec<char> = Vec::new();
    push_str(&mut sp, "season");
    push_decimal_padded(&mut sp, season as i64, 2);
    push_str(&mut sp, "-poster.jpg");
    let r = vec![
        String::from_str("tvshow.nfo"),
        String::from_str("poster.jpg"),
        String::from_str("fanart.jpg"),
        String::from_str("banner.jpg"),
        String::from_str("clearlogo.png"),
        from_chars(&sp),
    ];
    assert(strs(r@) =~= show_level_names(season as int));
    r
}

// ---------------------------------------------------------------------------
// Which show an episode is stored under.
// ---------------------------------------------------------------------------

/// The cleaned title of a show, or the raw one when cleaning leaves
/// nothing.
pub open spec fn db_show_title(raw: Seq<char>) -> Seq<char> {
    let c = crate::titles::show_title_for_db(raw);
    if c.len() > 0 {
        c
    } else {
        raw
    }
}

/// The title a show is stored under: the cleaned title found for it, or
/// the first title of its NFO file when that is not empty.
pub fn show_title_to_store(extracted: &str, nfo_title: Option<&str>) -> (r: String)
    ensures
        r@ == overridden(db_show_title(extracted@), opt_text(nfo_title)),
{
    let c = crate::titles::clean_show_title_for_db(extracted);
    let t = if c.unicode_len() > 0 {
        c
    } else {
        String::from_str(extracted)
    };
    title_with_override(t, nfo_title)
}

/// The show, season and episode under which an episode file is grouped
/// when a library is organised: what is stored for it, or else what its
/// file name and NFO file say (season and episode 1 when unknown).
pub fn episode_group_key(
    stored: Option<(String, i32, i32)>,
    parsed_title: &str,
    nfo_title: Option<&str>,
    parsed_season: Option<i32>,
    parsed_episode: Option<i32>,
) -> (r: (String, i32, i32))
    ensures
        match stored {
            Some((t, s, e)) => r.0@ == t@ && r.1 == s && r.2 == e,
            None => {
                &&& r.0@ == overridden(db_show_title(parsed_title@), opt_text(nfo_title))
                &&& r.1 as int == or_default(opt_i32(parsed_season), 1)
                &&& r.2 as int == or_default(opt_i32(parsed_episode), 1)
            },
        },
{
    match stored {
        Some((t, s, e)) => (t, s, e),
        None => {
            let title = show_title_to_store(parsed_title, nfo_title);
            let season = match parsed_season {
                Some(v) => v,
                None => 1,
            };
            let episode = match parsed_episode {
                Some(v) => v,
                None => 1,
            };
            (title, season, episode)
        },
    }
}


// ---------------------------------------------------------------------------
// Show and season from the folders of an episode, as the background scan
// reads them.
// ---------------------------------------------------------------------------

/// Where the last run of non-whitespace of `t` (which ends in one) starts.
pub open spec fn word_start(t: Seq<char>) -> int
    decreases t.len(),
{
    if t.len() == 0 {
        0
    } else if is_ws(t.last()) {
        t.len() as int
    } else {
        word_start(t.drop_last())
    }
}

/// The last whitespace-separated word of `s`, as
/// `str::split_whitespace().last()` finds it.
pub open spec fn last_word(s: Seq<char>) -> Option<Seq<char>> {
    let t = crate::text::trim_end(s);
    if t.len() == 0 {
        None
    } else {
        Some(t.subrange(word_start(t), t.len() as int))
    }
}

fn last_word_exec(s: &Vec<char>) -> (r: Option<Vec<char>>)
    ensures
        match r {
            Some(w) => last_word(s@) == Some(w@),
            None => last_word(s@) is None,
        },
{
    let t = crate::text::trim_end_chars(s);
    if t.len() == 0 {
        return None;
    }
    let mut j = t.len();
    assert(t@.subrange(0, t.len() as int) =~= t@);
    while j > 0 && !crate::text::is_ws_exec(t[j - 1])
        invariant
            j <= t@.len(),
            word_start(t@) == word_start(t@.subrange(0, j as int)),
        decreases j,
    {
        assert(t@.subrange(0, j as int).drop_last() =~= t@.subrange(0, j - 1));
        j = j - 1;
    }
    proof {
        if j > 0 {
            assert(t@.subrange(0, j as int).last() == t@[j - 1]);
        }
    }
    Some(slice_of(&t, j, t.len()))
}

pub open spec fn name_or_empty(v: PathView) -> Seq<char> {
    match view_file_name(v) {
        Some(n) => n,
        None => Seq::<char>::empty(),
    }
}

/// The show title and season of an episode at `path` as the background
/// scan reads its folders: a folder whose name (in lower case) starts with
/// `season` or `series` gives the season by its last word and the show by
/// the folder above it (when that has a name); otherwise, when the file
/// name gave no season, the folder's name is the show.  The season is 1
/// when nothing gives one.
pub open spec fn folder_show_and_season(
    path: Seq<char>,
    parsed_title: Seq<char>,
    parsed_season: Option<int>,
) -> (Seq<char>, int) {
    let season0 = or_default(parsed_season, 1);
    match view_parent(path_view(path)) {
        None => (parsed_title, season0),
        Some(pv) => {
            let pname = name_or_empty(pv);
            match season_folder_of_lower(lowercase(pname)) {
                Some(n) => {
                    let season = match n {
                        Some(v) => v,
                        None => season0,
                    };
                    let show = match view_parent(pv) {
                        Some(gv) => if name_or_empty(gv).len() > 0 {
                            name_or_empty(gv)
                        } else {
                            parsed_title
                        },
                        None => parsed_title,
                    };
                    (show, season)
                },
                None => if parsed_season is None {
                    (pname, season0)
                } else {
                    (parsed_title, season0)
                },
            }
        },
    }
}

/// A folder name in lower case names a season folder when it starts with
/// `season` or `series`; its last word, read as a number, is the season
/// when it reads.
pub open spec fn season_folder_of_lower(lc: Seq<char>) -> Option<Option<int>> {
    if has_prefix(lc, "season"@) || has_prefix(lc, "series"@) {
        Some(
            match last_word(lc) {
                Some(w) => parsed_i32(w),
                None => None,
            },
        )
    } else {
        None
    }
}

/// `p` starts `s`.
pub open spec fn has_prefix(s: Seq<char>, p: Seq<char>) -> bool {
    p.len() <= s.len() && s.subrange(0, p.len() as int) == p
}

fn has_prefix_exec(s: &Vec<char>, p: &str) -> (r: bool)
    ensures
        r == has_prefix(s@, p@),
{
    let pv = to_chars(p);
    if pv.len() > s.len() {
        return false;
    }
    let mut i: usize = 0;
    while i < pv.len()
        invariant
            pv@ == p@,
            pv@.len() <= s@.len(),
            i <= pv@.len(),
            forall|j: int| 0 <= j < i ==> s@[j] == pv@[j],
        decreases pv.len() - i,
    {
        if s[i] != pv[i] {
            assert(s@.subrange(0, pv@.len() as int)[i as int] != pv@[i as int]);
            assert(s@.subrange(0, pv@.len() as int) != pv@);
            return false;
        }
        i = i + 1;
    }
    assert(s@.subrange(0, pv@.len() as int) =~= pv@);
    true
}

fn name_of(p: &PathParts) -> (r: Vec<char>)
    ensures
        r@ == name_or_empty(p@),
{
    match file_name_of(p) {
        Some(n) => n,
        None => Vec::new(),
    }
}

/// Whether a folder name in lower case names a season folder, and the
/// season its last word gives.
pub fn season_folder_lower(lower_name: &str) -> (r: Option<Option<i32>>)
    ensures
        match r {
            Some(n) => season_folder_of_lower(lower_name@) == Some(opt_i32(n)),
            None => season_folder_of_lower(lower_name@) is None,
        },
{
    let lc = to_chars(lower_name);
    if has_prefix_exec(&lc, "season") || has_prefix_exec(&lc, "series") {
        Some(
            match last_word_exec(&lc) {
                Some(w) => parse_i32(&w),
                None => None,
            },
        )
    } else {
        None
    }
}

/// The show title and season of the episode at `path` from its folders.
pub fn episode_show_and_season(
    path: &str,
    parsed_title: &str,
    parsed_season: Option<i32>,
) -> (r: (String, i32))
    ensures
        (r.0@, r.1 as int) == folder_show_and_season(path@, parsed_title@, opt_i32(parsed_season)),
{
    let season0: i32 = match parsed_season {
        Some(v) => v,
        None => 1,
    };
    let mut p = path_parts_of(&to_chars(path));
    if !to_parent(&mut p) {
        return (from_chars(&to_chars(parsed_title)), season0);
    }
    let pname = name_of(&p);
    let pname_s = from_chars(&pname);
    let lc = lowercase_string(pname_s.as_str());
    match season_folder_lower(lc.as_str()) {
        Some(n) => {
            let season = match n {
                Some(v) => v,
                None => season0,
            };
            let show = if to_parent(&mut p) {
                let g = name_of(&p);
                if g.len() > 0 {
                    from_chars(&g)
                } else {
                    from_chars(&to_chars(parsed_title))
                }
            } else {
                from_chars(&to_chars(parsed_title))
            };
            (show, season)
        },
        None => if parsed_season.is_none() {
            (pname_s, season0)
        } else {
            (from_chars(&to_chars(parsed_title)), season0)
        },
    }
}

/// The title a show is stored under: the folders' show title when the
/// title is still the one the file name gave and the folders say
/// otherwise.
pub fn stored_show_title(title: &str, parsed_title: &str, folder_title: &str) -> (r: String)
    ensures
        r@ == if title@ == parsed_title@ && folder_title@ != parsed_title@ {
            folder_title@
        } else {
            title@
        },
{
    if str_eq(title, parsed_title) && !str_eq(folder_title, parsed_title) {
        from_chars(&to_chars(folder_title))
    } else {
        from_chars(&to_chars(title))
    }
}

/// The key (show, season, episode) of an episode file as text and numbers.
pub open spec fn key_view(k: (String, i32, i32)) -> (Seq<char>, i32, i32) {
    (k.0@, k.1, k.2)
}

/// The first position of `keys` whose key is that of position `i`: the
/// group that file `i` is organised with.
pub open spec fn group_leader(keys: Seq<(String, i32, i32)>, i: int) -> int {
    choose|j: int| 0 <= j <= i && key_view(keys[j]) == key_view(keys[i])
        && forall|t: int| 0 <= t < j ==> key_view(#[trigger] keys[t]) != key_view(keys[i])
}

proof fn lemma_group_leader(keys: Seq<(String, i32, i32)>, i: int, j: int)
    requires
        0 <= j <= i < keys.len(),
        key_view(keys[j]) == key_view(keys[i]),
        forall|t: int| 0 <= t < j ==> key_view(#[trigger] keys[t]) != key_view(keys[i]),
    ensures
        group_leader(keys, i) == j,
{
    let g = group_leader(keys, i);
    assert(0 <= g <= i && key_view(keys[g]) == key_view(keys[i])
        && forall|t: int| 0 <= t < g ==> key_view(#[trigger] keys[t]) != key_view(keys[i]));
    if g < j {
        assert(key_view(keys[g]) != key_view(keys[i]));
    } else if j < g {
        assert(key_view(keys[j]) != key_view(keys[i]));
    }
}

fn same_key(a: &(String, i32, i32), b: &(String, i32, i32)) -> (r: bool)
    ensures
        r == (key_view(*a) == key_view(*b)),
{
    a.1 == b.1 && a.2 == b.2 && str_eq(a.0.as_str(), b.0.as_str())
}

/// For each episode file, with the keys `keys` under which the files are
/// grouped, the position of the first file with the same key: files with
/// the same leader are the same episode and are organised together, in
/// the order of `keys`.
pub fn episode_group_leaders(keys: &Vec<(String, i32, i32)>) -> (r: Vec<usize>)
    ensures
        r@.len() == keys@.len(),
        forall|i: int| 0 <= i < keys@.len() ==> #[trigger] r@[i] as int == group_leader(keys@, i),
{
    let mut out: Vec<usize> = Vec::new();
    let mut i: usize = 0;
    while i < keys.len()
        invariant
            i <= keys@.len(),
            out@.len() == i,
            forall|t: int| 0 <= t < i ==> #[trigger] out@[t] as int == group_leader(keys@, t),
        decreases keys.len() - i,
    {
        let mut j: usize = 0;
        while j < i && !same_key(&keys[j], &keys[i])
            invariant
                j <= i < keys@.len(),
                forall|t: int| 0 <= t < j ==> key_view(#[trigger] keys@[t]) != key_view(keys@[i as int]),
            decreases i - j,
        {
            j = j + 1;
        }
        proof {
            lemma_group_leader(keys@, i as int, j as int);
        }
        out.push(j);
        i = i + 1;
    }
    out
}

/// The folder an episode of `show_title`'s season `season` is organised
/// into under `library_root`: the show's folder (its title made safe),
/// then the season's.
pub fn episode_dir(library_root: &str, show_title: &str, season: i32) -> (r: String)
    ensures
        r@ == joined_path(
            season_dir(season as int),
            joined_path(crate::renamer::sanitized(show_title@), library_root@),
        ),
{
    let show = crate::titles::sanitize_name(show_title);
    let show_dir = crate::paths::make_absolute(show.as_str(), library_root);
    let season_name = season_dir_name(season);
    crate::paths::make_absolute(season_name.as_str(), show_dir.as_str())
}

/// Whether the file at `current` already is where it is organised to:
/// the file `file_name` in the folder `dest_dir` (as paths, component by
/// component); such a file is left where it is.
pub fn episode_in_place(current: &str, dest_dir: &str, file_name: &str) -> (r: bool)
    ensures
        r == (path_view(current@) == path_view(joined_path(file_name@, dest_dir@))),
{
    let dest = crate::paths::make_absolute(file_name, dest_dir);
    let a = path_parts_of(&to_chars(current));
    let b = path_parts_of(&to_chars(dest.as_str()));
    path_eq(&a, &b)
}

/// A file is a video exactly when its extension is, in any ASCII case,
/// one of mkv, mp4, avi, mov, wmv, m4v, ts, m2ts, mts, mpg, mpeg, vob,
/// divx, xvid, webm, flv, ogv or iso.
pub proof fn lemma_video_extensions(path: Seq<char>)
    ensures
        is_video_path(path) <==> match extension_of(path) {
            Some(e) => ci_is(e, "mkv"@) || ci_is(e, "mp4"@) || ci_is(e, "avi"@) || ci_is(e, "mov"@) || ci_is(e, "wmv"@) || ci_is(e, "m4v"@) || ci_is(e, "ts"@) || ci_is(e, "m2ts"@) || ci_is(e, "mts"@) || ci_is(e, "mpg"@) || ci_is(e, "mpeg"@) || ci_is(e, "vob"@) || ci_is(e, "divx"@) || ci_is(e, "xvid"@) || ci_is(e, "webm"@) || ci_is(e, "flv"@) || ci_is(e, "ogv"@) || ci_is(e, "iso"@),
            None => false,
        },
{
    if let Some(e) = extension_of(path) {
        if ci_is(e, "mkv"@) { assert(video_extensions()[0] == "mkv"@); assert(ci_is(e, video_extensions()[0])); }
        if ci_is(e, "mp4"@) { assert(video_extensions()[1] == "mp4"@); assert(ci_is(e, video_extensions()[1])); }
        if ci_is(e, "avi"@) { assert(video_extensions()[2] == "avi"@); assert(ci_is(e, video_extensions()[2])); }
        if ci_is(e, "mov"@) { assert(video_extensions()[3] == "mov"@); assert(ci_is(e, video_extensions()[3])); }
        if ci_is(e, "wmv"@) { assert(video_extensions()[4] == "wmv"@); assert(ci_is(e, video_extensions()[4])); }
        if ci_is(e, "m4v"@) { assert(video_extensions()[5] == "m4v"@); assert(ci_is(e, video_extensions()[5])); }
        if ci_is(e, "ts"@) { assert(video_extensions()[6] == "ts"@); assert(ci_is(e, video_extensions()[6])); }
        if ci_is(e, "m2ts"@) { assert(video_extensions()[7] == "m2ts"@); assert(ci_is(e, video_extensions()[7])); }
        if ci_is(e, "mts"@) { assert(video_extensions()[8] == "mts"@); assert(ci_is(e, video_extensions()[8])); }
        if ci_is(e, "mpg"@) { assert(video_extensions()[9] == "mpg"@); assert(ci_is(e, video_extensions()[9])); }
        if ci_is(e, "mpeg"@) { assert(video_extensions()[10] == "mpeg"@); assert(ci_is(e, video_extensions()[10])); }
        if ci_is(e, "vob"@) { assert(video_extensions()[11] == "vob"@); assert(ci_is(e, video_extensions()[11])); }
        if ci_is(e, "divx"@) { assert(video_extensions()[12] == "divx"@); assert(ci_is(e, video_extensions()[12])); }
        if ci_is(e, "xvid"@) { assert(video_extensions()[13] == "xvid"@); assert(ci_is(e, video_extensions()[13])); }
        if ci_is(e, "webm"@) { assert(video_extensions()[14] == "webm"@); assert(ci_is(e, video_extensions()[14])); }
        if ci_is(e, "flv"@) { assert(video_extensions()[15] == "flv"@); assert(ci_is(e, video_extensions()[15])); }
        if ci_is(e, "ogv"@) { assert(video_extensions()[16] == "ogv"@); assert(ci_is(e, video_extensions()[16])); }
        if ci_is(e, "iso"@) { assert(video_extensions()[17] == "iso"@); assert(ci_is(e, video_extensions()[17])); }
        if is_video_path(path) {
            let k = choose|k: int| 0 <= k < video_extensions().len() && #[trigger] ci_is(e, video_extensions()[k]);
            if k == 0 { assert(video_extensions()[0] == "mkv"@);
            } else if k == 1 { assert(video_extensions()[1] == "mp4"@);
            } else if k == 2 { assert(video_extensions()[2] == "avi"@);
            } else if k == 3 { assert(video_extensions()[3] == "mov"@);
            } else if k == 4 { assert(video_extensions()[4] == "wmv"@);
            } else if k == 5 { assert(video_extensions()[5] == "m4v"@);
            } else if k == 6 { assert(video_extensions()[6] == "ts"@);
            } else if k == 7 { assert(video_extensions()[7] == "m2ts"@);
            } else if k == 8 { assert(video_extensions()[8] == "mts"@);
            } else if k == 9 { assert(video_extensions()[9] == "mpg"@);
            } else if k == 10 { assert(video_extensions()[10] == "mpeg"@);
            } else if k == 11 { assert(video_extensions()[11] == "vob"@);
            } else if k == 12 { assert(video_extensions()[12] == "divx"@);
            } else if k == 13 { assert(video_extensions()[13] == "xvid"@);
            } else if k == 14 { assert(video_extensions()[14] == "webm"@);
            } else if k == 15 { assert(video_extensions()[15] == "flv"@);
            } else if k == 16 { assert(video_extensions()[16] == "ogv"@);
            } else if k == 17 { assert(video_extensions()[17] == "iso"@);
            }
        }
    }
}

} // verus!
