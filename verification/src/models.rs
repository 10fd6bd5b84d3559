//! Records of the media library: identifiers, libraries, files, seasons,
//! episodes, streams and task progress.
use vstd::prelude::*;
use crate::text::{ci_at, ci_at_exec, ci_eq};

verus! {

/// Identifier of a library.
#[derive(Clone, Copy, PartialEq, Eq, Structural, PartialOrd, Ord, Hash, Debug)]
pub struct LibraryId(pub i64);

/// Identifier of a movie.
#[derive(Clone, Copy, PartialEq, Eq, Structural, PartialOrd, Ord, Hash, Debug)]
pub struct MovieId(pub i64);

/// Identifier of a TV show.
#[derive(Clone, Copy, PartialEq, Eq, Structural, PartialOrd, Ord, Hash, Debug)]
pub struct TvShowId(pub i64);

/// Identifier of a season.
#[derive(Clone, Copy, PartialEq, Eq, Structural, PartialOrd, Ord, Hash, Debug)]
pub struct SeasonId(pub i64);

/// Identifier of an episode.
#[derive(Clone, Copy, PartialEq, Eq, Structural, PartialOrd, Ord, Hash, Debug)]
pub struct EpisodeId(pub i64);

/// Identifier of a movie file.
#[derive(Clone, Copy, PartialEq, Eq, Structural, PartialOrd, Ord, Hash, Debug)]
pub struct MovieFileId(pub i64);

/// The kind of media a library holds.
#[derive(Clone, Copy, PartialEq, Eq, Structural, Debug)]
pub enum MediaType {
    Movie,
    Tv,
}

/// A media library rooted at a folder.
#[derive(Clone, Debug)]
pub struct Library {
    pub id: LibraryId,
    pub name: String,
    pub path: String,
    pub media_type: MediaType,
    pub created_at: String,
}

/// Whether an item has been matched to online metadata.
#[derive(Clone, Copy, PartialEq, Eq, Structural, Debug)]
pub enum MediaStatus {
    Unmatched,
    Matched,
}

pub open spec fn media_status_text(s: MediaStatus) -> Seq<char> {
    match s {
        MediaStatus::Unmatched => "unmatched"@,
        MediaStatus::Matched => "matched"@,
    }
}

impl MediaStatus {
    /// The lower-case name under which a status is shown and stored.
    pub fn as_str(&self) -> (r: &'static str)
        ensures
            r@ == media_status_text(*self),
    {
        match self {
            MediaStatus::Unmatched => "unmatched",
            MediaStatus::Matched => "matched",
        }
    }
}

impl Default for MediaStatus {
    fn default() -> (r: Self)
        ensures
            r == MediaStatus::Unmatched,
    {
        MediaStatus::Unmatched
    }
}

/// Video resolution classes.
#[derive(Clone, Copy, PartialEq, Eq, Structural, Debug)]
pub enum Resolution {
    R2160p,
    R1080p,
    R720p,
    R576p,
    R480p,
    Imax,
}

pub open spec fn resolution_text(r: Resolution) -> Seq<char> {
    match r {
        Resolution::R2160p => "2160p"@,
        Resolution::R1080p => "1080p"@,
        Resolution::R720p => "720p"@,
        Resolution::R576p => "576p"@,
        Resolution::R480p => "480p"@,
        Resolution::Imax => "imax"@,
    }
}

/// The resolution class of a picture of the given size: the largest class
/// whose width or height the picture reaches.
pub open spec fn resolution_of_dimensions(width: int, height: int) -> Resolution {
    if width >= 3840 || height >= 2160 {
        Resolution::R2160p
    } else if width >= 1920 || height >= 1080 {
        Resolution::R1080p
    } else if width >= 1280 || height >= 720 {
        Resolution::R720p
    } else if width >= 1024 || height >= 576 {
        Resolution::R576p
    } else {
        Resolution::R480p
    }
}

/// The resolution whose name `s` is, regardless of ASCII case.
pub open spec fn resolution_named(s: Seq<char>) -> Option<Resolution> {
    if s.len() == 5 && ci_at(s, 0, "2160p"@) {
        Some(Resolution::R2160p)
    } else if s.len() == 5 && ci_at(s, 0, "1080p"@) {
        Some(Resolution::R1080p)
    } else if s.len() == 4 && ci_at(s, 0, "720p"@) {
        Some(Resolution::R720p)
    } else if s.len() == 4 && ci_at(s, 0, "576p"@) {
        Some(Resolution::R576p)
    } else if s.len() == 4 && ci_at(s, 0, "480p"@) {
        Some(Resolution::R480p)
    } else if s.len() == 4 && ci_at(s, 0, "imax"@) {
        Some(Resolution::Imax)
    } else {
        None
    }
}

/// Reading a resolution's name gives the resolution back, whatever the
/// ASCII case it is written in; and a name reads as a resolution only when
/// it is that resolution's name in some such case.
pub proof fn lemma_resolution_name_round_trip(r: Resolution, s: Seq<char>)
    ensures
        resolution_named(resolution_text(r)) == Some(r),
        (s.len() == resolution_text(r).len() && ci_at(s, 0, resolution_text(r)))
            ==> resolution_named(s) == Some(r),
        resolution_named(s) == Some(r)
            ==> (s.len() == resolution_text(r).len() && ci_at(s, 0, resolution_text(r))),
{
    reveal_strlit("2160p");
    reveal_strlit("1080p");
    reveal_strlit("720p");
    reveal_strlit("576p");
    reveal_strlit("480p");
    reveal_strlit("imax");
    let t = resolution_text(r);
    assert(ci_at(t, 0, t)) by {
        assert forall|i: int| 0 <= i < t.len() implies ci_eq(#[trigger] t[0 + i], t[i]) by {}
    }
    if s.len() == t.len() && ci_at(s, 0, t) {
        assert(ci_eq(s[0int + 0int], t[0]));
        assert(ci_eq(s[0int + 1int], t[1]));
    }
}

impl Resolution {
    /// The name of the resolution (`1080p`, `imax`, ...).
    pub fn as_str(&self) -> (r: &'static str)
        ensures
            r@ == resolution_text(*self),
    {
        match self {
            Resolution::R2160p => "2160p",
            Resolution::R1080p => "1080p",
            Resolution::R720p => "720p",
            Resolution::R576p => "576p",
            Resolution::R480p => "480p",
            Resolution::Imax => "imax",
        }
    }

    /// The resolution class of a picture of `width` x `height`.
    pub fn from_dimensions(width: i32, height: i32) -> (r: Self)
        ensures
            r == resolution_of_dimensions(width as int, height as int),
    {
        if width >= 3840 || height >= 2160 {
            Resolution::R2160p
        } else if width >= 1920 || height >= 1080 {
            Resolution::R1080p
        } else if width >= 1280 || height >= 720 {
            Resolution::R720p
        } else if width >= 1024 || height >= 576 {
            Resolution::R576p
        } else {
            Resolution::R480p
        }
    }

    /// Reads a resolution name, regardless of ASCII case.
    pub fn parse_name(s: &str) -> (r: Option<Resolution>)
        ensures
            r == resolution_named(s@),
    {
        let v = crate::text::to_chars(s);
        let n = v.len();
        proof {
            reveal_strlit("2160p");
            reveal_strlit("1080p");
            reveal_strlit("720p");
            reveal_strlit("576p");
            reveal_strlit("480p");
            reveal_strlit("imax");
        }
        if n == 5 && ci_at_exec(&v, 0, "2160p") {
            Some(Resolution::R2160p)
        } else if n == 5 && ci_at_exec(&v, 0, "1080p") {
            Some(Resolution::R1080p)
        } else if n == 4 && ci_at_exec(&v, 0, "720p") {
            Some(Resolution::R720p)
        } else if n == 4 && ci_at_exec(&v, 0, "576p") {
            Some(Resolution::R576p)
        } else if n == 4 && ci_at_exec(&v, 0, "480p") {
            Some(Resolution::R480p)
        } else if n == 4 && ci_at_exec(&v, 0, "imax") {
            Some(Resolution::Imax)
        } else {
            None
        }
    }
}

/// One stream (video, audio, subtitle) of a media file.
#[derive(Clone, Debug)]
pub struct MediaStream {
    pub id: i64,
    pub file_hash: String,
    pub stream_index: i32,
    pub stream_type: String,
    pub codec: Option<String>,
    pub language: Option<String>,
    pub title: Option<String>,
    pub channels: Option<i32>,
    pub is_default: bool,
}

/// A file generated for a media file (thumbnail, preview, sprite).
#[derive(Clone, Debug)]
pub struct GeneratedAsset {
    pub id: i64,
    pub file_hash: String,
    pub asset_type: String,
    pub path: String,
}

/// A member of a cast.
#[derive(Clone, Debug)]
pub struct CastMember {
    pub name: String,
    pub role: Option<String>,
    pub image: Option<String>,
}

/// A video file of a movie.
#[derive(Clone, Debug)]
pub struct MovieFile {
    pub id: MovieFileId,
    pub movie_id: MovieId,
    pub file_path: String,
    pub original_name: String,
    pub size_bytes: i64,
    pub resolution: Option<Resolution>,
    pub codec: Option<String>,
    pub audio_codec: Option<String>,
    pub hash: Option<String>,
    pub fingerprint: Option<String>,
    pub is_missing: bool,
    pub last_scanned: Option<String>,
    pub preview_path: Option<String>,
    pub aspect_ratio: Option<String>,
    pub duration_secs: Option<i32>,
    pub thumbnail_path: Option<String>,
    pub mtime: Option<i64>,
    pub created_at: String,
    pub updated_at: String,
}

/// A season of a show.
#[derive(Clone, Debug)]
pub struct Season {
    pub id: i64,
    pub show_id: i64,
    pub season_number: i32,
}

/// An episode file of a season.
#[derive(Clone, Debug)]
pub struct Episode {
    pub id: i64,
    pub season_id: i64,
    pub episode_number: i32,
    pub title: Option<String>,
    pub file_path: String,
    pub original_name: String,
    pub size_bytes: i64,
    pub resolution: Option<Resolution>,
    pub codec: Option<String>,
    pub aspect_ratio: Option<String>,
    pub thumbnail_path: Option<String>,
}

/// A background task as stored.
#[derive(Clone, Debug)]
pub struct Task {
    pub id: String,
    pub task_type: String,
    pub status: String,
    pub progress: i32,
    pub total: i32,
    pub message: Option<String>,
    pub created_at: String,
    pub updated_at: String,
}

/// A progress report of a running task.
#[derive(Clone, Debug)]
pub struct TaskUpdate {
    pub task_id: String,
    pub status: String,
    pub progress: i32,
    pub total: i32,
    pub message: String,
    /// Unix time in milliseconds at which the report was made.
    pub started_at: Option<u64>,
    pub debug_info: Option<String>,
}

/// Reads the system clock: milliseconds since the Unix epoch through
/// `SystemTime::now` and `duration_since`, 0 when the clock is set before
/// the epoch.  Nothing is stated of the value.
#[verifier::external_body]
fn now_ms() -> u64 {
    match std::time::SystemTime::now().duration_since(std::time::UNIX_EPOCH) {
        Ok(d) => d.as_millis() as u64,
        Err(_) => 0,
    }
}

impl TaskUpdate {
    /// A report made at `started_at_ms`, Unix time in milliseconds.
    pub fn with_start(task_id: String, status: String, progress: i32, total: i32, message: String, started_at_ms: u64) -> (r: Self)
        ensures
            r.task_id == task_id,
            r.status == status,
            r.progress == progress,
            r.total == total,
            r.message == message,
            r.started_at == Some(started_at_ms),
            r.debug_info is None,
    {
        TaskUpdate {
            task_id,
            status,
            progress,
            total,
            message,
            started_at: Some(started_at_ms),
            debug_info: None,
        }
    }

    /// A report stamped with the current time (see `with_start`).
    pub fn new(task_id: String, status: String, progress: i32, total: i32, message: String) -> (r:
        Self)
        ensures
            r.task_id == task_id,
            r.status == status,
            r.progress == progress,
            r.total == total,
            r.message == message,
            r.started_at is Some,
            r.debug_info is None,
    {
        Self::with_start(task_id, status, progress, total, message, now_ms())
    }
}

/// A movie of a library.  `rating` holds the rating as decimal text
/// (`"7.5"`), the form in which it is read from and written to metadata.
#[derive(Clone, Debug)]
pub struct Movie {
    pub id: MovieId,
    pub library_id: LibraryId,
    pub title: String,
    pub year: Option<i32>,
    pub tmdb_id: Option<i32>,
    pub imdb_id: Option<String>,
    pub status: MediaStatus,
    pub plot: Option<String>,
    pub rating: Option<String>,
    pub poster_url: Option<String>,
    pub backdrop_url: Option<String>,
    pub tagline: Option<String>,
    pub runtime: Option<i32>,
    /// Genres as a JSON array of strings.
    pub genres: Option<String>,
    pub language: Option<String>,
    /// Cast as a JSON array of cast members.
    pub cast_list: Option<String>,
    pub preview_path: Option<String>,
    pub nfo_path: Option<String>,
    pub codec: Option<String>,
    pub video_codec: Option<String>,
    pub audio_codec: Option<String>,
    pub hash: Option<String>,
    pub created_at: String,
    pub updated_at: String,
}

/// A TV show of a library; `rating` as for `Movie`.
#[derive(Clone, Debug)]
pub struct TVShow {
    pub id: i64,
    pub library_id: i64,
    pub title: String,
    pub tmdb_id: Option<i32>,
    pub imdb_id: Option<String>,
    pub status: MediaStatus,
    pub plot: Option<String>,
    pub rating: Option<String>,
    pub poster_url: Option<String>,
    pub backdrop_url: Option<String>,
    pub tagline: Option<String>,
    pub runtime: Option<i32>,
    pub genres: Option<String>,
    pub language: Option<String>,
    pub cast_list: Option<String>,
    pub trailer_url: Option<String>,
    pub nfo_path: Option<String>,
    pub created_at: String,
    pub updated_at: String,
}

} // verus!
