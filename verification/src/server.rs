//! What the HTTP server reads from requests: query and body shapes, stream
//! ids, segment file names, content types and browsers.
use vstd::prelude::*;
use crate::text::{has_sub, has_sub_exec, is_digit, is_digit_exec, occurs_at, str_eq, to_chars, from_chars, slice_of, push_str, push_decimal, decimal, first_from, lemma_first_from_is};
use crate::models::MediaType;
use crate::parser::{num_value, extension_of, extension_exec};
use crate::mediainfo::MediaDetails;
use crate::streaming::{direct_playable, is_direct_playable};
use crate::mediainfo::{parsed_i64, parse_i64, opt_i64};
use crate::shows::{lowercase, lowercase_string};

verus! {

/// Query of a local artwork file.
pub struct ArtworkQuery {
    pub path: String,
}

/// Body of a request that creates a library.
pub struct CreateLibraryRequest {
    pub name: String,
    pub path: String,
    pub media_type: MediaType,
}

/// Query of the movie list.
pub struct MovieQuery {
    pub library_id: Option<i64>,
    pub genre: Option<String>,
    pub language: Option<String>,
}

/// Body of a request on several items at once.
pub struct BatchRequest {
    pub ids: Vec<i64>,
    pub media_type: String,
}

/// A player's report of its position.
pub struct PlaybackHeartbeat {
    pub media_id: i64,
    pub media_type: String,
    pub position_ms: i32,
    pub duration_ms: Option<i32>,
    pub is_finished: bool,
}

/// Query of a stream start: the protocol wanted (`hls` or `dash`).
pub struct StreamQuery {
    pub protocol: Option<String>,
}

/// What a stream id names.
#[derive(Clone, Copy, PartialEq, Eq, Structural, Debug)]
pub enum StreamKind {
    MovieFile,
    Movie,
    Episode,
    Unknown,
}

pub open spec fn starts_with(s: Seq<char>, p: Seq<char>) -> bool {
    p.len() <= s.len() && s.subrange(0, p.len() as int) == p
}

pub open spec fn ends_with(s: Seq<char>, p: Seq<char>) -> bool {
    p.len() <= s.len() && s.subrange(s.len() - p.len(), s.len() as int) == p
}

fn starts_with_exec(s: &Vec<char>, p: &str) -> (r: bool)
    ensures
        r == starts_with(s@, p@),
{
    let pv = to_chars(p);
    crate::text::occurs_at_exec(s, 0, &pv)
}

fn ends_with_exec(s: &Vec<char>, p: &str) -> (r: bool)
    ensures
        r == ends_with(s@, p@),
{
    let pv = to_chars(p);
    if pv.len() > s.len() {
        return false;
    }
    crate::text::occurs_at_exec(s, s.len() - pv.len(), &pv)
}

/// The number after a stream id's prefix, 0 when it does not read.
pub open spec fn id_number(rest: Seq<char>) -> int {
    match parsed_i64(rest) {
        Some(v) => v,
        None => 0,
    }
}

/// What a stream id (`movie_file_7`, `movie_3`, `episode_12`) names, and
/// the number in it.
pub open spec fn stream_id_parts(id: Seq<char>) -> (StreamKind, int) {
    if starts_with(id, "movie_file_"@) {
        (StreamKind::MovieFile, id_number(id.subrange(11, id.len() as int)))
    } else if starts_with(id, "movie_"@) {
        (StreamKind::Movie, id_number(id.subrange(6, id.len() as int)))
    } else if starts_with(id, "episode_"@) {
        (StreamKind::Episode, id_number(id.subrange(8, id.len() as int)))
    } else {
        (StreamKind::Unknown, 0)
    }
}

fn id_number_exec(v: &Vec<char>, a: usize) -> (r: i64)
    requires
        a <= v.len(),
    ensures
        r as int == id_number(v@.subrange(a as int, v.len() as int)),
{
    let rest = slice_of(v, a, v.len());
    match parse_i64(&rest) {
        Some(x) => x,
        None => 0,
    }
}

/// What a stream id names, and its number.
pub fn parse_stream_id(id: &str) -> (r: (StreamKind, i64))
    ensures
        (r.0, r.1 as int) == stream_id_parts(id@),
{
    let v = to_chars(id);
    proof {
        reveal_strlit("movie_file_");
        reveal_strlit("movie_");
        reveal_strlit("episode_");
    }
    if starts_with_exec(&v, "movie_file_") {
        (StreamKind::MovieFile, id_number_exec(&v, 11))
    } else if starts_with_exec(&v, "movie_") {
        (StreamKind::Movie, id_number_exec(&v, 6))
    } else if starts_with_exec(&v, "episode_") {
        (StreamKind::Episode, id_number_exec(&v, 8))
    } else {
        (StreamKind::Unknown, 0)
    }
}

/// The id of the stream of a movie or (for any other type) an episode.
pub fn stream_id_for(media_type: &str, media_id: i64) -> (r: String)
    ensures
        r@ == (if media_type@ == "movie"@ {
            "movie_"@
        } else {
            "episode_"@
        }) + decimal(media_id as int),
{
    let mut v: Vec<char> = Vec::new();
    if str_eq(media_type, "movie") {
        push_str(&mut v, "movie_");
    } else {
        push_str(&mut v, "episode_");
    }
    push_decimal(&mut v, media_id);
    from_chars(&v)
}

/// The `usize` that `s` writes, as `str::parse::<usize>` reads it: an
/// optional `+` and one or more ASCII digits, within range.
pub open spec fn parsed_usize(s: Seq<char>) -> Option<int> {
    let a: int = if s.len() > 0 && s[0] == '+' {
        1
    } else {
        0
    };
    if a >= s.len() || !crate::scan::all_digits_from(s, a) {
        None
    } else if num_value(s.subrange(a, s.len() as int)) <= usize::MAX {
        Some(num_value(s.subrange(a, s.len() as int)))
    } else {
        None
    }
}

pub fn parse_usize(s: &Vec<char>) -> (r: Option<usize>)
    ensures
        match r {
            Some(v) => parsed_usize(s@) == Some(v as int),
            None => parsed_usize(s@) is None,
        },
{
    let n = s.len();
    let a: usize = if n > 0 && s[0] == '+' {
        1
    } else {
        0
    };
    if a >= n {
        return None;
    }
    let mut i = a;
    while i < n
        invariant
            a <= i <= n == s@.len(),
            a as int == (if s@.len() > 0 && s@[0] == '+' {
                1int
            } else {
                0int
            }),
            forall|j: int| a <= j < i ==> is_digit(#[trigger] s@[j]),
        decreases n - i,
    {
        if !is_digit_exec(s[i]) {
            assert(!is_digit(s@[i as int]));
            assert(!crate::scan::all_digits_from(s@, a as int));
            return None;
        }
        i = i + 1;
    }
    assert(crate::scan::all_digits_from(s@, a as int));
    let mut v: u128 = 0;
    i = a;
    while i < n
        invariant
            a <= i <= n == s@.len(),
            a as int == (if s@.len() > 0 && s@[0] == '+' {
                1int
            } else {
                0int
            }),
            crate::scan::all_digits_from(s@, a as int),
            v as int == num_value(s@.subrange(a as int, i as int)),
            v <= usize::MAX,
        decreases n - i,
    {
        assert(s@.subrange(a as int, i + 1).drop_last() =~= s@.subrange(a as int, i as int));
        assert(is_digit(s@[i as int]));
        let d = (s[i] as u32 - 48) as u128;
        let w = v * 10 + d;
        assert(w as int == num_value(s@.subrange(a as int, i + 1)));
        if w > usize::MAX as u128 {
            proof {
                let full = s@.subrange(a as int, n as int);
                assert(full.subrange(0, i + 1 - a) =~= s@.subrange(a as int, i + 1));
                assert forall|j: int| 0 <= j < full.len() implies is_digit(#[trigger] full[j]) by {
                    assert(full[j] == s@[a + j]);
                }
                crate::parser::lemma_num_value_prefix(full, i + 1 - a);
            }
            return None;
        }
        v = w;
        i = i + 1;
    }
    assert(s@.subrange(a as int, n as int) == s@.subrange(a as int, i as int));
    Some(v as usize)
}

pub open spec fn dash_pred(s: Seq<char>) -> spec_fn(int) -> bool {
    |j: int| s[j] == '-'
}

/// The third of the pieces that `-` splits `s` into, if there is one.
pub open spec fn third_piece(s: Seq<char>) -> Option<Seq<char>> {
    let d1 = first_from(dash_pred(s), 0, s.len() as int);
    let d2 = first_from(dash_pred(s), d1 + 1, s.len() as int);
    let d3 = first_from(dash_pred(s), d2 + 1, s.len() as int);
    if d2 >= s.len() {
        None
    } else {
        Some(s.subrange(d2 + 1, d3))
    }
}

/// The segment a requested stream file is: `seg_N.ts` is segment N; the
/// DASH chunk `chunk-streamR-N.webm` is segment N - 1 (0 for chunk 0); 0
/// when the number does not read; none for other files.
pub open spec fn segment_index(file: Seq<char>) -> Option<int> {
    if ends_with(file, ".ts"@) {
        Some(
            if starts_with(file, "seg_"@) && file.len() >= 7 {
                match parsed_usize(file.subrange(4, file.len() - 3)) {
                    Some(v) => v,
                    None => 0,
                }
            } else {
                0
            },
        )
    } else if ends_with(file, ".webm"@) {
        Some(
            match third_piece(file) {
                Some(p) => if ends_with(p, ".webm"@) {
                    match parsed_usize(p.subrange(0, p.len() - 5)) {
                        Some(v) => if v > 0 {
                            v - 1
                        } else {
                            0
                        },
                        None => 0,
                    }
                } else {
                    0
                },
                None => 0,
            },
        )
    } else {
        None
    }
}

fn find_dash(s: &Vec<char>, from: usize) -> (r: usize)
    requires
        from <= s.len(),
    ensures
        r as int == first_from(dash_pred(s@), from as int, s.len() as int),
        from <= r <= s.len(),
{
    let mut j = from;
    while j < s.len() && s[j] != '-'
        invariant
            from <= j <= s.len(),
            forall|k: int| from <= k < j ==> s@[k] != '-',
        decreases s.len() - j,
    {
        j = j + 1;
    }
    proof {
        let p = dash_pred(s@);
        assert forall|k: int| from <= k < j implies !#[trigger] p(k) by {}
        lemma_first_from_is(p, from as int, s.len() as int, j as int);
    }
    j
}

/// The segment that a requested stream file holds, if it is a segment.
pub fn segment_index_of(file: &str) -> (r: Option<usize>)
    ensures
        match r {
            Some(v) => segment_index(file@) == Some(v as int),
            None => segment_index(file@) is None,
        },
{
    let f = to_chars(file);
    let n = f.len();
    proof {
        reveal_strlit(".ts");
        reveal_strlit("seg_");
        reveal_strlit(".webm");
    }
    if ends_with_exec(&f, ".ts") {
        if starts_with_exec(&f, "seg_") && n >= 7 {
            let mid = slice_of(&f, 4, n - 3);
            return Some(
                match parse_usize(&mid) {
                    Some(v) => v,
                    None => 0,
                },
            );
        }
        return Some(0);
    }
    if !ends_with_exec(&f, ".webm") {
        return None;
    }
    let d1 = find_dash(&f, 0);
    if d1 >= n {
        return Some(0);
    }
    let d2 = find_dash(&f, d1 + 1);
    if d2 >= n {
        return Some(0);
    }
    let d3 = find_dash(&f, d2 + 1);
    let piece = slice_of(&f, d2 + 1, d3);
    if !ends_with_exec(&piece, ".webm") {
        return Some(0);
    }
    let num = slice_of(&piece, 0, piece.len() - 5);
    match parse_usize(&num) {
        Some(v) => Some(if v > 0 {
            v - 1
        } else {
            0
        }),
        None => Some(0),
    }
}

/// The content type a stream file is served with, by its name.
pub open spec fn mime_of(file: Seq<char>) -> Seq<char> {
    if ends_with(file, ".m3u8"@) {
        "application/vnd.apple.mpegurl"@
    } else if ends_with(file, ".ts"@) {
        "video/mp2t"@
    } else if ends_with(file, ".webm"@) {
        "video/webm"@
    } else if ends_with(file, ".mpd"@) {
        "application/dash+xml"@
    } else {
        "application/octet-stream"@
    }
}

/// The content type a stream file is served with.
pub fn stream_mime_type(file: &str) -> (r: &'static str)
    ensures
        r@ == mime_of(file@),
{
    let f = to_chars(file);
    if ends_with_exec(&f, ".m3u8") {
        "application/vnd.apple.mpegurl"
    } else if ends_with_exec(&f, ".ts") {
        "video/mp2t"
    } else if ends_with_exec(&f, ".webm") {
        "video/webm"
    } else if ends_with_exec(&f, ".mpd") {
        "application/dash+xml"
    } else {
        "application/octet-stream"
    }
}

/// A user agent in lower case is Safari's: it names Safari and none of
/// Chrome, Chromium or Chrome for iOS.
pub open spec fn safari_lower(l: Seq<char>) -> bool {
    has_sub(l, "safari"@) && !has_sub(l, "chrome"@) && !has_sub(l, "chromium"@) && !has_sub(
        l,
        "crios"@,
    )
}

/// The user agent is Safari, compared in lower case.
pub open spec fn safari_agent(ua: Option<Seq<char>>) -> bool {
    match ua {
        Some(u) => safari_lower(lowercase(u)),
        None => false,
    }
}

/// Whether a user agent already in lower case is Safari's.
pub fn is_safari_lower(lower: &str) -> (r: bool)
    ensures
        r == safari_lower(lower@),
{
    let l = to_chars(lower);
    has_sub_exec(&l, &to_chars("safari")) && !has_sub_exec(&l, &to_chars("chrome"))
        && !has_sub_exec(&l, &to_chars("chromium")) && !has_sub_exec(&l, &to_chars("crios"))
}

/// Whether the browser with user agent `user_agent` is Safari.
pub fn is_safari(user_agent: Option<&str>) -> (r: bool)
    ensures
        r == safari_agent(match user_agent {
            Some(u) => Some(u@),
            None => None,
        }),
{
    match user_agent {
        Some(u) => is_safari_lower(lowercase_string(u).as_str()),
        None => false,
    }
}

/// A stored duration is trusted when it is positive.
pub open spec fn duration_known(stored: Option<i32>) -> bool {
    match stored {
        Some(d) => d > 0,
        None => false,
    }
}

/// Whether a manifest needs the duration probed from the file first.
pub fn needs_duration_probe(stored: Option<i32>) -> (r: bool)
    ensures
        r == !duration_known(stored),
{
    match stored {
        Some(d) => d <= 0,
        None => true,
    }
}

/// The duration a playlist is written for: the stored one when positive,
/// else the probed one when positive, else the stored one as it is.
pub open spec fn playlist_duration(stored: Option<i32>, probed: Option<i32>) -> Option<i32> {
    if duration_known(stored) {
        stored
    } else {
        match probed {
            Some(p) => if p > 0 {
                Some(p)
            } else {
                stored
            },
            None => stored,
        }
    }
}

/// The duration for a playlist from the stored and the probed durations.
pub fn duration_for_playlist(stored: Option<i32>, probed: Option<i32>) -> (r: Option<i32>)
    ensures
        r == playlist_duration(stored, probed),
{
    if !needs_duration_probe(stored) {
        return stored;
    }
    match probed {
        Some(p) => if p > 0 {
            Some(p)
        } else {
            stored
        },
        None => stored,
    }
}


/// The content type of a local artwork file, by its (normalised) path.
pub open spec fn artwork_mime(path: Seq<char>) -> Seq<char> {
    if ends_with(path, ".png"@) {
        "image/png"@
    } else if ends_with(path, ".mp4"@) {
        "video/mp4"@
    } else if ends_with(path, ".webm"@) {
        "video/webm"@
    } else if ends_with(path, ".webp"@) {
        "image/webp"@
    } else if ends_with(path, ".svg"@) {
        "image/svg+xml"@
    } else {
        "image/jpeg"@
    }
}

/// The content type a local artwork file is served with.
pub fn artwork_mime_type(normalized_path: &str) -> (r: &'static str)
    ensures
        r@ == artwork_mime(normalized_path@),
{
    let f = to_chars(normalized_path);
    if ends_with_exec(&f, ".png") {
        "image/png"
    } else if ends_with_exec(&f, ".mp4") {
        "video/mp4"
    } else if ends_with_exec(&f, ".webm") {
        "video/webm"
    } else if ends_with_exec(&f, ".webp") {
        "image/webp"
    } else if ends_with_exec(&f, ".svg") {
        "image/svg+xml"
    } else {
        "image/jpeg"
    }
}


/// How a stream request is answered.
pub enum StreamRoute {
    /// The file is served as it is, at this URL.
    Direct(String),
    /// The file is remuxed on the fly, its audio transcoded, at this URL.
    Remux(String),
    /// The file is remuxed or transcoded into a piped HLS stream at this URL.
    PipedHls(String),
    /// An HLS (or, when `dash`, a DASH) session is started; once it runs
    /// the answer is this URL.
    Session { dash: bool, url: String },
    /// The protocol is not one served.
    NotFound,
}

pub enum RouteView {
    Direct(Seq<char>),
    Remux(Seq<char>),
    PipedHls(Seq<char>),
    Session(bool, Seq<char>),
    NotFound,
}

impl View for StreamRoute {
    type V = RouteView;

    open spec fn view(&self) -> RouteView {
        match self {
            StreamRoute::Direct(u) => RouteView::Direct(u@),
            StreamRoute::Remux(u) => RouteView::Remux(u@),
            StreamRoute::PipedHls(u) => RouteView::PipedHls(u@),
            StreamRoute::Session { dash, url } => RouteView::Session(*dash, url@),
            StreamRoute::NotFound => RouteView::NotFound,
        }
    }
}

/// The extension a direct URL names: the file's, `mp4` when it has none.
pub open spec fn url_ext(path: Seq<char>) -> Seq<char> {
    match extension_of(path) {
        Some(e) => e,
        None => "mp4"@,
    }
}

/// Video codecs (lower case) a browser decodes.
pub open spec fn browser_video(lower_codec: Seq<char>) -> bool {
    lower_codec == "h264"@ || lower_codec == "vp9"@ || lower_codec == "av1"@ || lower_codec == "hevc"@
}

/// The container of a remuxed stream, given the file's extension in lower
/// case: Matroska for Matroska and WebM files, MP4 for the others.
pub open spec fn remux_ext(lower_ext: Seq<char>) -> Seq<char> {
    if lower_ext == "mkv"@ || lower_ext == "webm"@ {
        "mkv"@
    } else {
        "mp4"@
    }
}

/// How a request for a stream of `kind` (`movie`, `movie_file` or
/// `episode`) number `id`, whose file is at `path`, is answered for
/// `protocol` (`direct` when none is asked), given whether the file plays
/// as it is, its video codec in lower case (none when it could not be
/// probed), and its extension in lower case.
pub open spec fn stream_route_given(
    protocol: Option<Seq<char>>,
    kind: Seq<char>,
    id: i64,
    path: Seq<char>,
    playable: bool,
    lower_video: Option<Seq<char>>,
    lower_ext: Seq<char>,
) -> RouteView {
    let p = match protocol {
        Some(x) => x,
        None => "direct"@,
    };
    let sid = kind + "_"@ + decimal(id as int);
    if p == "direct"@ || p == "jit"@ {
        let video_ok = match lower_video {
            Some(v) => browser_video(v),
            None => false,
        };
        if playable {
            RouteView::Direct(
                "/api/stream/direct/"@ + kind + "/"@ + decimal(id as int) + "?ext="@ + url_ext(path),
            )
        } else if video_ok {
            RouteView::Remux("/api/stream/direct/"@ + sid + "/stream."@ + remux_ext(lower_ext))
        } else {
            RouteView::PipedHls("/api/stream/direct/"@ + sid + "/playlist.m3u8"@)
        }
    } else if p == "hls"@ {
        RouteView::Session(false, "/api/stream/hls/"@ + sid + "/playlist.m3u8"@)
    } else if p == "dash"@ {
        RouteView::Session(true, "/api/stream/dash/"@ + sid + "/manifest.mpd"@)
    } else {
        RouteView::NotFound
    }
}

/// How a stream request is answered for a file probed as `details` (none
/// when the probe failed): a file plays as it is when `direct_playable`
/// says so, and codec and extension are compared in lower case.
pub open spec fn stream_route(
    protocol: Option<Seq<char>>,
    kind: Seq<char>,
    id: i64,
    path: Seq<char>,
    details: Option<MediaDetails>,
) -> RouteView {
    stream_route_given(
        protocol,
        kind,
        id,
        path,
        match details {
            Some(d) => direct_playable(path, d),
            None => false,
        },
        match details {
            Some(d) => Some(lowercase(d.video_codec@)),
            None => None,
        },
        lowercase(url_ext(path)),
    )
}

/// How a stream request is answered, given what the probe and the case
/// mapping gave (see `stream_route_given`).
pub fn plan_stream_given(
    protocol: Option<&str>,
    kind: &str,
    id: i64,
    path: &str,
    playable: bool,
    lower_video: Option<&str>,
    lower_ext: &str,
) -> (r: StreamRoute)
    ensures
        r@ == stream_route_given(
            match protocol {
                Some(x) => Some(x@),
                None => None,
            },
            kind@,
            id,
            path@,
            playable,
            match lower_video {
                Some(v) => Some(v@),
                None => None,
            },
            lower_ext@,
        ),
{
    let p = match protocol {
        Some(x) => x,
        None => "direct",
    };
    let idt = crate::text::decimal_string(id);
    let mut sidv = to_chars(kind);
    push_str(&mut sidv, "_");
    push_str(&mut sidv, idt.as_str());
    let sid = from_chars(&sidv);
    if str_eq(p, "direct") || str_eq(p, "jit") {
        let video_ok = match lower_video {
            Some(l) => str_eq(l, "h264") || str_eq(l, "vp9") || str_eq(l, "av1") || str_eq(l, "hevc"),
            None => false,
        };
        if playable {
            let ext = match extension_exec(&to_chars(path)) {
                Some(e) => from_chars(&e),
                None => from_chars(&to_chars("mp4")),
            };
            let mut v = to_chars("/api/stream/direct/");
            push_str(&mut v, kind);
            push_str(&mut v, "/");
            push_str(&mut v, idt.as_str());
            push_str(&mut v, "?ext=");
            push_str(&mut v, ext.as_str());
            StreamRoute::Direct(from_chars(&v))
        } else if video_ok {
            let se = if str_eq(lower_ext, "mkv") || str_eq(lower_ext, "webm") {
                "mkv"
            } else {
                "mp4"
            };
            let mut v = to_chars("/api/stream/direct/");
            push_str(&mut v, sid.as_str());
            push_str(&mut v, "/stream.");
            push_str(&mut v, se);
            StreamRoute::Remux(from_chars(&v))
        } else {
            let mut v = to_chars("/api/stream/direct/");
            push_str(&mut v, sid.as_str());
            push_str(&mut v, "/playlist.m3u8");
            StreamRoute::PipedHls(from_chars(&v))
        }
    } else if str_eq(p, "hls") {
        let mut v = to_chars("/api/stream/hls/");
        push_str(&mut v, sid.as_str());
        push_str(&mut v, "/playlist.m3u8");
        StreamRoute::Session { dash: false, url: from_chars(&v) }
    } else if str_eq(p, "dash") {
        let mut v = to_chars("/api/stream/dash/");
        push_str(&mut v, sid.as_str());
        push_str(&mut v, "/manifest.mpd");
        StreamRoute::Session { dash: true, url: from_chars(&v) }
    } else {
        StreamRoute::NotFound
    }
}

/// How a stream request is answered (see `stream_route`).
pub fn plan_stream(
    protocol: Option<&str>,
    kind: &str,
    id: i64,
    path: &str,
    details: Option<&MediaDetails>,
) -> (r: StreamRoute)
    ensures
        r@ == stream_route(
            match protocol {
                Some(x) => Some(x@),
                None => None,
            },
            kind@,
            id,
            path@,
            match details {
                Some(d) => Some(*d),
                None => None,
            },
        ),
{
    let playable = match details {
        Some(d) => is_direct_playable(path, d),
        None => false,
    };
    let lower_video = match details {
        Some(d) => Some(lowercase_string(d.video_codec.as_str())),
        None => None,
    };
    let ext = match extension_exec(&to_chars(path)) {
        Some(e) => from_chars(&e),
        None => from_chars(&to_chars("mp4")),
    };
    let lower_ext = lowercase_string(ext.as_str());
    let lv = match &lower_video {
        Some(l) => Some(l.as_str()),
        None => None,
    };
    plan_stream_given(protocol, kind, id, path, playable, lv, lower_ext.as_str())
}

} // verus!
