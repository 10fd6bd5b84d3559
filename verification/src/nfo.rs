//! NFO metadata files: the ids read from them, which of them and which
//! artwork a video takes, and the documents written for movies, shows and
//! episodes.
use vstd::prelude::*;
use crate::text::{occurs_at, occurs_at_exec, digit_run, digit_run_exec, lemma_digit_run, first_from, lemma_first_from, lemma_first_from_is, trim, trim_chars, to_chars, from_chars, slice_of, strs, str_eq, has_sub, has_sub_exec, push_str};
use crate::models::{Movie, TVShow, Episode, CastMember};
use crate::parser::{extension_of, extension_exec};

verus! {

// ---------------------------------------------------------------------------
// Ids in the text of an NFO file.
// ---------------------------------------------------------------------------

/// Where a `<tmdbid>digits</tmdbid>` element at `q` ends, or -1.
pub open spec fn tmdb_tag_end(s: Seq<char>, q: int) -> int {
    let d = digit_run(s, q + 8) as int;
    if occurs_at(s, q, "<tmdbid>"@) && d >= 1 && occurs_at(s, q + 8 + d, "</tmdbid>"@) {
        q + 8 + d + 9
    } else {
        -1
    }
}

/// Where an `<imdbid>tt digits</imdbid>` element at `q` ends, or -1.
pub open spec fn imdb_tag_end(s: Seq<char>, q: int) -> int {
    let d = digit_run(s, q + 10) as int;
    if occurs_at(s, q, "<imdbid>tt"@) && d >= 1 && occurs_at(s, q + 10 + d, "</imdbid>"@) {
        q + 10 + d + 9
    } else {
        -1
    }
}

pub open spec fn tmdb_pred(s: Seq<char>) -> spec_fn(int) -> bool {
    |q: int| tmdb_tag_end(s, q) >= 0
}

pub open spec fn imdb_pred(s: Seq<char>) -> spec_fn(int) -> bool {
    |q: int| imdb_tag_end(s, q) >= 0
}

/// The digits of the first `<tmdbid>` element.
pub open spec fn tmdb_tag(s: Seq<char>) -> Option<Seq<char>> {
    let q = first_from(tmdb_pred(s), 0, s.len() as int);
    if q < s.len() {
        Some(s.subrange(q + 8, tmdb_tag_end(s, q) - 9))
    } else {
        None
    }
}

/// The id (`tt` and digits) of the first `<imdbid>` element.
pub open spec fn imdb_tag(s: Seq<char>) -> Option<Seq<char>> {
    let q = first_from(imdb_pred(s), 0, s.len() as int);
    if q < s.len() {
        Some(s.subrange(q + 8, imdb_tag_end(s, q) - 9))
    } else {
        None
    }
}

/// Length of the run of characters other than `stop` from `i` on.
pub open spec fn run_without(s: Seq<char>, i: int, stop: char) -> nat
    decreases s.len() - i,
{
    if 0 <= i < s.len() && s[i] != stop {
        1 + run_without(s, i + 1, stop)
    } else {
        0
    }
}

pub open spec fn uid_type_start(q: int) -> int {
    q + 16
}

/// Where the `>` that ends the opening tag of a `<uniqueid>` at `q` is.
pub open spec fn uid_close_of_open(s: Seq<char>, q: int) -> int {
    let te = uid_type_start(q) + run_without(s, uid_type_start(q), '"') as int;
    te + 1 + run_without(s, te + 1, '>') as int
}

/// Where the value of the `<uniqueid>` at `q` ends.
pub open spec fn uid_value_end(s: Seq<char>, q: int) -> int {
    let v0 = uid_close_of_open(s, q) + 1;
    v0 + run_without(s, v0, '<') as int
}

/// Where a `<uniqueid type="...">value</uniqueid>` element at `q` ends,
/// or -1.
pub open spec fn uid_end(s: Seq<char>, q: int) -> int {
    let t0 = uid_type_start(q);
    let tl = run_without(s, t0, '"') as int;
    let gt = uid_close_of_open(s, q);
    let v0 = gt + 1;
    let vl = run_without(s, v0, '<') as int;
    if occurs_at(s, q, "<uniqueid type=\""@) && tl >= 1 && t0 + tl < s.len() && gt < s.len() && vl
        >= 1 && occurs_at(s, v0 + vl, "</uniqueid>"@) {
        v0 + vl + 11
    } else {
        -1
    }
}

pub open spec fn uid_type(s: Seq<char>, q: int) -> Seq<char> {
    s.subrange(uid_type_start(q), uid_type_start(q) + run_without(s, uid_type_start(q), '"') as int)
}

pub open spec fn uid_value(s: Seq<char>, q: int) -> Seq<char> {
    s.subrange(uid_close_of_open(s, q) + 1, uid_value_end(s, q))
}

pub open spec fn uid_pred(s: Seq<char>, from: int) -> spec_fn(int) -> bool {
    |q: int| from <= q && uid_end(s, q) >= 0
}

/// Ids from the `<uniqueid>` elements of `s` from `from` on, in order:
/// the first `tmdb` one fills the TMDB id if it is still missing, the
/// first `imdb` one the IMDB id (when `want_imdb`).
pub open spec fn uid_scan(
    s: Seq<char>,
    from: int,
    tmdb: Option<Seq<char>>,
    imdb: Option<Seq<char>>,
    want_imdb: bool,
) -> (Option<Seq<char>>, Option<Seq<char>>)
    decreases s.len() - from,
{
    if from < 0 || from >= s.len() {
        (tmdb, imdb)
    } else {
        let q = first_from(uid_pred(s, from), from, s.len() as int);
        if q >= s.len() {
            (tmdb, imdb)
        } else {
            proof {
                lemma_first_from(uid_pred(s, from), from, s.len() as int);
                reveal_strlit("</uniqueid>");
            }
            let ty = uid_type(s, q);
            let v = uid_value(s, q);
            if ty == "tmdb"@ && tmdb is None {
                uid_scan(s, uid_end(s, q), Some(v), imdb, want_imdb)
            } else if want_imdb && ty == "imdb"@ && imdb is None {
                uid_scan(s, uid_end(s, q), tmdb, Some(v), want_imdb)
            } else {
                uid_scan(s, uid_end(s, q), tmdb, imdb, want_imdb)
            }
        }
    }
}

/// The TMDB and IMDB ids of a movie NFO file's text: from `<tmdbid>` and
/// `<imdbid>` elements, else from `<uniqueid>` elements; none for a blank
/// file.
pub open spec fn movie_ids(s: Seq<char>) -> (Option<Seq<char>>, Option<Seq<char>>) {
    if trim(s).len() == 0 {
        (None, None)
    } else {
        uid_scan(s, 0, tmdb_tag(s), imdb_tag(s), true)
    }
}

/// The TMDB id of a show NFO file's text.
pub open spec fn show_tmdb_id(s: Seq<char>) -> Option<Seq<char>> {
    if trim(s).len() == 0 {
        None
    } else {
        uid_scan(s, 0, tmdb_tag(s), None, false).0
    }
}

fn lit(t: &str) -> (r: Vec<char>)
    ensures
        r@ == t@,
{
    to_chars(t)
}

fn tmdb_tag_end_exec(s: &Vec<char>, q: usize) -> (r: Option<usize>)
    requires
        q <= s.len(),
    ensures
        match r {
            Some(e) => e as int == tmdb_tag_end(s@, q as int) && q + 17 <= e <= s.len(),
            None => tmdb_tag_end(s@, q as int) < 0,
        },
{
    let open = lit("<tmdbid>");
    let close = lit("</tmdbid>");
    proof {
        reveal_strlit("<tmdbid>");
        reveal_strlit("</tmdbid>");
    }
    if !occurs_at_exec(s, q, &open) {
        return None;
    }
    let d = digit_run_exec(s, q + 8);
    if d >= 1 && occurs_at_exec(s, q + 8 + d, &close) {
        Some(q + 8 + d + 9)
    } else {
        None
    }
}

fn imdb_tag_end_exec(s: &Vec<char>, q: usize) -> (r: Option<usize>)
    requires
        q <= s.len(),
    ensures
        match r {
            Some(e) => e as int == imdb_tag_end(s@, q as int) && q + 19 <= e <= s.len(),
            None => imdb_tag_end(s@, q as int) < 0,
        },
{
    let open = lit("<imdbid>tt");
    let close = lit("</imdbid>");
    proof {
        reveal_strlit("<imdbid>tt");
        reveal_strlit("</imdbid>");
    }
    if !occurs_at_exec(s, q, &open) {
        return None;
    }
    let d = digit_run_exec(s, q + 10);
    if d >= 1 && occurs_at_exec(s, q + 10 + d, &close) {
        Some(q + 10 + d + 9)
    } else {
        None
    }
}

fn tmdb_tag_exec(s: &Vec<char>) -> (r: Option<Vec<char>>)
    ensures
        match r {
            Some(v) => tmdb_tag(s@) == Some(v@),
            None => tmdb_tag(s@) is None,
        },
{
    let n = s.len();
    let mut q: usize = 0;
    while q < n && tmdb_tag_end_exec(s, q).is_none()
        invariant
            q <= n == s@.len(),
            forall|j: int| 0 <= j < q ==> !#[trigger] tmdb_pred(s@)(j),
        decreases n - q,
    {
        q = q + 1;
    }
    proof {
        lemma_first_from_is(tmdb_pred(s@), 0, n as int, q as int);
    }
    if q >= n {
        return None;
    }
    match tmdb_tag_end_exec(s, q) {
        Some(e) => Some(slice_of(s, q + 8, e - 9)),
        None => None,
    }
}

fn imdb_tag_exec(s: &Vec<char>) -> (r: Option<Vec<char>>)
    ensures
        match r {
            Some(v) => imdb_tag(s@) == Some(v@),
            None => imdb_tag(s@) is None,
        },
{
    let n = s.len();
    let mut q: usize = 0;
    while q < n && imdb_tag_end_exec(s, q).is_none()
        invariant
            q <= n == s@.len(),
            forall|j: int| 0 <= j < q ==> !#[trigger] imdb_pred(s@)(j),
        decreases n - q,
    {
        q = q + 1;
    }
    proof {
        lemma_first_from_is(imdb_pred(s@), 0, n as int, q as int);
    }
    if q >= n {
        return None;
    }
    match imdb_tag_end_exec(s, q) {
        Some(e) => Some(slice_of(s, q + 8, e - 9)),
        None => None,
    }
}

fn run_without_exec(s: &Vec<char>, i: usize, stop: char) -> (r: usize)
    requires
        i <= s.len(),
    ensures
        r == run_without(s@, i as int, stop),
        i + r <= s.len(),
{
    let mut j = i;
    while j < s.len() && s[j] != stop
        invariant
            i <= j <= s.len(),
            run_without(s@, i as int, stop) == (j - i) + run_without(s@, j as int, stop),
        decreases s.len() - j,
    {
        j = j + 1;
    }
    j - i
}

/// Where the `<uniqueid>` element at `q` ends, with where its type ends
/// and where its value starts.
fn uid_end_exec(s: &Vec<char>, q: usize) -> (r: Option<(usize, usize, usize, usize)>)
    requires
        q <= s.len(),
    ensures
        match r {
            Some((te, v0, ve, e)) => {
                &&& e as int == uid_end(s@, q as int)
                &&& te as int == uid_type_start(q as int) + run_without(s@, uid_type_start(q as int), '"')
                &&& v0 as int == uid_close_of_open(s@, q as int) + 1
                &&& ve as int == uid_value_end(s@, q as int)
                &&& q + 16 <= te < v0 <= ve < e <= s.len()
            },
            None => uid_end(s@, q as int) < 0,
        },
{
    let open = lit("<uniqueid type=\"");
    let close = lit("</uniqueid>");
    proof {
        reveal_strlit("<uniqueid type=\"");
        reveal_strlit("</uniqueid>");
    }
    if !occurs_at_exec(s, q, &open) {
        return None;
    }
    let t0 = q + 16;
    let tl = run_without_exec(s, t0, '"');
    let te = t0 + tl;
    if tl < 1 || te >= s.len() {
        return None;
    }
    let gt = te + 1 + run_without_exec(s, te + 1, '>');
    if gt >= s.len() {
        return None;
    }
    let v0 = gt + 1;
    let vl = run_without_exec(s, v0, '<');
    if vl >= 1 && occurs_at_exec(s, v0 + vl, &close) {
        Some((te, v0, v0 + vl, v0 + vl + 11))
    } else {
        None
    }
}

pub open spec fn opt_chars(o: Option<Vec<char>>) -> Option<Seq<char>> {
    match o {
        Some(v) => Some(v@),
        None => None,
    }
}

fn uid_scan_exec(s: &Vec<char>, tmdb: Option<Vec<char>>, imdb: Option<Vec<char>>, want_imdb: bool) -> (r: (
    Option<Vec<char>>,
    Option<Vec<char>>,
))
    ensures
        (opt_chars(r.0), opt_chars(r.1)) == uid_scan(s@, 0, opt_chars(tmdb), opt_chars(imdb), want_imdb),
{
    let n = s.len();
    let ghost goal = uid_scan(s@, 0, opt_chars(tmdb), opt_chars(imdb), want_imdb);
    let mut from: usize = 0;
    let mut t = tmdb;
    let mut m = imdb;
    while from < n
        invariant
            from <= n == s@.len(),
            goal == uid_scan(s@, from as int, opt_chars(t), opt_chars(m), want_imdb),
        decreases n - from,
    {
        let mut q = from;
        let mut found: Option<(usize, usize, usize, usize)> = None;
        while q < n && found.is_none()
            invariant
                from <= q <= n == s@.len(),
                found is None ==> forall|j: int| from <= j < q ==> !#[trigger] uid_pred(s@, from as int)(j),
                found is Some ==> {
                    let (te, v0, ve, e) = found.unwrap();
                    &&& q >= 1
                    &&& forall|j: int| from <= j < q - 1 ==> !#[trigger] uid_pred(s@, from as int)(j)
                    &&& from <= q - 1
                    &&& e as int == uid_end(s@, q - 1)
                    &&& te as int == uid_type_start(q - 1) + run_without(s@, uid_type_start(q - 1), '"')
                    &&& v0 as int == uid_close_of_open(s@, q - 1) + 1
                    &&& ve as int == uid_value_end(s@, q - 1)
                    &&& q - 1 + 16 <= te < v0 <= ve < e <= s.len()
                },
            decreases n - q,
        {
            found = uid_end_exec(s, q);
            q = q + 1;
        }
        match found {
            None => {
                proof {
                    lemma_first_from_is(uid_pred(s@, from as int), from as int, n as int, n as int);
                }
                from = n;
            },
            Some((te, v0, ve, e)) => {
                let start = q - 1;
                proof {
                    assert(uid_pred(s@, from as int)(start as int));
                    lemma_first_from_is(
                        uid_pred(s@, from as int),
                        from as int,
                        n as int,
                        start as int,
                    );
                }
                let ty = slice_of(s, start + 16, te);
                let val = slice_of(s, v0, ve);
                let is_tmdb = str_eq(from_chars(&ty).as_str(), "tmdb");
                let is_imdb = str_eq(from_chars(&ty).as_str(), "imdb");
                if is_tmdb && t.is_none() {
                    t = Some(val);
                } else if want_imdb && is_imdb && m.is_none() {
                    m = Some(val);
                }
                from = e;
            },
        }
    }
    (t, m)
}

pub open spec fn opt_string(o: Option<String>) -> Option<Seq<char>> {
    match o {
        Some(v) => Some(v@),
        None => None,
    }
}

fn chars_to_string(o: Option<Vec<char>>) -> (r: Option<String>)
    ensures
        opt_string(r) == opt_chars(o),
{
    match o {
        Some(v) => Some(from_chars(&v)),
        None => None,
    }
}

/// The TMDB and IMDB ids that the text of a movie NFO file gives.
pub fn movie_nfo_ids(content: &str) -> (r: (Option<String>, Option<String>))
    ensures
        (opt_string(r.0), opt_string(r.1)) == movie_ids(content@),
{
    let s = to_chars(content);
    if trim_chars(&s).len() == 0 {
        return (None, None);
    }
    let t = tmdb_tag_exec(&s);
    let i = imdb_tag_exec(&s);
    let (a, b) = uid_scan_exec(&s, t, i, true);
    (chars_to_string(a), chars_to_string(b))
}

/// The TMDB id that the text of a show NFO file gives.
pub fn show_nfo_tmdb_id(content: &str) -> (r: Option<String>)
    ensures
        opt_string(r) == show_tmdb_id(content@),
{
    let s = to_chars(content);
    if trim_chars(&s).len() == 0 {
        return None;
    }
    let t = tmdb_tag_exec(&s);
    let (a, _b) = uid_scan_exec(&s, t, None, false);
    chars_to_string(a)
}

// ---------------------------------------------------------------------------
// Choosing metadata beside a video.
// ---------------------------------------------------------------------------

/// What an NFO file describes, by the root element its text opens.
#[derive(Clone, Copy, PartialEq, Eq, Structural, Debug)]
pub enum NfoKind {
    Movie,
    TvShow,
}

/// The kind of NFO file whose text is `content`: a movie when it mentions
/// `<movie`, else a show when it mentions `<tvshow`.
pub fn nfo_kind(content: &str) -> (r: Option<NfoKind>)
    ensures
        r == if has_sub(content@, "<movie"@) {
            Some(NfoKind::Movie)
        } else if has_sub(content@, "<tvshow"@) {
            Some(NfoKind::TvShow)
        } else {
            None
        },
{
    let c = to_chars(content);
    if has_sub_exec(&c, &lit("<movie")) {
        Some(NfoKind::Movie)
    } else if has_sub_exec(&c, &lit("<tvshow")) {
        Some(NfoKind::TvShow)
    } else {
        None
    }
}

/// Whether the file at `path` is an NFO file (extension exactly `nfo`).
pub fn is_nfo_file(path: &str) -> (r: bool)
    ensures
        r == (extension_of(path@) == Some("nfo"@)),
{
    match extension_exec(&to_chars(path)) {
        Some(e) => str_eq(from_chars(&e).as_str(), "nfo"),
        None => false,
    }
}

/// Whether an NFO file with `actors` actors replaces the best one found so
/// far (with `best_actors`, if any): the first one found is kept unless a
/// later one lists more actors.
pub fn replaces_best_nfo(best_actors: Option<usize>, actors: usize) -> (r: bool)
    ensures
        r == match best_actors {
            Some(b) => actors > b,
            None => true,
        },
{
    match best_actors {
        Some(b) => actors > b,
        None => true,
    }
}

/// Artwork files looked for beside a video, in order of preference.
pub open spec fn poster_names(base: Seq<char>) -> Seq<Seq<char>> {
    seq!["poster.jpg"@, "poster.png"@, base + "-poster.jpg"@, "folder.jpg"@]
}

pub open spec fn fanart_names(base: Seq<char>) -> Seq<Seq<char>> {
    seq!["fanart.jpg"@, "backdrop.jpg"@, base + "-fanart.jpg"@]
}

fn with_suffix(base: &str, suffix: &str) -> (r: String)
    ensures
        r@ == base@ + suffix@,
{
    let mut v: Vec<char> = Vec::new();
    push_str(&mut v, base);
    push_str(&mut v, suffix);
    from_chars(&v)
}

/// The poster file names tried beside a video whose stem is `base_name`.
pub fn poster_candidates(base_name: &str) -> (r: Vec<String>)
    ensures
        strs(r@) == poster_names(base_name@),
{
    let r = vec![
        String::from_str("poster.jpg"),
        String::from_str("poster.png"),
        with_suffix(base_name, "-poster.jpg"),
        String::from_str("folder.jpg"),
    ];
    assert(strs(r@) =~= poster_names(base_name@));
    r
}

/// The backdrop file names tried beside a video whose stem is `base_name`.
pub fn fanart_candidates(base_name: &str) -> (r: Vec<String>)
    ensures
        strs(r@) == fanart_names(base_name@),
{
    let r = vec![
        String::from_str("fanart.jpg"),
        String::from_str("backdrop.jpg"),
        with_suffix(base_name, "-fanart.jpg"),
    ];
    assert(strs(r@) =~= fanart_names(base_name@));
    r
}

// ---------------------------------------------------------------------------
// Writing NFO files.
// ---------------------------------------------------------------------------

/// What `serde_json` reads from a text as a list of strings: the strings
/// of a JSON array of strings, none for any other text.
pub uninterp spec fn json_string_list(s: Seq<char>) -> Option<Seq<Seq<char>>>;

/// Calls `serde_json::from_str::<Vec<String>>`; the contract only names
/// the result (JSON's grammar is not restated).
#[verifier::external_body]
pub(crate) fn parse_string_list(s: &str) -> (r: Option<Vec<String>>)
    ensures
        match r {
            Some(v) => json_string_list(s@) == Some(strs(v@)),
            None => json_string_list(s@) is None,
        },
{
    serde_json::from_str::<Vec<String>>(s).ok()
}

/// The genres stored as a JSON list: those of the list, none when there is
/// no list or it does not read.
pub open spec fn genres_of(genres: Option<Seq<char>>) -> Seq<Seq<char>> {
    match genres {
        Some(g) => match json_string_list(g) {
            Some(l) => l,
            None => Seq::<Seq<char>>::empty(),
        },
        None => Seq::<Seq<char>>::empty(),
    }
}

pub fn genres_from_json(genres: &Option<String>) -> (r: Vec<String>)
    ensures
        strs(r@) == genres_of(opt_string(*genres)),
{
    match genres {
        Some(g) => match parse_string_list(g.as_str()) {
            Some(l) => l,
            None => {
                let r: Vec<String> = Vec::new();
                assert(strs(r@) =~= Seq::<Seq<char>>::empty());
                r
            },
        },
        None => {
            let r: Vec<String> = Vec::new();
            assert(strs(r@) =~= Seq::<Seq<char>>::empty());
            r
        },
    }
}

/// The `<movie>` document written for a movie.
pub struct MovieNfo {
    pub title: String,
    pub originaltitle: Option<String>,
    pub sorttitle: Option<String>,
    pub year: Option<i32>,
    /// The rating as decimal text.
    pub rating: Option<String>,
    pub plot: Option<String>,
    pub outline: Option<String>,
    pub tagline: Option<String>,
    pub runtime: Option<i32>,
    pub thumb: Option<String>,
    pub fanart: Option<String>,
    pub mpau: Option<String>,
    /// The IMDB id.
    pub id: Option<String>,
    pub tmdbid: Option<i32>,
    pub genre: Vec<String>,
}

/// The `<tvshow>` document written for a show.
pub struct TvShowNfo {
    pub title: String,
    pub originaltitle: Option<String>,
    pub sorttitle: Option<String>,
    pub year: Option<i32>,
    pub rating: Option<String>,
    pub plot: Option<String>,
    pub id: Option<String>,
    pub tmdbid: Option<i32>,
    pub genre: Vec<String>,
}

/// The `<episodedetails>` document written for an episode.
pub struct EpisodeNfo {
    pub title: String,
    pub showtitle: Option<String>,
    pub season: i32,
    pub episode: i32,
    pub plot: Option<String>,
    pub rating: Option<String>,
    pub thumb: Option<String>,
    pub runtime: Option<i32>,
}

/// Builds the NFO documents of the library.
pub struct NfoWriter;

fn clone_opt(o: &Option<String>) -> (r: Option<String>)
    ensures
        opt_string(r) == opt_string(*o),
{
    match o {
        Some(s) => Some(s.clone()),
        None => None,
    }
}

/// The XML declaration that starts every written NFO file.
pub open spec fn xml_declaration() -> Seq<char> {
    "<?xml version=\"1.0\" encoding=\"UTF-8\" standalone=\"yes\" ?>\n"@
}

impl NfoWriter {
    /// The document for `movie`: its title (also as original and sort
    /// title), year, rating, plot (also as outline), tagline, runtime,
    /// poster and backdrop, IMDB and TMDB ids, and its genres.
    pub fn movie_nfo(movie: &Movie) -> (r: MovieNfo)
        ensures
            r.title@ == movie.title@,
            opt_string(r.originaltitle) == Some(movie.title@),
            opt_string(r.sorttitle) == Some(movie.title@),
            r.year == movie.year,
            opt_string(r.rating) == opt_string(movie.rating),
            opt_string(r.plot) == opt_string(movie.plot),
            opt_string(r.outline) == opt_string(movie.plot),
            opt_string(r.tagline) == opt_string(movie.tagline),
            r.runtime == movie.runtime,
            opt_string(r.thumb) == opt_string(movie.poster_url),
            opt_string(r.fanart) == opt_string(movie.backdrop_url),
            r.mpau is None,
            opt_string(r.id) == opt_string(movie.imdb_id),
            r.tmdbid == movie.tmdb_id,
            strs(r.genre@) == genres_of(opt_string(movie.genres)),
    {
        MovieNfo {
            title: movie.title.clone(),
            originaltitle: Some(movie.title.clone()),
            sorttitle: Some(movie.title.clone()),
            year: movie.year,
            rating: clone_opt(&movie.rating),
            plot: clone_opt(&movie.plot),
            outline: clone_opt(&movie.plot),
            tagline: clone_opt(&movie.tagline),
            runtime: movie.runtime,
            thumb: clone_opt(&movie.poster_url),
            fanart: clone_opt(&movie.backdrop_url),
            mpau: None,
            id: clone_opt(&movie.imdb_id),
            tmdbid: movie.tmdb_id,
            genre: genres_from_json(&movie.genres),
        }
    }

    /// The document for `show`: its title (also as original and sort
    /// title), rating, plot, IMDB and TMDB ids and genres; no year.
    pub fn tvshow_nfo(show: &TVShow) -> (r: TvShowNfo)
        ensures
            r.title@ == show.title@,
            opt_string(r.originaltitle) == Some(show.title@),
            opt_string(r.sorttitle) == Some(show.title@),
            r.year is None,
            opt_string(r.rating) == opt_string(show.rating),
            opt_string(r.plot) == opt_string(show.plot),
            opt_string(r.id) == opt_string(show.imdb_id),
            r.tmdbid == show.tmdb_id,
            strs(r.genre@) == genres_of(opt_string(show.genres)),
    {
        TvShowNfo {
            title: show.title.clone(),
            originaltitle: Some(show.title.clone()),
            sorttitle: Some(show.title.clone()),
            year: None,
            rating: clone_opt(&show.rating),
            plot: clone_opt(&show.plot),
            id: clone_opt(&show.imdb_id),
            tmdbid: show.tmdb_id,
            genre: genres_from_json(&show.genres),
        }
    }

    /// The document for an episode of season `season_number`: its title,
    /// or its original file name when it has none, its number and its
    /// thumbnail.
    pub fn episode_nfo(episode: &Episode, season_number: i32) -> (r: EpisodeNfo)
        ensures
            r.title@ == match episode.title {
                Some(t) => t@,
                None => episode.original_name@,
            },
            r.showtitle is None,
            r.season == season_number,
            r.episode == episode.episode_number,
            r.plot is None,
            r.rating is None,
            opt_string(r.thumb) == opt_string(episode.thumbnail_path),
            r.runtime is None,
    {
        let title = match &episode.title {
            Some(t) => t.clone(),
            None => episode.original_name.clone(),
        };
        EpisodeNfo {
            title,
            showtitle: None,
            season: season_number,
            episode: episode.episode_number,
            plot: None,
            rating: None,
            thumb: clone_opt(&episode.thumbnail_path),
            runtime: None,
        }
    }

    /// The text of an NFO file whose root element is serialized as `xml`.
    pub fn document(xml: &str) -> (r: String)
        ensures
            r@ == xml_declaration() + xml@,
    {
        with_suffix("<?xml version=\"1.0\" encoding=\"UTF-8\" standalone=\"yes\" ?>\n", xml)
    }
}

/// An actor as an NFO file lists it.
pub struct Actor {
    pub name: String,
    pub role: Option<String>,
    pub thumb: Option<String>,
}

/// The cast members an NFO file's actors make: name, role, and the
/// thumbnail as image, in order.
pub fn cast_members(actors: &Vec<Actor>) -> (r: Vec<CastMember>)
    ensures
        r@.len() == actors@.len(),
        forall|i: int|
            0 <= i < r@.len() ==> {
                &&& (#[trigger] r@[i]).name@ == actors@[i].name@
                &&& opt_string(r@[i].role) == opt_string(actors@[i].role)
                &&& opt_string(r@[i].image) == opt_string(actors@[i].thumb)
            },
{
    let mut out: Vec<CastMember> = Vec::new();
    let mut i: usize = 0;
    while i < actors.len()
        invariant
            i <= actors.len(),
            out@.len() == i,
            forall|k: int|
                0 <= k < i ==> {
                    &&& (#[trigger] out@[k]).name@ == actors@[k].name@
                    &&& opt_string(out@[k].role) == opt_string(actors@[k].role)
                    &&& opt_string(out@[k].image) == opt_string(actors@[k].thumb)
                },
        decreases actors.len() - i,
    {
        let a = &actors[i];
        out.push(
            CastMember { name: a.name.clone(), role: clone_opt(&a.role), image: clone_opt(&a.thumb) },
        );
        i = i + 1;
    }
    out
}


/// The name under which an actor's picture is kept: every character of
/// the actor's name that is not alphanumeric made `_`, then `.jpg`.
pub open spec fn actor_image_name(name: Seq<char>) -> Seq<char> {
    name.map_values(|c: char| if crate::text::unicode_alphanumeric(c) { c } else { '_' }) + ".jpg"@
}

/// The file name of an actor's picture.
pub fn actor_image_file(name: &str) -> (r: String)
    ensures
        r@ == actor_image_name(name@),
{
    let v = to_chars(name);
    let mut out: Vec<char> = Vec::new();
    let mut i: usize = 0;
    while i < v.len()
        invariant
            i <= v@.len(),
            out@ == v@.subrange(0, i as int).map_values(
                |c: char| if crate::text::unicode_alphanumeric(c) { c } else { '_' },
            ),
        decreases v.len() - i,
    {
        let c = v[i];
        let d = if crate::text::char_is_alphanumeric(c) { c } else { '_' };
        out.push(d);
        assert(v@.subrange(0, i + 1).map_values(
            |c: char| if crate::text::unicode_alphanumeric(c) { c } else { '_' },
        ) =~= v@.subrange(0, i as int).map_values(
            |c: char| if crate::text::unicode_alphanumeric(c) { c } else { '_' },
        ).push(d));
        i = i + 1;
    }
    assert(v@.subrange(0, v.len() as int) =~= v@);
    crate::text::push_str(&mut out, ".jpg");
    from_chars(&out)
}

/// An actor's picture is fetched when its address starts with `http`.
pub fn is_remote_thumb(url: &str) -> (r: bool)
    ensures
        r == (url@.len() >= 4 && url@.subrange(0, 4) == "http"@),
{
    let v = to_chars(url);
    proof {
        reveal_strlit("http");
    }
    if v.len() < 4 {
        return false;
    }
    let r = v[0] == 'h' && v[1] == 't' && v[2] == 't' && v[3] == 'p';
    proof {
        if r {
            assert(v@.subrange(0, 4) =~= "http"@);
        } else {
            assert(v@.subrange(0, 4) != "http"@) by {
                if v@[0] != 'h' {
                    assert(v@.subrange(0, 4)[0] != "http"@[0]);
                } else if v@[1] != 't' {
                    assert(v@.subrange(0, 4)[1] != "http"@[1]);
                } else if v@[2] != 't' {
                    assert(v@.subrange(0, 4)[2] != "http"@[2]);
                } else {
                    assert(v@.subrange(0, 4)[3] != "http"@[3]);
                }
            }
        }
    }
    r
}

} // verus!
