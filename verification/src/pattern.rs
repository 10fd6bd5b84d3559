//! Markers that title cleaning looks for (season and episode markers,
//! years, release-noise words) and the ways a marker cuts a text.
use vstd::prelude::*;
use crate::text::{ci_at, ci_at_exec, boundary_before, boundary_after, boundary_before_exec, boundary_after_exec, is_ws, is_ws_exec, is_digit, is_digit_exec, digit_run, digit_run_exec, ws_run, ws_run_exec, lemma_digit_run, lemma_ws_run, first_from, lemma_first_from, lemma_first_from_is, ci_eq, fold, fold_exec, slice_of, push_range};

verus! {

/// A list of release-noise words; each word is matched as a whole word,
/// regardless of ASCII case.
#[derive(Clone, Copy, PartialEq, Eq, Structural, Debug)]
pub enum Noise {
    /// Quality and release-group words cut from folder names.
    Folder,
    /// Quality words cut from show titles before they are stored.
    Show,
    /// Words whose presence marks a title as release noise.
    Release,
    /// Quality and site words cut from episode titles.
    Episode,
}

pub open spec fn noise_words(n: Noise) -> Seq<Seq<char>> {
    match n {
        Noise::Folder => seq![
            "2160p"@, "1080p"@, "720p"@, "480p"@, "576p"@, "x264"@, "x265"@, "h264"@, "h265"@,
            "10bit"@, "hdtv"@, "web-dl"@, "web dl"@, "webdl"@, "bluray"@, "brrip"@, "hdrip"@,
            "webrip"@, "hevc"@, "avc"@, "complete"@, "galaxy"@, "tv"@, "mkvcage"@, "eztv"@,
            "yts"@, "rarbg"@, "1337x"@, "tgx"@, "psarips"@, "kontrast"@, "minx"@, "memento"@,
        ],
        Noise::Show => seq![
            "2160p"@, "1080p"@, "720p"@, "480p"@, "576p"@, "x264"@, "x265"@, "h264"@, "h265"@,
            "10bit"@, "hdtv"@, "web-dl"@, "webdl"@, "bluray"@,
        ],
        Noise::Release => seq![
            "2160p"@, "1080p"@, "720p"@, "480p"@, "576p"@, "x264"@, "x265"@, "h264"@, "h265"@,
            "10bit"@, "bluray"@, "web-dl"@, "web dl"@, "webdl"@, "webrip"@, "hdtv"@, "brrip"@,
            "hdrip"@, "proper"@, "repack"@, "hevc"@, "avc"@, "aac"@, "ddp"@, "nf"@, "amzn"@,
            "complete"@, "galaxy"@, "tv"@, "mkvcage"@, "eztv"@, "yts"@, "rarbg"@, "1337x"@,
            "tgx"@, "psarips"@, "kontrast"@, "minx"@, "memento"@,
        ],
        Noise::Episode => seq![
            "2160p"@, "1080p"@, "720p"@, "480p"@, "576p"@, "x264"@, "x265"@, "h264"@, "h265"@,
            "10bit"@, "hdtv"@, "web-dl"@, "webdl"@, "bluray"@, "brrip"@, "mkvcap"@, "mkvcage"@,
            "hevc"@, "psa"@, "eztv"@, "torrenting"@, "yts"@, "rarbg"@, "1337x"@, "tgx"@,
        ],
    }
}

fn noise_words_exec(n: Noise) -> (r: Vec<&'static str>)
    ensures
        r@.map_values(|t: &str| t@) == noise_words(n),
{
    let r = match n {
        Noise::Folder => vec![
            "2160p", "1080p", "720p", "480p", "576p", "x264", "x265", "h264", "h265",
            "10bit", "hdtv", "web-dl", "web dl", "webdl", "bluray", "brrip", "hdrip",
            "webrip", "hevc", "avc", "complete", "galaxy", "tv", "mkvcage", "eztv",
            "yts", "rarbg", "1337x", "tgx", "psarips", "kontrast", "minx", "memento",
        ],
        Noise::Show => vec![
            "2160p", "1080p", "720p", "480p", "576p", "x264", "x265", "h264", "h265",
            "10bit", "hdtv", "web-dl", "webdl", "bluray",
        ],
        Noise::Release => vec![
            "2160p", "1080p", "720p", "480p", "576p", "x264", "x265", "h264", "h265",
            "10bit", "bluray", "web-dl", "web dl", "webdl", "webrip", "hdtv", "brrip",
            "hdrip", "proper", "repack", "hevc", "avc", "aac", "ddp", "nf", "amzn",
            "complete", "galaxy", "tv", "mkvcage", "eztv", "yts", "rarbg", "1337x",
            "tgx", "psarips", "kontrast", "minx", "memento",
        ],
        Noise::Episode => vec![
            "2160p", "1080p", "720p", "480p", "576p", "x264", "x265", "h264", "h265",
            "10bit", "hdtv", "web-dl", "webdl", "bluray", "brrip", "mkvcap", "mkvcage",
            "hevc", "psa", "eztv", "torrenting", "yts", "rarbg", "1337x", "tgx",
        ],
    };
    assert(r@.map_values(|t: &str| t@) =~= noise_words(n));
    r
}


/// One of the words of `n` stands as a whole word at position `q`.
pub open spec fn noise_at(n: Noise, s: Seq<char>, q: int) -> bool {
    &&& boundary_before(s, q)
    &&& exists|k: int|
        0 <= k < noise_words(n).len() && #[trigger] ci_at(s, q, noise_words(n)[k]) && boundary_after(
            s,
            q + noise_words(n)[k].len(),
        )
}

fn noise_at_exec(n: Noise, s: &Vec<char>, q: usize) -> (r: bool)
    requires
        q <= s.len(),
    ensures
        r == noise_at(n, s@, q as int),
{
    if !boundary_before_exec(s, q) {
        return false;
    }
    let words = noise_words_exec(n);
    let ghost ws = noise_words(n);
    let mut k: usize = 0;
    while k < words.len()
        invariant
            words@.map_values(|t: &str| t@) == ws,
            ws == noise_words(n),
            k <= words.len(),
            q <= s.len(),
            boundary_before(s@, q as int),
            forall|j: int|
                0 <= j < k ==> !(#[trigger] ci_at(s@, q as int, ws[j]) && boundary_after(
                    s@,
                    q + ws[j].len(),
                )),
        decreases words.len() - k,
    {
        let w = words[k];
        assert(ws[k as int] == w@);
        if ci_at_exec(s, q, w) {
            let len = w.unicode_len();
            if boundary_after_exec(s, q + len) {
                assert(ci_at(s@, q as int, noise_words(n)[k as int]) && boundary_after(
                    s@,
                    q + noise_words(n)[k as int].len(),
                ));
                assert(boundary_before(s@, q as int));
                assert(noise_at(n, s@, q as int));
                return true;
            }
        }
        k = k + 1;
    }
    false
}

/// `S` with one or two digits, optionally followed by `E` with one or two
/// digits, standing as a whole word at `q` (a season or episode marker).
pub open spec fn season_marker_at(s: Seq<char>, q: int) -> bool {
    let e = q + 1 + digit_run(s, q + 1);
    &&& 0 <= q < s.len()
    &&& boundary_before(s, q)
    &&& ci_eq(s[q], 's')
    &&& 1 <= digit_run(s, q + 1) <= 2
    &&& (boundary_after(s, e) || (e < s.len() && ci_eq(s[e], 'e') && 1 <= digit_run(s, e + 1) <= 2
        && boundary_after(s, e + 1 + digit_run(s, e + 1))))
}

/// `S` with one or two digits, then `E` with one or two digits, standing as
/// a whole word at `q`.
pub open spec fn episode_marker_at(s: Seq<char>, q: int) -> bool {
    let e = q + 1 + digit_run(s, q + 1);
    &&& 0 <= q < s.len()
    &&& boundary_before(s, q)
    &&& ci_eq(s[q], 's')
    &&& 1 <= digit_run(s, q + 1) <= 2
    &&& e < s.len()
    &&& ci_eq(s[e], 'e')
    &&& 1 <= digit_run(s, e + 1) <= 2
    &&& boundary_after(s, e + 1 + digit_run(s, e + 1))
}

/// After position `j`: optional whitespace, then digits that end a word.
pub open spec fn number_ends_word(s: Seq<char>, j: int) -> bool {
    let k = j + ws_run(s, j);
    digit_run(s, k) >= 1 && boundary_after(s, k + digit_run(s, k))
}

/// `season`, `series` or `s` as the start of a word at `q`, then optional
/// whitespace and a number ending the word.
pub open spec fn season_word_at(s: Seq<char>, q: int) -> bool {
    &&& 0 <= q
    &&& boundary_before(s, q)
    &&& {
        ||| (ci_at(s, q, "season"@) && number_ends_word(s, q + 6))
        ||| (ci_at(s, q, "series"@) && number_ends_word(s, q + 6))
        ||| (ci_at(s, q, "s"@) && number_ends_word(s, q + 1))
    }
}

/// A year from 1900 to 2099 standing as a whole word at `q`.
pub open spec fn year_at(s: Seq<char>, q: int) -> bool {
    &&& 0 <= q
    &&& q + 4 <= s.len()
    &&& boundary_before(s, q)
    &&& ((s[q] == '1' && s[q + 1] == '9') || (s[q] == '2' && s[q + 1] == '0'))
    &&& is_digit(s[q + 2])
    &&& is_digit(s[q + 3])
    &&& boundary_after(s, q + 4)
}

fn season_marker_at_exec(s: &Vec<char>, q: usize) -> (r: bool)
    requires
        q <= s.len(),
    ensures
        r == season_marker_at(s@, q as int),
{
    if q >= s.len() || !boundary_before_exec(s, q) || fold_exec(s[q]) != 115 {
        return false;
    }
    let r1 = digit_run_exec(s, q + 1);
    if r1 < 1 || r1 > 2 {
        return false;
    }
    let e = q + 1 + r1;
    if boundary_after_exec(s, e) {
        return true;
    }
    if e < s.len() && fold_exec(s[e]) == 101 {
        let r2 = digit_run_exec(s, e + 1);
        r2 >= 1 && r2 <= 2 && boundary_after_exec(s, e + 1 + r2)
    } else {
        false
    }
}

fn episode_marker_at_exec(s: &Vec<char>, q: usize) -> (r: bool)
    requires
        q <= s.len(),
    ensures
        r == episode_marker_at(s@, q as int),
{
    if q >= s.len() || !boundary_before_exec(s, q) || fold_exec(s[q]) != 115 {
        return false;
    }
    let r1 = digit_run_exec(s, q + 1);
    if r1 < 1 || r1 > 2 {
        return false;
    }
    let e = q + 1 + r1;
    if e < s.len() && fold_exec(s[e]) == 101 {
        let r2 = digit_run_exec(s, e + 1);
        r2 >= 1 && r2 <= 2 && boundary_after_exec(s, e + 1 + r2)
    } else {
        false
    }
}

fn number_ends_word_exec(s: &Vec<char>, j: usize) -> (r: bool)
    requires
        j <= s.len(),
    ensures
        r == number_ends_word(s@, j as int),
{
    let k = j + ws_run_exec(s, j);
    let d = digit_run_exec(s, k);
    d >= 1 && boundary_after_exec(s, k + d)
}

fn season_word_at_exec(s: &Vec<char>, q: usize) -> (r: bool)
    requires
        q <= s.len(),
    ensures
        r == season_word_at(s@, q as int),
{
    if !boundary_before_exec(s, q) {
        return false;
    }
    proof {
        reveal_strlit("season");
        reveal_strlit("series");
        reveal_strlit("s");
    }
    (ci_at_exec(s, q, "season") && number_ends_word_exec(s, q + 6)) || (ci_at_exec(s, q, "series")
        && number_ends_word_exec(s, q + 6)) || (ci_at_exec(s, q, "s") && number_ends_word_exec(
        s,
        q + 1,
    ))
}

pub fn year_at_exec(s: &Vec<char>, q: usize) -> (r: bool)
    requires
        q <= s.len(),
    ensures
        r == year_at(s@, q as int),
{
    if s.len() < 4 || q > s.len() - 4 || !boundary_before_exec(s, q) {
        return false;
    }
    let a = s[q];
    let b = s[q + 1];
    ((a == '1' && b == '9') || (a == '2' && b == '0')) && is_digit_exec(s[q + 2]) && is_digit_exec(
        s[q + 3],
    ) && boundary_after_exec(s, q + 4)
}

/// What a cut looks for.
#[derive(Clone, Copy, PartialEq, Eq, Structural, Debug)]
pub enum Core {
    SeasonMarker,
    EpisodeMarker,
    SeasonWord,
    Year,
    Words(Noise),
}

pub open spec fn core_at(c: Core, s: Seq<char>, q: int) -> bool {
    match c {
        Core::SeasonMarker => season_marker_at(s, q),
        Core::EpisodeMarker => episode_marker_at(s, q),
        Core::SeasonWord => season_word_at(s, q),
        Core::Year => year_at(s, q),
        Core::Words(n) => noise_at(n, s, q),
    }
}

fn core_at_exec(c: Core, s: &Vec<char>, q: usize) -> (r: bool)
    requires
        q <= s.len(),
    ensures
        r == core_at(c, s@, q as int),
{
    match c {
        Core::SeasonMarker => season_marker_at_exec(s, q),
        Core::EpisodeMarker => episode_marker_at_exec(s, q),
        Core::SeasonWord => season_word_at_exec(s, q),
        Core::Year => year_at_exec(s, q),
        Core::Words(n) => noise_at_exec(n, s, q),
    }
}

/// What a cut takes before the marker: nothing, any whitespace right before
/// it, or whitespace that must be there.
#[derive(Clone, Copy, PartialEq, Eq, Structural, Debug)]
pub enum Lead {
    Bare,
    AnyWs,
    SomeWs,
}

/// Where a cut ends: at the end of the marker's line, or after the four
/// characters of a year.
#[derive(Clone, Copy, PartialEq, Eq, Structural, Debug)]
pub enum Tail {
    LineEnd,
    Year,
}

/// A cut can start at the marker at `q` (searching from `from`).
pub open spec fn cand(lead: Lead, c: Core, s: Seq<char>, from: int, q: int) -> bool {
    &&& from <= q
    &&& core_at(c, s, q)
    &&& (lead == Lead::SomeWs ==> (q - 1 >= from && is_ws(s[q - 1])))
}

pub open spec fn cand_pred(lead: Lead, c: Core, s: Seq<char>, from: int) -> spec_fn(int) -> bool {
    |q: int| cand(lead, c, s, from, q)
}

/// The first marker at or after `from` where a cut can start (`s.len()` if none).
pub open spec fn first_cand(lead: Lead, c: Core, s: Seq<char>, from: int) -> int {
    first_from(cand_pred(lead, c, s, from), from, s.len() as int)
}

/// Start of the whitespace run that ends at `q`, not before `from`.
pub open spec fn ws_back(s: Seq<char>, from: int, q: int) -> int
    decreases q - from,
{
    if q > from && is_ws(s[q - 1]) {
        ws_back(s, from, q - 1)
    } else {
        q
    }
}

pub open spec fn lead_start(lead: Lead, s: Seq<char>, from: int, q: int) -> int {
    if lead == Lead::Bare {
        q
    } else {
        ws_back(s, from, q)
    }
}

pub open spec fn newline_pred(s: Seq<char>) -> spec_fn(int) -> bool {
    |j: int| s[j] == '\n'
}

/// The first line break after position `q` (`s.len()` if none).
pub open spec fn line_end(s: Seq<char>, q: int) -> int {
    first_from(newline_pred(s), q + 1, s.len() as int)
}

pub open spec fn tail_end(t: Tail, s: Seq<char>, q: int) -> int {
    match t {
        Tail::LineEnd => line_end(s, q),
        Tail::Year => if q + 4 <= s.len() { q + 4 } else { s.len() as int },
    }
}

/// The part of `s` from `from` on, with every cut made, each cut found from
/// where the previous one ended.
pub open spec fn cut_all_from(lead: Lead, c: Core, t: Tail, s: Seq<char>, from: int) -> Seq<char>
    decreases s.len() - from,
{
    if from < 0 || from >= s.len() {
        Seq::<char>::empty()
    } else {
        let q = first_cand(lead, c, s, from);
        if q >= s.len() {
            s.subrange(from, s.len() as int)
        } else {
            proof {
                lemma_first_from(cand_pred(lead, c, s, from), from, s.len() as int);
                lemma_first_from(newline_pred(s), q + 1, s.len() as int);
                assert(tail_end(t, s, q) > from);
            }
            s.subrange(from, lead_start(lead, s, from, q)) + cut_all_from(
                lead,
                c,
                t,
                s,
                tail_end(t, s, q),
            )
        }
    }
}

/// `s` with every cut made (all matches replaced by nothing).
pub open spec fn cut_all(lead: Lead, c: Core, t: Tail, s: Seq<char>) -> Seq<char> {
    cut_all_from(lead, c, t, s, 0)
}

/// `s` with the first cut made (the first match replaced by nothing).
pub open spec fn cut_first(lead: Lead, c: Core, t: Tail, s: Seq<char>) -> Seq<char> {
    let q = first_cand(lead, c, s, 0);
    if q >= s.len() {
        s
    } else {
        s.subrange(0, lead_start(lead, s, 0, q)) + s.subrange(tail_end(t, s, q), s.len() as int)
    }
}

/// Some marker of `c` stands somewhere in `s`.
pub open spec fn has_core(c: Core, s: Seq<char>) -> bool {
    first_cand(Lead::Bare, c, s, 0) < s.len()
}

pub proof fn lemma_ws_back(s: Seq<char>, from: int, q: int)
    requires
        0 <= from <= q <= s.len(),
    ensures
        from <= ws_back(s, from, q) <= q,
    decreases q - from,
{
    if q > from && is_ws(s[q - 1]) {
        lemma_ws_back(s, from, q - 1);
    }
}

fn cand_exec(lead: Lead, c: Core, s: &Vec<char>, from: usize, q: usize) -> (r: bool)
    requires
        from <= q <= s.len(),
    ensures
        r == cand(lead, c, s@, from as int, q as int),
{
    core_at_exec(c, s, q) && (lead != Lead::SomeWs || (q > from && is_ws_exec(s[q - 1])))
}

fn first_cand_exec(lead: Lead, c: Core, s: &Vec<char>, from: usize) -> (r: usize)
    requires
        from <= s.len(),
    ensures
        r == first_cand(lead, c, s@, from as int),
        from <= r <= s.len(),
        r < s.len() ==> cand(lead, c, s@, from as int, r as int),
{
    let n = s.len();
    let mut q = from;
    while q < n && !cand_exec(lead, c, s, from, q)
        invariant
            from <= q <= n == s@.len(),
            forall|j: int| from <= j < q ==> !#[trigger] cand(lead, c, s@, from as int, j),
        decreases n - q,
    {
        q = q + 1;
    }
    proof {
        let p = cand_pred(lead, c, s@, from as int);
        assert forall|j: int| from <= j < q implies !#[trigger] p(j) by {}
        if q < n {
            assert(p(q as int));
        }
        lemma_first_from_is(p, from as int, n as int, q as int);
    }
    q
}

pub fn ws_back_exec(s: &Vec<char>, from: usize, q: usize) -> (r: usize)
    requires
        from <= q <= s.len(),
    ensures
        r == ws_back(s@, from as int, q as int),
        from <= r <= q,
{
    let mut p = q;
    while p > from && is_ws_exec(s[p - 1])
        invariant
            from <= p <= q <= s.len(),
            ws_back(s@, from as int, q as int) == ws_back(s@, from as int, p as int),
        decreases p,
    {
        p = p - 1;
    }
    p
}

pub fn line_end_exec(s: &Vec<char>, q: usize) -> (r: usize)
    requires
        q < s.len(),
    ensures
        r == line_end(s@, q as int),
        q < r <= s.len(),
{
    let n = s.len();
    let mut j = q + 1;
    while j < n && s[j] != '\n'
        invariant
            q + 1 <= j <= n == s@.len(),
            forall|i: int| q + 1 <= i < j ==> s@[i] != '\n',
        decreases n - j,
    {
        j = j + 1;
    }
    proof {
        let p = newline_pred(s@);
        assert forall|i: int| q + 1 <= i < j implies !#[trigger] p(i) by {}
        lemma_first_from_is(p, q + 1, n as int, j as int);
    }
    j
}

fn tail_end_exec(t: Tail, s: &Vec<char>, q: usize) -> (r: usize)
    requires
        q < s.len(),
        t == Tail::Year ==> q + 4 <= s.len(),
    ensures
        r == tail_end(t, s@, q as int),
        q < r <= s.len(),
{
    match t {
        Tail::LineEnd => line_end_exec(s, q),
        Tail::Year => q + 4,
    }
}

/// `s` with the first cut made.
pub fn cut_first_chars(lead: Lead, c: Core, t: Tail, s: &Vec<char>) -> (r: Vec<char>)
    requires
        t == Tail::Year ==> c == Core::Year,
    ensures
        r@ == cut_first(lead, c, t, s@),
{
    let n = s.len();
    let q = first_cand_exec(lead, c, s, 0);
    if q >= n {
        return slice_of(s, 0, n);
    }
    let p = if lead == Lead::Bare { q } else { ws_back_exec(s, 0, q) };
    let e = tail_end_exec(t, s, q);
    let mut out = slice_of(s, 0, p);
    push_range(&mut out, s, e, n);
    out
}

/// `s` with every cut made.
pub fn cut_all_chars(lead: Lead, c: Core, t: Tail, s: &Vec<char>) -> (r: Vec<char>)
    requires
        t == Tail::Year ==> c == Core::Year,
    ensures
        r@ == cut_all(lead, c, t, s@),
{
    let n = s.len();
    let mut out: Vec<char> = Vec::new();
    let mut from: usize = 0;
    while from < n
        invariant
            from <= n == s@.len(),
            t == Tail::Year ==> c == Core::Year,
            cut_all(lead, c, t, s@) == out@ + cut_all_from(lead, c, t, s@, from as int),
        decreases n - from,
    {
        let q = first_cand_exec(lead, c, s, from);
        if q >= n {
            push_range(&mut out, s, from, n);
            from = n;
        } else {
            let p = if lead == Lead::Bare { q } else { ws_back_exec(s, from, q) };
            let e = tail_end_exec(t, s, q);
            push_range(&mut out, s, from, p);
            from = e;
        }
    }
    assert(cut_all_from(lead, c, t, s@, n as int) =~= Seq::<char>::empty());
    out
}

/// Whether some marker of `c` stands somewhere in `s`.
pub fn has_core_chars(c: Core, s: &Vec<char>) -> (r: bool)
    ensures
        r == has_core(c, s@),
{
    first_cand_exec(Lead::Bare, c, s, 0) < s.len()
}

/// One of the words `words` stands at `q` of `s` as a whole word, in any
/// ASCII case.
pub open spec fn word_listed_at(words: Seq<Seq<char>>, s: Seq<char>, q: int) -> bool {
    &&& boundary_before(s, q)
    &&& exists|k: int|
        0 <= k < words.len() && #[trigger] ci_at(s, q, words[k]) && boundary_after(s, q + words[k].len())
}

/// Folder names and readable show titles are cut at these quality and release-group words (after whitespace): 2160p, 1080p, 720p, 480p, 576p, x264, x265, h264, h265, 10bit, hdtv, web-dl, web dl, webdl, bluray, brrip, hdrip, webrip, hevc, avc, complete, galaxy, tv, mkvcage, eztv, yts, rarbg, 1337x, tgx, psarips, kontrast, minx, memento.
pub proof fn lemma_folder_noise_words(s: Seq<char>, q: int)
    ensures
        noise_at(Noise::Folder, s, q) <==> word_listed_at(seq!["2160p"@, "1080p"@, "720p"@, "480p"@, "576p"@, "x264"@, "x265"@, "h264"@, "h265"@, "10bit"@, "hdtv"@, "web-dl"@, "web dl"@, "webdl"@, "bluray"@, "brrip"@, "hdrip"@, "webrip"@, "hevc"@, "avc"@, "complete"@, "galaxy"@, "tv"@, "mkvcage"@, "eztv"@, "yts"@, "rarbg"@, "1337x"@, "tgx"@, "psarips"@, "kontrast"@, "minx"@, "memento"@], s, q),
{
    assert(noise_words(Noise::Folder) =~= seq!["2160p"@, "1080p"@, "720p"@, "480p"@, "576p"@, "x264"@, "x265"@, "h264"@, "h265"@, "10bit"@, "hdtv"@, "web-dl"@, "web dl"@, "webdl"@, "bluray"@, "brrip"@, "hdrip"@, "webrip"@, "hevc"@, "avc"@, "complete"@, "galaxy"@, "tv"@, "mkvcage"@, "eztv"@, "yts"@, "rarbg"@, "1337x"@, "tgx"@, "psarips"@, "kontrast"@, "minx"@, "memento"@]);
}

/// Show titles are cut at these quality words before they are stored: 2160p, 1080p, 720p, 480p, 576p, x264, x265, h264, h265, 10bit, hdtv, web-dl, webdl, bluray.
pub proof fn lemma_show_noise_words(s: Seq<char>, q: int)
    ensures
        noise_at(Noise::Show, s, q) <==> word_listed_at(seq!["2160p"@, "1080p"@, "720p"@, "480p"@, "576p"@, "x264"@, "x265"@, "h264"@, "h265"@, "10bit"@, "hdtv"@, "web-dl"@, "webdl"@, "bluray"@], s, q),
{
    assert(noise_words(Noise::Show) =~= seq!["2160p"@, "1080p"@, "720p"@, "480p"@, "576p"@, "x264"@, "x265"@, "h264"@, "h265"@, "10bit"@, "hdtv"@, "web-dl"@, "webdl"@, "bluray"@]);
}

/// A title holding one of these words is taken for release noise: 2160p, 1080p, 720p, 480p, 576p, x264, x265, h264, h265, 10bit, bluray, web-dl, web dl, webdl, webrip, hdtv, brrip, hdrip, proper, repack, hevc, avc, aac, ddp, nf, amzn, complete, galaxy, tv, mkvcage, eztv, yts, rarbg, 1337x, tgx, psarips, kontrast, minx, memento.
pub proof fn lemma_release_noise_words(s: Seq<char>, q: int)
    ensures
        noise_at(Noise::Release, s, q) <==> word_listed_at(seq!["2160p"@, "1080p"@, "720p"@, "480p"@, "576p"@, "x264"@, "x265"@, "h264"@, "h265"@, "10bit"@, "bluray"@, "web-dl"@, "web dl"@, "webdl"@, "webrip"@, "hdtv"@, "brrip"@, "hdrip"@, "proper"@, "repack"@, "hevc"@, "avc"@, "aac"@, "ddp"@, "nf"@, "amzn"@, "complete"@, "galaxy"@, "tv"@, "mkvcage"@, "eztv"@, "yts"@, "rarbg"@, "1337x"@, "tgx"@, "psarips"@, "kontrast"@, "minx"@, "memento"@], s, q),
{
    assert(noise_words(Noise::Release) =~= seq!["2160p"@, "1080p"@, "720p"@, "480p"@, "576p"@, "x264"@, "x265"@, "h264"@, "h265"@, "10bit"@, "bluray"@, "web-dl"@, "web dl"@, "webdl"@, "webrip"@, "hdtv"@, "brrip"@, "hdrip"@, "proper"@, "repack"@, "hevc"@, "avc"@, "aac"@, "ddp"@, "nf"@, "amzn"@, "complete"@, "galaxy"@, "tv"@, "mkvcage"@, "eztv"@, "yts"@, "rarbg"@, "1337x"@, "tgx"@, "psarips"@, "kontrast"@, "minx"@, "memento"@]);
}

/// Episode titles are cut at these quality and site words: 2160p, 1080p, 720p, 480p, 576p, x264, x265, h264, h265, 10bit, hdtv, web-dl, webdl, bluray, brrip, mkvcap, mkvcage, hevc, psa, eztv, torrenting, yts, rarbg, 1337x, tgx.
pub proof fn lemma_episode_noise_words(s: Seq<char>, q: int)
    ensures
        noise_at(Noise::Episode, s, q) <==> word_listed_at(seq!["2160p"@, "1080p"@, "720p"@, "480p"@, "576p"@, "x264"@, "x265"@, "h264"@, "h265"@, "10bit"@, "hdtv"@, "web-dl"@, "webdl"@, "bluray"@, "brrip"@, "mkvcap"@, "mkvcage"@, "hevc"@, "psa"@, "eztv"@, "torrenting"@, "yts"@, "rarbg"@, "1337x"@, "tgx"@], s, q),
{
    assert(noise_words(Noise::Episode) =~= seq!["2160p"@, "1080p"@, "720p"@, "480p"@, "576p"@, "x264"@, "x265"@, "h264"@, "h265"@, "10bit"@, "hdtv"@, "web-dl"@, "webdl"@, "bluray"@, "brrip"@, "mkvcap"@, "mkvcage"@, "hevc"@, "psa"@, "eztv"@, "torrenting"@, "yts"@, "rarbg"@, "1337x"@, "tgx"@]);
}

} // verus!
