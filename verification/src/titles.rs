//! Titles as the scanner stores them: show titles cleaned of season
//! markers, quality words, site prefixes and tagged brackets; episode
//! titles read from what follows an `SxxEyy` marker.
use vstd::prelude::*;
use crate::text::{is_ws, is_ws_exec, is_digit, is_digit_exec, ci_eq, ci_at, ci_at_exec, fold_exec, ws_run, ws_run_exec, lemma_ws_run, first_from, lemma_first_from, lemma_first_from_is, trim, collapse_ws, dots_to_spaces, dots_to_spaces_chars, trim_chars, collapse_ws_chars, slice_of, push_range, to_chars, from_chars};
use crate::pattern::{Lead, Core, Noise, Tail, cut_all, cut_all_chars, ws_back, ws_back_exec, lemma_ws_back};
use crate::parser::{file_name, stem_of_name, path_parts_of, file_name_of, stem_of_name_exec};

verus! {

// ---------------------------------------------------------------------------
// A leading torrent-site name: `www.eztv.com - `, `YTS: `, ...
// ---------------------------------------------------------------------------

/// A dash or a colon that separates a site name from the title.
pub open spec fn is_dash(c: char) -> bool {
    c == '-' || c == '\u{2013}' || c == '\u{2014}' || c == ':'
}

/// Length of the site name at `p`, or -1 when none stands there.
pub open spec fn site_word_len(s: Seq<char>, p: int) -> int {
    if ci_at(s, p, "torrenting"@) {
        10
    } else if ci_at(s, p, "eztv"@) {
        4
    } else if ci_at(s, p, "yts"@) {
        3
    } else if ci_at(s, p, "rarbg"@) {
        5
    } else if ci_at(s, p, "1337x"@) {
        5
    } else if ci_at(s, p, "kickass"@) {
        7
    } else if ci_at(s, p, "tgx"@) {
        3
    } else if ci_at(s, p, "limetorrents"@) {
        12
    } else if ci_at(s, p, "zooqle"@) {
        6
    } else {
        -1
    }
}

/// Where the site name starts: after `www` and whitespace, if they lead.
pub open spec fn site_start(s: Seq<char>) -> int {
    if ci_at(s, 0, "www"@) && ws_run(s, 3) >= 1 {
        3 + ws_run(s, 3) as int
    } else {
        0
    }
}

/// Where a leading site prefix (`[www ]site[ com] - `) ends, or -1 when
/// `s` does not start with one.
pub open spec fn site_prefix_end(s: Seq<char>) -> int {
    let p0 = site_start(s);
    let l = site_word_len(s, p0);
    if l < 0 {
        -1
    } else {
        let p1 = p0 + l;
        let w = ws_run(s, p1) as int;
        let p2 = if w >= 1 && ci_at(s, p1 + w, "com"@) {
            p1 + w + 3
        } else {
            p1
        };
        let q = p2 + ws_run(s, p2);
        if q < s.len() && is_dash(s[q]) {
            q + 1 + ws_run(s, q + 1)
        } else {
            -1
        }
    }
}

/// `s` without its leading site prefix.
pub open spec fn strip_site_prefix(s: Seq<char>) -> Seq<char> {
    if site_prefix_end(s) >= 0 {
        s.subrange(site_prefix_end(s), s.len() as int)
    } else {
        s
    }
}

fn site_word_len_exec(s: &Vec<char>, p: usize) -> (r: i64)
    ensures
        r == site_word_len(s@, p as int),
        r == -1 || (0 < r && p + r <= s.len()),
{
    proof {
        reveal_strlit("torrenting");
        reveal_strlit("eztv");
        reveal_strlit("yts");
        reveal_strlit("rarbg");
        reveal_strlit("1337x");
        reveal_strlit("kickass");
        reveal_strlit("tgx");
        reveal_strlit("limetorrents");
        reveal_strlit("zooqle");
    }
    if ci_at_exec(s, p, "torrenting") {
        10
    } else if ci_at_exec(s, p, "eztv") {
        4
    } else if ci_at_exec(s, p, "yts") {
        3
    } else if ci_at_exec(s, p, "rarbg") {
        5
    } else if ci_at_exec(s, p, "1337x") {
        5
    } else if ci_at_exec(s, p, "kickass") {
        7
    } else if ci_at_exec(s, p, "tgx") {
        3
    } else if ci_at_exec(s, p, "limetorrents") {
        12
    } else if ci_at_exec(s, p, "zooqle") {
        6
    } else {
        -1
    }
}

fn strip_site_prefix_chars(s: &Vec<char>) -> (r: Vec<char>)
    ensures
        r@ == strip_site_prefix(s@),
{
    let n = s.len();
    proof {
        reveal_strlit("www");
        reveal_strlit("com");
    }
    let p0: usize = if ci_at_exec(s, 0, "www") && ws_run_exec(s, 3) >= 1 {
        3 + ws_run_exec(s, 3)
    } else {
        0
    };
    let l = site_word_len_exec(s, p0);
    if l < 0 {
        return slice_of(s, 0, n);
    }
    let p1: usize = p0 + l as usize;
    let w = ws_run_exec(s, p1);
    let p2: usize = if w >= 1 && ci_at_exec(s, p1 + w, "com") {
        p1 + w + 3
    } else {
        p1
    };
    let q = p2 + ws_run_exec(s, p2);
    if q < n {
        let c = s[q];
        if c == '-' || c == '\u{2013}' || c == '\u{2014}' || c == ':' {
            let e = q + 1 + ws_run_exec(s, q + 1);
            return slice_of(s, e, n);
        }
    }
    slice_of(s, 0, n)
}

// ---------------------------------------------------------------------------
// Brackets that hold a release tag: `[EZTV]`, `(1080p x265)`, ...
// ---------------------------------------------------------------------------

pub open spec fn bracket_tags() -> Seq<Seq<char>> {
    seq![
        "eztv"@,
        "torrenting"@,
        "yts"@,
        "rarbg"@,
        "1337x"@,
        "x264"@,
        "x265"@,
        "1080p"@,
        "720p"@,
        "2160p"@,
        "h264"@,
        "h265"@,
        "bluray"@,
        "web-dl"@,
        "hdtv"@,
        "memento"@,
        "kontrast"@,
        "minx"@,
    ]
}

pub open spec fn is_opener(c: char) -> bool {
    c == '[' || c == '(' || c == '{'
}

pub open spec fn is_closer(c: char) -> bool {
    c == ']' || c == ')' || c == '}'
}

pub open spec fn closer_pred(s: Seq<char>) -> spec_fn(int) -> bool {
    |j: int| is_closer(s[j])
}

/// The first closing bracket after position `o` (`s.len()` if none).
pub open spec fn closer_after(s: Seq<char>, o: int) -> int {
    first_from(closer_pred(s), o + 1, s.len() as int)
}

/// Some release tag lies, regardless of ASCII case, within positions `a..b`.
pub open spec fn tag_within(s: Seq<char>, a: int, b: int) -> bool {
    exists|t: int, k: int|
        a <= t < b && 0 <= k < bracket_tags().len() && t + bracket_tags()[k].len() <= b && #[trigger] ci_at(
            s,
            t,
            bracket_tags()[k],
        )
}

/// A bracket opens at `o`, closes, and holds a release tag.
pub open spec fn tagged_at(s: Seq<char>, o: int) -> bool {
    &&& 0 <= o < s.len()
    &&& is_opener(s[o])
    &&& closer_after(s, o) < s.len()
    &&& tag_within(s, o + 1, closer_after(s, o))
}

pub open spec fn tagged_pred(s: Seq<char>) -> spec_fn(int) -> bool {
    |o: int| tagged_at(s, o)
}

/// The part of `s` from `from` on with every tagged bracket, and the
/// whitespace before it, removed; brackets found left to right.
pub open spec fn drop_tagged_from(s: Seq<char>, from: int) -> Seq<char>
    decreases s.len() - from,
{
    if from < 0 || from >= s.len() {
        Seq::<char>::empty()
    } else {
        let o = first_from(tagged_pred(s), from, s.len() as int);
        if o >= s.len() {
            s.subrange(from, s.len() as int)
        } else {
            proof {
                lemma_first_from(tagged_pred(s), from, s.len() as int);
                lemma_first_from(closer_pred(s), o + 1, s.len() as int);
            }
            s.subrange(from, ws_back(s, from, o)) + drop_tagged_from(s, closer_after(s, o) + 1)
        }
    }
}

fn bracket_tags_exec() -> (r: Vec<&'static str>)
    ensures
        r@.map_values(|t: &str| t@) == bracket_tags(),
{
    let r = vec![
        "eztv",
        "torrenting",
        "yts",
        "rarbg",
        "1337x",
        "x264",
        "x265",
        "1080p",
        "720p",
        "2160p",
        "h264",
        "h265",
        "bluray",
        "web-dl",
        "hdtv",
        "memento",
        "kontrast",
        "minx",
    ];
    assert(r@.map_values(|t: &str| t@) =~= bracket_tags());
    r
}

fn closer_after_exec(s: &Vec<char>, o: usize) -> (r: usize)
    requires
        o < s.len(),
    ensures
        r == closer_after(s@, o as int),
        o < r <= s.len(),
{
    let n = s.len();
    let mut j = o + 1;
    while j < n && !(s[j] == ']' || s[j] == ')' || s[j] == '}')
        invariant
            o + 1 <= j <= n == s@.len(),
            forall|i: int| o + 1 <= i < j ==> !is_closer(#[trigger] s@[i]),
        decreases n - j,
    {
        j = j + 1;
    }
    proof {
        let p = closer_pred(s@);
        assert forall|i: int| o + 1 <= i < j implies !#[trigger] p(i) by {}
        lemma_first_from_is(p, o + 1, n as int, j as int);
    }
    j
}

fn tag_within_exec(s: &Vec<char>, a: usize, b: usize) -> (r: bool)
    requires
        a <= b <= s.len(),
    ensures
        r == tag_within(s@, a as int, b as int),
{
    let tags = bracket_tags_exec();
    let ghost ts = bracket_tags();
    let mut t = a;
    while t < b
        invariant
            a <= t <= b <= s.len(),
            tags@.map_values(|x: &str| x@) == ts,
            ts == bracket_tags(),
            forall|t2: int, k: int|
                a <= t2 < t && 0 <= k < ts.len() && t2 + ts[k].len() <= b ==> !#[trigger] ci_at(
                    s@,
                    t2,
                    ts[k],
                ),
        decreases b - t,
    {
        let mut k: usize = 0;
        while k < tags.len()
            invariant
                a <= t < b <= s.len(),
                k <= tags.len() == ts.len(),
                tags@.map_values(|x: &str| x@) == ts,
                ts == bracket_tags(),
                forall|t2: int, k2: int|
                    a <= t2 < t && 0 <= k2 < ts.len() && t2 + ts[k2].len() <= b ==> !#[trigger] ci_at(
                        s@,
                        t2,
                        ts[k2],
                    ),
                forall|k2: int|
                    0 <= k2 < k && t + ts[k2].len() <= b ==> !#[trigger] ci_at(
                        s@,
                        t as int,
                        ts[k2],
                    ),
            decreases tags.len() - k,
        {
            let w = tags[k];
            assert(ts[k as int] == w@);
            let len = w.unicode_len();
            if len <= b - t && ci_at_exec(s, t, w) {
                assert(ci_at(s@, t as int, bracket_tags()[k as int]));
                return true;
            }
            k = k + 1;
        }
        t = t + 1;
    }
    proof {
        assert forall|t2: int, k: int|
            a <= t2 < b && 0 <= k < bracket_tags().len() && t2 + bracket_tags()[k].len() <= b
                implies !#[trigger] ci_at(s@, t2, bracket_tags()[k]) by {}
    }
    false
}

fn tagged_at_exec(s: &Vec<char>, o: usize) -> (r: bool)
    requires
        o < s.len(),
    ensures
        r == tagged_at(s@, o as int),
{
    let c = s[o];
    if !(c == '[' || c == '(' || c == '{') {
        return false;
    }
    let e = closer_after_exec(s, o);
    e < s.len() && tag_within_exec(s, o + 1, e)
}

fn drop_tagged_chars(s: &Vec<char>) -> (r: Vec<char>)
    ensures
        r@ == drop_tagged_from(s@, 0),
{
    let n = s.len();
    let mut out: Vec<char> = Vec::new();
    let mut from: usize = 0;
    while from < n
        invariant
            from <= n == s@.len(),
            drop_tagged_from(s@, 0) == out@ + drop_tagged_from(s@, from as int),
        decreases n - from,
    {
        let mut o = from;
        while o < n && !tagged_at_exec(s, o)
            invariant
                from <= o <= n == s@.len(),
                forall|j: int| from <= j < o ==> !#[trigger] tagged_at(s@, j),
            decreases n - o,
        {
            o = o + 1;
        }
        proof {
            let p = tagged_pred(s@);
            assert forall|j: int| from <= j < o implies !#[trigger] p(j) by {}
            if o < n {
                assert(p(o as int));
            }
            lemma_first_from_is(p, from as int, n as int, o as int);
        }
        if o >= n {
            push_range(&mut out, s, from, n);
            from = n;
        } else {
            let p = ws_back_exec(s, from, o);
            let e = closer_after_exec(s, o);
            push_range(&mut out, s, from, p);
            from = e + 1;
        }
    }
    assert(drop_tagged_from(s@, n as int) =~= Seq::<char>::empty());
    out
}

// ---------------------------------------------------------------------------
// Show titles.
// ---------------------------------------------------------------------------

/// The title under which a show is stored, made from a folder or file
/// name: dots and underscores read as spaces; a season marker
/// (`Season 2`, `S03`) and all after it, a quality word (`1080p`, `x265`)
/// and all after it, an `SxxEyy` marker and all after it cut off; a
/// leading torrent-site name and brackets holding a release tag removed;
/// whitespace made single and trimmed.
pub open spec fn show_title_for_db(raw: Seq<char>) -> Seq<char> {
    let r1 = dots_to_spaces(raw);
    let r2 = cut_all(Lead::AnyWs, Core::SeasonWord, Tail::LineEnd, r1);
    let r3 = cut_all(Lead::SomeWs, Core::Words(Noise::Show), Tail::LineEnd, r2);
    let r4 = cut_all(Lead::AnyWs, Core::EpisodeMarker, Tail::LineEnd, r3);
    let r5 = strip_site_prefix(r4);
    let r6 = drop_tagged_from(r5, 0);
    trim(collapse_ws(r6))
}

/// The title under which a show is stored, cleaned of release noise.
pub fn clean_show_title_for_db(raw: &str) -> (r: String)
    ensures
        r@ == show_title_for_db(raw@),
{
    let v = to_chars(raw);
    let r1 = dots_to_spaces_chars(&v);
    let r2 = cut_all_chars(Lead::AnyWs, Core::SeasonWord, Tail::LineEnd, &r1);
    let r3 = cut_all_chars(Lead::SomeWs, Core::Words(Noise::Show), Tail::LineEnd, &r2);
    let r4 = cut_all_chars(Lead::AnyWs, Core::EpisodeMarker, Tail::LineEnd, &r3);
    let r5 = strip_site_prefix_chars(&r4);
    let r6 = drop_tagged_chars(&r5);
    let r7 = collapse_ws_chars(&r6);
    let r8 = trim_chars(&r7);
    from_chars(&r8)
}

// ---------------------------------------------------------------------------
// Episode titles.
// ---------------------------------------------------------------------------

/// `SxxEyy` with exactly two digits each, regardless of case, at `q`.
pub open spec fn sxxexx2_at(s: Seq<char>, q: int) -> bool {
    &&& 0 <= q
    &&& q + 6 <= s.len()
    &&& ci_eq(s[q], 's')
    &&& is_digit(s[q + 1])
    &&& is_digit(s[q + 2])
    &&& ci_eq(s[q + 3], 'e')
    &&& is_digit(s[q + 4])
    &&& is_digit(s[q + 5])
}

pub open spec fn sxxexx2_pred(s: Seq<char>) -> spec_fn(int) -> bool {
    |q: int| sxxexx2_at(s, q)
}

/// Brackets, dashes and whitespace, which separate the words of an episode
/// title.
pub open spec fn is_junk(c: char) -> bool {
    c == '[' || c == '(' || c == '{' || c == '}' || c == ')' || c == ']' || c == '-' || c
        == '\u{2013}' || c == '\u{2014}' || is_ws(c)
}

/// Every maximal run of separators replaced by one space; `prev` says
/// whether the text before `s` ended in such a run.
pub open spec fn junk_collapse_from(s: Seq<char>, prev: bool) -> Seq<char>
    decreases s.len(),
{
    if s.len() == 0 {
        Seq::<char>::empty()
    } else if is_junk(s[0]) {
        if prev {
            junk_collapse_from(s.drop_first(), true)
        } else {
            seq![' '] + junk_collapse_from(s.drop_first(), true)
        }
    } else {
        seq![s[0]] + junk_collapse_from(s.drop_first(), false)
    }
}

/// The episode title a file name carries after its first `SxxEyy` marker:
/// quality and site words and all after them cut, dots and underscores
/// read as spaces, runs of brackets, dashes and whitespace made one space,
/// trimmed; none when nothing is left or there is no marker.
pub open spec fn episode_title_of(filename: Seq<char>) -> Option<Seq<char>> {
    match file_name(filename) {
        None => None,
        Some(f) => {
            let stem = stem_of_name(f);
            let q = first_from(sxxexx2_pred(stem), 0, stem.len() as int);
            if q >= stem.len() {
                None
            } else {
                let after = stem.subrange(q + 6, stem.len() as int);
                let c1 = cut_all(Lead::Bare, Core::Words(Noise::Episode), Tail::LineEnd, after);
                let c2 = trim(junk_collapse_from(dots_to_spaces(c1), false));
                if c2.len() == 0 {
                    None
                } else {
                    Some(c2)
                }
            }
        },
    }
}

fn junk_collapse_chars(s: &Vec<char>) -> (r: Vec<char>)
    ensures
        r@ == junk_collapse_from(s@, false),
{
    let n = s.len();
    let mut out: Vec<char> = Vec::new();
    let mut prev = false;
    let mut i: usize = 0;
    assert(s@.subrange(0, n as int) =~= s@);
    while i < n
        invariant
            i <= n == s@.len(),
            junk_collapse_from(s@, false) == out@ + junk_collapse_from(
                s@.subrange(i as int, n as int),
                prev,
            ),
        decreases n - i,
    {
        let c = s[i];
        assert(s@.subrange(i as int, n as int).drop_first() =~= s@.subrange(i + 1, n as int));
        if c == '[' || c == '(' || c == '{' || c == '}' || c == ')' || c == ']' || c == '-' || c
            == '\u{2013}' || c == '\u{2014}' || is_ws_exec(c) {
            if !prev {
                out.push(' ');
                assert(out@ + junk_collapse_from(s@.subrange(i + 1, n as int), true) =~= (
                out@.drop_last() + (seq![' '] + junk_collapse_from(
                    s@.subrange(i + 1, n as int),
                    true,
                ))));
            }
            prev = true;
        } else {
            out.push(c);
            assert(out@ + junk_collapse_from(s@.subrange(i + 1, n as int), false) =~= (
            out@.drop_last() + (seq![c] + junk_collapse_from(s@.subrange(i + 1, n as int), false))));
            prev = false;
        }
        i = i + 1;
    }
    assert(out@ + junk_collapse_from(s@.subrange(n as int, n as int), prev) =~= out@);
    out
}

fn sxxexx2_at_exec(s: &Vec<char>, q: usize) -> (r: bool)
    ensures
        r == sxxexx2_at(s@, q as int),
{
    if s.len() < 6 || q > s.len() - 6 {
        return false;
    }
    fold_exec(s[q]) == 115 && is_digit_exec(s[q + 1]) && is_digit_exec(s[q + 2]) && fold_exec(
        s[q + 3],
    ) == 101 && is_digit_exec(s[q + 4]) && is_digit_exec(s[q + 5])
}

/// The episode title carried by `filename`, if any.
pub fn extract_episode_title(filename: &str) -> (r: Option<String>)
    ensures
        match r {
            Some(t) => episode_title_of(filename@) == Some(t@),
            None => episode_title_of(filename@) is None,
        },
{
    let v = to_chars(filename);
    let p = path_parts_of(&v);
    let f = match file_name_of(&p) {
        Some(f) => f,
        None => return None,
    };
    let stem = stem_of_name_exec(&f);
    let n = stem.len();
    let mut q: usize = 0;
    while q < n && !sxxexx2_at_exec(&stem, q)
        invariant
            q <= n == stem@.len(),
            forall|j: int| 0 <= j < q ==> !#[trigger] sxxexx2_at(stem@, j),
        decreases n - q,
    {
        q = q + 1;
    }
    proof {
        let pr = sxxexx2_pred(stem@);
        assert forall|j: int| 0 <= j < q implies !#[trigger] pr(j) by {}
        if q < n {
            assert(pr(q as int));
        }
        lemma_first_from_is(pr, 0, n as int, q as int);
    }
    if q >= n {
        return None;
    }
    let after = slice_of(&stem, q + 6, n);
    let c1 = cut_all_chars(Lead::Bare, Core::Words(Noise::Episode), Tail::LineEnd, &after);
    let c2 = dots_to_spaces_chars(&c1);
    let c3 = junk_collapse_chars(&c2);
    let c4 = trim_chars(&c3);
    if c4.len() == 0 {
        None
    } else {
        Some(from_chars(&c4))
    }
}

/// A name made safe for the file system: `\ / * ? : " < > |` removed,
/// then trimmed.
pub fn sanitize_name(name: &str) -> (r: String)
    ensures
        r@ == crate::renamer::sanitized(name@),
{
    let renamer = crate::renamer::Renamer::new(None, None);
    renamer.sanitize(name)
}

/// The quality, codec and release-site words at which an episode title
/// ends.
pub open spec fn quality_word_list() -> Seq<Seq<char>> {
    seq!["2160p"@, "1080p"@, "720p"@, "480p"@, "576p"@, "x264"@, "x265"@, "h264"@, "h265"@, "10bit"@, "hdtv"@, "web-dl"@, "webdl"@, "bluray"@, "brrip"@, "mkvcap"@, "mkvcage"@, "hevc"@, "psa"@, "eztv"@, "torrenting"@, "yts"@, "rarbg"@, "1337x"@, "tgx"@]
}

/// One of those words stands at `q` as a whole word, in any ASCII case.
pub open spec fn quality_word_at(s: Seq<char>, q: int) -> bool {
    &&& crate::text::boundary_before(s, q)
    &&& exists|k: int|
        0 <= k < quality_word_list().len() && #[trigger] ci_at(s, q, quality_word_list()[k])
            && crate::text::boundary_after(s, q + quality_word_list()[k].len())
}

/// The text of a file name's stem after its first `SxxEyy` marker.
pub open spec fn text_after_marker(filename: Seq<char>) -> Option<Seq<char>> {
    match file_name(filename) {
        None => None,
        Some(f) => {
            let stem = stem_of_name(f);
            let q = first_from(sxxexx2_pred(stem), 0, stem.len() as int);
            if q >= stem.len() {
                None
            } else {
                Some(stem.subrange(q + 6, stem.len() as int))
            }
        },
    }
}

/// A kept piece of text as an episode title: dots and underscores read as
/// spaces, runs of brackets, dashes and whitespace made one space,
/// trimmed; none when nothing is left.
pub open spec fn title_from_kept(kept: Seq<char>) -> Option<Seq<char>> {
    let c = trim(junk_collapse_from(dots_to_spaces(kept), false));
    if c.len() == 0 {
        None
    } else {
        Some(c)
    }
}

/// An episode title stops at the first quality word: when one of the
/// quality words stands as a whole word in the text after the marker
/// (and no line break follows it), the title is made of the text before
/// the first such word alone; when none stands there, of all that text.
pub proof fn lemma_episode_title_stops_at_quality(filename: Seq<char>, q: int)
    requires
        text_after_marker(filename) is Some,
        ({
            let after = text_after_marker(filename)->0;
            ||| (0 <= q < after.len() && quality_word_at(after, q)
                && (forall|p: int| 0 <= p < q ==> !#[trigger] quality_word_at(after, p))
                && (forall|j: int| q < j < after.len() ==> after[j] != '\n'))
            ||| (q == after.len() && forall|p: int| 0 <= p < after.len() ==> !#[trigger] quality_word_at(after, p))
        }),
    ensures
        episode_title_of(filename) == title_from_kept(text_after_marker(filename)->0.subrange(0, q)),
{
    let after = text_after_marker(filename)->0;
    assert(crate::pattern::noise_words(Noise::Episode) =~= quality_word_list());
    assert forall|p: int| crate::pattern::noise_at(Noise::Episode, after, p) == quality_word_at(after, p) by {}
    let pr = crate::pattern::cand_pred(Lead::Bare, Core::Words(Noise::Episode), after, 0);
    assert forall|p: int| 0 <= p < q implies !#[trigger] pr(p) by {
        assert(!quality_word_at(after, p));
    }
    crate::text::lemma_first_from_is(pr, 0, after.len() as int, q);
    if q < after.len() {
        assert(pr(q));
        let le = crate::pattern::line_end(after, q);
        crate::text::lemma_first_from(crate::pattern::newline_pred(after), q + 1, after.len() as int);
        assert(le == after.len());
        assert(crate::pattern::cut_all_from(Lead::Bare, Core::Words(Noise::Episode), Tail::LineEnd, after, le)
            =~= Seq::<char>::empty());
        assert(cut_all(Lead::Bare, Core::Words(Noise::Episode), Tail::LineEnd, after) =~= after.subrange(0, q));
    } else if after.len() > 0 {
        assert(cut_all(Lead::Bare, Core::Words(Noise::Episode), Tail::LineEnd, after) =~= after.subrange(0, q));
    } else {
        assert(cut_all(Lead::Bare, Core::Words(Noise::Episode), Tail::LineEnd, after) =~= after.subrange(0, q));
    }
}

} // verus!
