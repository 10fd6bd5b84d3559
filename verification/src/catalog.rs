//! The genre and language lists offered for filtering: every distinct
//! value found in the stored movies and shows, in order.
use vstd::prelude::*;
use crate::text::{strs, to_chars, from_chars, push_str};
use crate::models::LibraryId;
use crate::nfo::{json_string_list, parse_string_list};

verus! {

/// `a` sorts before `b`: the first character where they differ is
/// smaller in `a`, or `a` is a proper prefix of `b` (the order of `str`).
pub open spec fn str_lt(a: Seq<char>, b: Seq<char>) -> bool
    decreases a.len(),
{
    if b.len() == 0 {
        false
    } else if a.len() == 0 {
        true
    } else if a[0] != b[0] {
        (a[0] as u32) < (b[0] as u32)
    } else {
        str_lt(a.drop_first(), b.drop_first())
    }
}

proof fn lemma_str_lt_total(a: Seq<char>, b: Seq<char>)
    requires
        a != b,
    ensures
        str_lt(a, b) || str_lt(b, a),
    decreases a.len(),
{
    if a.len() > 0 && b.len() > 0 && a[0] == b[0] {
        if a.drop_first() == b.drop_first() {
            assert(a =~= seq![a[0]] + a.drop_first());
            assert(b =~= seq![b[0]] + b.drop_first());
        }
        lemma_str_lt_total(a.drop_first(), b.drop_first());
    } else if a.len() > 0 && b.len() > 0 {
        vstd::utf8::char_u32_cast(a[0], a[0] as u32);
        vstd::utf8::char_u32_cast(b[0], b[0] as u32);
    } else if a.len() == 0 && b.len() == 0 {
        assert(a =~= b);
    }
}

proof fn lemma_str_lt_transitive(a: Seq<char>, b: Seq<char>, c: Seq<char>)
    requires
        str_lt(a, b),
        str_lt(b, c),
    ensures
        str_lt(a, c),
    decreases a.len(),
{
    if a.len() > 0 && b.len() > 0 && c.len() > 0 && a[0] == b[0] && b[0] == c[0] {
        lemma_str_lt_transitive(a.drop_first(), b.drop_first(), c.drop_first());
    }
}

fn str_less(a: &Vec<char>, b: &Vec<char>) -> (r: bool)
    ensures
        r == str_lt(a@, b@),
{
    let mut i: usize = 0;
    assert(a@.subrange(0, a@.len() as int) =~= a@);
    assert(b@.subrange(0, b@.len() as int) =~= b@);
    while i < a.len() && i < b.len() && a[i] == b[i]
        invariant
            i <= a@.len(),
            i <= b@.len(),
            str_lt(a@, b@) == str_lt(a@.subrange(i as int, a@.len() as int), b@.subrange(
                i as int,
                b@.len() as int,
            )),
        decreases a.len() - i,
    {
        let ghost sa = a@.subrange(i as int, a@.len() as int);
        let ghost sb = b@.subrange(i as int, b@.len() as int);
        assert(sa.drop_first() =~= a@.subrange(i + 1, a@.len() as int));
        assert(sb.drop_first() =~= b@.subrange(i + 1, b@.len() as int));
        i = i + 1;
    }
    if i >= b.len() {
        false
    } else if i >= a.len() {
        true
    } else {
        let ca = a[i];
        let cb = b[i];
        proof {
            let sa = a@.subrange(i as int, a@.len() as int);
            let sb = b@.subrange(i as int, b@.len() as int);
            assert(sa[0] == ca && sb[0] == cb);
        }
        let r = (ca as u32) < (cb as u32);
        proof {
            let sa = a@.subrange(i as int, a@.len() as int);
            let sb = b@.subrange(i as int, b@.len() as int);
            assert(sa[0] != sb[0]);
            assert(str_lt(sa, sb) == ((ca as u32) < (cb as u32)));
        }
        r
    }
}

proof fn lemma_push_contains(s: Seq<Seq<char>>, a: Seq<char>, y: Seq<char>)
    ensures
        s.push(a).contains(y) <==> (s.contains(y) || y == a),
{
    if s.push(a).contains(y) {
        let k = choose|k: int| 0 <= k < s.push(a).len() && s.push(a)[k] == y;
        if k < s.len() {
            assert(s[k] == y);
        }
    }
    if s.contains(y) {
        let k = choose|k: int| 0 <= k < s.len() && s[k] == y;
        assert(s.push(a)[k] == y);
    }
    if y == a {
        assert(s.push(a)[s.len() as int] == y);
    }
}

/// What `a` holds is what `b` or `c` holds.
pub open spec fn joins(a: Seq<Seq<char>>, b: Seq<Seq<char>>, c: Seq<Seq<char>>) -> bool {
    forall|x: Seq<char>| #[trigger] a.contains(x) <==> (b.contains(x) || c.contains(x))
}

/// `v` is in strictly increasing order.
pub open spec fn strictly_sorted(v: Seq<Seq<char>>) -> bool {
    forall|i: int, j: int| 0 <= i < j < v.len() ==> str_lt(#[trigger] v[i], #[trigger] v[j])
}

/// Adds `x` to the strictly sorted `v` unless it is there.
fn insert_sorted(v: &mut Vec<String>, x: String)
    requires
        strictly_sorted(strs(old(v)@)),
    ensures
        strictly_sorted(strs(final(v)@)),
        forall|y: Seq<char>| strs(final(v)@).contains(y) <==> (strs(old(v)@).contains(y) || y == x@),
{
    let ghost before = strs(v@);
    let xv = to_chars(x.as_str());
    let mut pos: usize = 0;
    while pos < v.len() && str_less(&to_chars(v[pos].as_str()), &xv)
        invariant
            pos <= v@.len(),
            strs(v@) == before,
            xv@ == x@,
            strictly_sorted(before),
            forall|k: int| 0 <= k < pos ==> str_lt(#[trigger] before[k], x@),
        decreases v.len() - pos,
    {
        pos = pos + 1;
    }
    if pos < v.len() && crate::text::str_eq(v[pos].as_str(), x.as_str()) {
        proof {
            assert(before[pos as int] == x@);
            assert forall|y: Seq<char>| before.contains(y) <==> (before.contains(y) || y == x@) by {
                if y == x@ {
                    assert(before[pos as int] == y);
                }
            }
        }
        return;
    }
    proof {
        if pos < v@.len() {
            assert(!str_lt(before[pos as int], x@));
            assert(before[pos as int] != x@);
            lemma_str_lt_total(before[pos as int], x@);
            assert forall|j: int| pos <= j < before.len() implies str_lt(x@, #[trigger] before[j]) by {
                if j > pos {
                    lemma_str_lt_transitive(x@, before[pos as int], before[j]);
                }
            }
        }
    }
    let ghost xs = x@;
    v.insert(pos, x);
    proof {
        let after = strs(v@);
        assert(after =~= before.insert(pos as int, xs));
        assert forall|i: int, j: int| 0 <= i < j < after.len() implies str_lt(
            #[trigger] after[i],
            #[trigger] after[j],
        ) by {
            if j < pos {
            } else if j == pos {
                assert(after[i] == before[i]);
            } else if i < pos {
                assert(after[i] == before[i]);
                assert(after[j] == before[j - 1]);
                assert(str_lt(before[i], xs));
                if j - 1 >= pos {
                    assert(str_lt(xs, before[j - 1]));
                    lemma_str_lt_transitive(before[i], xs, before[j - 1]);
                }
            } else if i == pos {
                assert(after[j] == before[j - 1]);
            } else {
                assert(after[i] == before[i - 1]);
                assert(after[j] == before[j - 1]);
            }
        }
        assert forall|y: Seq<char>| after.contains(y) <==> (before.contains(y) || y == xs) by {
            if after.contains(y) {
                let k = choose|k: int| 0 <= k < after.len() && after[k] == y;
                if k < pos {
                    assert(before[k] == y);
                } else if k > pos {
                    assert(before[k - 1] == y);
                }
            }
            if before.contains(y) {
                let k = choose|k: int| 0 <= k < before.len() && before[k] == y;
                if k < pos {
                    assert(after[k] == y);
                } else {
                    assert(after[k + 1] == y);
                }
            }
            if y == xs {
                assert(after[pos as int] == y);
            }
        }
    }
}

/// `x` is among the genres of the stored JSON list `row` (a row that
/// does not read lists none).
pub open spec fn row_lists(row: Seq<char>, x: Seq<char>) -> bool {
    match json_string_list(row) {
        Some(l) => l.contains(x),
        None => false,
    }
}

/// `x` is a genre of one of the stored genre lists `rows`.
pub open spec fn genre_listed(rows: Seq<Seq<char>>, x: Seq<char>) -> bool {
    exists|i: int| 0 <= i < rows.len() && #[trigger] row_lists(rows[i], x)
}

proof fn lemma_genre_listed_push(s: Seq<Seq<char>>, r: Seq<char>, x: Seq<char>)
    ensures
        genre_listed(s.push(r), x) <==> (genre_listed(s, x) || row_lists(r, x)),
{
    let t = s.push(r);
    if genre_listed(t, x) {
        let j = choose|j: int| 0 <= j < t.len() && #[trigger] row_lists(t[j], x);
        if j < s.len() {
            assert(t[j] == s[j]);
            assert(row_lists(s[j], x));
        }
    }
    if genre_listed(s, x) {
        let j = choose|j: int| 0 <= j < s.len() && #[trigger] row_lists(s[j], x);
        assert(t[j] == s[j]);
        assert(row_lists(t[j], x));
    }
    if row_lists(r, x) {
        assert(t[s.len() as int] == r);
        assert(row_lists(t[s.len() as int], x));
    }
}

/// Every genre of the stored genre lists `rows`, once each, in order.
pub fn get_unique_genres(rows: &[String]) -> (r: Vec<String>)
    ensures
        strictly_sorted(strs(r@)),
        forall|x: Seq<char>| strs(r@).contains(x) <==> genre_listed(strs(rows@), x),
{
    let ghost rs = strs(rows@);
    let mut out: Vec<String> = Vec::new();
    let mut i: usize = 0;
    while i < rows.len()
        invariant
            i <= rows@.len(),
            rs == strs(rows@),
            strictly_sorted(strs(out@)),
            forall|x: Seq<char>| strs(out@).contains(x) <==> genre_listed(rs.subrange(0, i as int), x),
        decreases rows.len() - i,
    {
        let ghost prev = strs(out@);
        assert(rs[i as int] == rows@[i as int]@);
        match parse_string_list(rows[i].as_str()) {
            Some(list) => {
                let ghost l = strs(list@);
                let mut k: usize = 0;
                while k < list.len()
                    invariant
                        k <= list@.len(),
                        l == strs(list@),
                        strictly_sorted(strs(out@)),
                        joins(strs(out@), prev, l.subrange(0, k as int)),
                    decreases list.len() - k,
                {
                    let g = from_chars(&to_chars(list[k].as_str()));
                    assert(g@ == l[k as int]);
                    insert_sorted(&mut out, g);
                    proof {
                        let s0 = l.subrange(0, k as int);
                        let s1 = l.subrange(0, k + 1);
                        assert(s1 =~= s0.push(l[k as int]));
                        assert forall|x: Seq<char>| #[trigger] strs(out@).contains(x) <==> (prev.contains(x) || s1.contains(x)) by {
                            lemma_push_contains(s0, l[k as int], x);
                        }
                        assert(joins(strs(out@), prev, s1));
                    }
                    k = k + 1;
                }
                proof {
                    assert(l.subrange(0, k as int) =~= l);
                    assert(joins(strs(out@), prev, l));
                    assert(json_string_list(rs[i as int]) == Some(l));
                    assert forall|x: Seq<char>| #[trigger] strs(out@).contains(x) <==> (prev.contains(x) || row_lists(rs[i as int], x)) by {
                        assert(row_lists(rs[i as int], x) == l.contains(x));
                        assert(strs(out@).contains(x) <==> (prev.contains(x) || l.contains(x)));
                    }
                }
            },
            None => {
                proof {
                    assert forall|x: Seq<char>| strs(out@).contains(x) <==> (prev.contains(x) || row_lists(rs[i as int], x)) by {}
                }
            },
        }
        proof {
            let s0 = rs.subrange(0, i as int);
            let s1 = rs.subrange(0, i + 1);
            assert(s1 =~= s0.push(rs[i as int]));
            assert(forall|x: Seq<char>| prev.contains(x) <==> genre_listed(s0, x));
            assert(forall|x: Seq<char>| strs(out@).contains(x) <==> (prev.contains(x) || row_lists(rs[i as int], x)));
            assert forall|x: Seq<char>| strs(out@).contains(x) <==> genre_listed(s1, x) by {
                lemma_genre_listed_push(s0, rs[i as int], x);
            }
        }
        i = i + 1;
    }
    proof {
        assert(rs.subrange(0, rows@.len() as int) =~= rs);
    }
    out
}

/// Every stored language of `rows`, once each, in order.
pub fn get_unique_languages(rows: &[String]) -> (r: Vec<String>)
    ensures
        strictly_sorted(strs(r@)),
        forall|x: Seq<char>| strs(r@).contains(x) <==> strs(rows@).contains(x),
{
    let mut out: Vec<String> = Vec::new();
    let mut i: usize = 0;
    while i < rows.len()
        invariant
            i <= rows@.len(),
            strictly_sorted(strs(out@)),
            forall|x: Seq<char>| strs(out@).contains(x) <==> strs(rows@).subrange(0, i as int).contains(x),
        decreases rows.len() - i,
    {
        let ghost prev = strs(out@);
        let g = from_chars(&to_chars(rows[i].as_str()));
        insert_sorted(&mut out, g);
        proof {
            let s0 = strs(rows@).subrange(0, i as int);
            let s1 = strs(rows@).subrange(0, i + 1);
            assert(s1 =~= s0.push(rows@[i as int]@));
            assert forall|x: Seq<char>| strs(out@).contains(x) <==> s1.contains(x) by {
                lemma_push_contains(s0, rows@[i as int]@, x);
            }
        }
        i = i + 1;
    }
    proof {
        assert(strs(rows@).subrange(0, rows@.len() as int) =~= strs(rows@));
    }
    out
}

/// A value bound to a `?` of a listing query, as the query sees it.
pub enum ArgView {
    Library(int),
    Text(Seq<char>),
}

/// A value bound to a `?` of a listing query.
#[derive(Clone, Debug, PartialEq, Eq)]
pub enum FilterArg {
    Library(i64),
    Text(String),
}

impl View for FilterArg {
    type V = ArgView;

    open spec fn view(&self) -> ArgView {
        match self {
            FilterArg::Library(id) => ArgView::Library(*id as int),
            FilterArg::Text(t) => ArgView::Text(t@),
        }
    }
}

/// The SQL text of a listing and the values for its `?`s, in order.
#[derive(Clone, Debug)]
pub struct ListingQuery {
    pub sql: String,
    pub args: Vec<FilterArg>,
}

pub open spec fn arg_views(v: Seq<FilterArg>) -> Seq<ArgView> {
    v.map_values(|a: FilterArg| a@)
}

pub open spec fn opt_text(o: Option<String>) -> Option<Seq<char>> {
    match o {
        Some(t) => Some(t@),
        None => None,
    }
}

/// A filter applies when it is given and not empty.
pub open spec fn filter_on(f: Option<Seq<char>>) -> bool {
    f is Some && f->0.len() > 0
}

/// What a genre filter matches in the stored JSON list: the genre in quotes.
pub open spec fn genre_pattern(g: Seq<char>) -> Seq<char> {
    "%\""@ + g + "\"%"@
}

/// The conditions added for the filters that apply, on the table named `t`.
pub open spec fn filter_sql(t: Seq<char>, lib: bool, genre: bool, language: bool) -> Seq<char> {
    (if lib { " AND "@ + t + ".library_id = ?"@ } else { Seq::<char>::empty() })
        + (if genre { " AND "@ + t + ".genres LIKE ?"@ } else { Seq::<char>::empty() })
        + (if language { " AND "@ + t + ".language = ?"@ } else { Seq::<char>::empty() })
}

/// The values bound to those conditions, in the same order.
pub open spec fn filter_args(lib: Option<LibraryId>, genre: Option<Seq<char>>, language: Option<Seq<char>>) -> Seq<ArgView> {
    (match lib {
        Some(id) => seq![ArgView::Library(id.0 as int)],
        None => Seq::<ArgView>::empty(),
    }) + (if filter_on(genre) {
        seq![ArgView::Text(genre_pattern(genre->0))]
    } else {
        Seq::<ArgView>::empty()
    }) + (if filter_on(language) {
        seq![ArgView::Text(language->0)]
    } else {
        Seq::<ArgView>::empty()
    })
}

pub open spec fn movie_select() -> Seq<char> {
    "SELECT m.*, mf.preview_path, mf.codec as video_codec, mf.audio_codec FROM movies m LEFT JOIN movie_files mf ON m.id = mf.movie_id WHERE 1=1"@
}

pub open spec fn show_select() -> Seq<char> {
    "SELECT t.*, (SELECT e.preview_path FROM episodes e JOIN seasons s ON e.season_id = s.id WHERE s.show_id = t.id AND e.preview_path IS NOT NULL LIMIT 1) as preview_path FROM tv_shows t WHERE 1=1"@
}

fn text_filter_on(f: &Option<String>) -> (r: bool)
    ensures
        r == filter_on(opt_text(*f)),
{
    match f {
        Some(t) => t.unicode_len() > 0,
        None => false,
    }
}

/// Adds the conditions and values of the filters that apply.
fn push_filters(
    sql: &mut Vec<char>,
    args: &mut Vec<FilterArg>,
    t: &str,
    library_id: Option<LibraryId>,
    genre: &Option<String>,
    language: &Option<String>,
)
    ensures
        final(sql)@ == old(sql)@ + filter_sql(
            t@,
            library_id is Some,
            filter_on(opt_text(*genre)),
            filter_on(opt_text(*language)),
        ),
        arg_views(final(args)@) == arg_views(old(args)@) + filter_args(
            library_id,
            opt_text(*genre),
            opt_text(*language),
        ),
{
    let ghost s0 = sql@;
    let ghost a0 = arg_views(args@);
    let ghost t_lib = if library_id is Some { " AND "@ + t@ + ".library_id = ?"@ } else { Seq::<char>::empty() };
    let ghost a_lib = match library_id {
        Some(id) => seq![ArgView::Library(id.0 as int)],
        None => Seq::<ArgView>::empty(),
    };
    if let Some(id) = library_id {
        push_str(sql, " AND ");
        push_str(sql, t);
        push_str(sql, ".library_id = ?");
        args.push(FilterArg::Library(id.0));
    }
    proof {
        assert(sql@ =~= s0 + t_lib);
        assert(arg_views(args@) =~= a0 + a_lib);
    }
    let ghost s1 = sql@;
    let ghost a1 = arg_views(args@);
    let g_on = text_filter_on(genre);
    let ghost t_genre = if g_on { " AND "@ + t@ + ".genres LIKE ?"@ } else { Seq::<char>::empty() };
    let ghost a_genre = if g_on {
        seq![ArgView::Text(genre_pattern(opt_text(*genre)->0))]
    } else {
        Seq::<ArgView>::empty()
    };
    if g_on {
        if let Some(g) = genre {
            push_str(sql, " AND ");
            push_str(sql, t);
            push_str(sql, ".genres LIKE ?");
            let mut pat: Vec<char> = Vec::new();
            push_str(&mut pat, "%\"");
            push_str(&mut pat, g.as_str());
            push_str(&mut pat, "\"%");
            args.push(FilterArg::Text(from_chars(&pat)));
        }
    }
    proof {
        assert(sql@ =~= s1 + t_genre);
        assert(arg_views(args@) =~= a1 + a_genre);
    }
    let ghost s2 = sql@;
    let ghost a2 = arg_views(args@);
    let l_on = text_filter_on(language);
    let ghost t_lang = if l_on { " AND "@ + t@ + ".language = ?"@ } else { Seq::<char>::empty() };
    let ghost a_lang = if l_on {
        seq![ArgView::Text(opt_text(*language)->0)]
    } else {
        Seq::<ArgView>::empty()
    };
    if l_on {
        if let Some(l) = language {
            push_str(sql, " AND ");
            push_str(sql, t);
            push_str(sql, ".language = ?");
            args.push(FilterArg::Text(from_chars(&to_chars(l.as_str()))));
        }
    }
    proof {
        assert(sql@ =~= s2 + t_lang);
        assert(arg_views(args@) =~= a2 + a_lang);
        assert(sql@ =~= s0 + (t_lib + t_genre + t_lang));
        assert(arg_views(args@) =~= a0 + (a_lib + a_genre + a_lang));
    }
}

/// The query that lists the movies, with their first file's preview and
/// codecs, narrowed to a library, a genre and a language where these are
/// given (an empty genre or language narrows nothing), by title.
pub fn movie_listing_query(library_id: Option<LibraryId>, genre: &Option<String>, language: &Option<String>) -> (r: ListingQuery)
    ensures
        r.sql@ == movie_select() + filter_sql(
            "m"@,
            library_id is Some,
            filter_on(opt_text(*genre)),
            filter_on(opt_text(*language)),
        ) + " GROUP BY m.id ORDER BY m.title ASC"@,
        arg_views(r.args@) == filter_args(library_id, opt_text(*genre), opt_text(*language)),
{
    let mut sql: Vec<char> = Vec::new();
    push_str(&mut sql, "SELECT m.*, mf.preview_path, mf.codec as video_codec, mf.audio_codec FROM movies m LEFT JOIN movie_files mf ON m.id = mf.movie_id WHERE 1=1");
    let mut args: Vec<FilterArg> = Vec::new();
    push_filters(&mut sql, &mut args, "m", library_id, genre, language);
    push_str(&mut sql, " GROUP BY m.id ORDER BY m.title ASC");
    proof {
        assert(arg_views(Seq::<FilterArg>::empty()) =~= Seq::<ArgView>::empty());
        assert(arg_views(args@) =~= filter_args(library_id, opt_text(*genre), opt_text(*language)));
    }
    ListingQuery { sql: from_chars(&sql), args }
}

/// The query that lists the shows, each with a preview of one of its
/// episodes, narrowed as for movies, by title.
pub fn show_listing_query(library_id: Option<LibraryId>, genre: &Option<String>, language: &Option<String>) -> (r: ListingQuery)
    ensures
        r.sql@ == show_select() + filter_sql(
            "t"@,
            library_id is Some,
            filter_on(opt_text(*genre)),
            filter_on(opt_text(*language)),
        ) + " ORDER BY t.title ASC"@,
        arg_views(r.args@) == filter_args(library_id, opt_text(*genre), opt_text(*language)),
{
    let mut sql: Vec<char> = Vec::new();
    push_str(&mut sql, "SELECT t.*, (SELECT e.preview_path FROM episodes e JOIN seasons s ON e.season_id = s.id WHERE s.show_id = t.id AND e.preview_path IS NOT NULL LIMIT 1) as preview_path FROM tv_shows t WHERE 1=1");
    let mut args: Vec<FilterArg> = Vec::new();
    push_filters(&mut sql, &mut args, "t", library_id, genre, language);
    push_str(&mut sql, " ORDER BY t.title ASC");
    proof {
        assert(arg_views(Seq::<FilterArg>::empty()) =~= Seq::<ArgView>::empty());
        assert(arg_views(args@) =~= filter_args(library_id, opt_text(*genre), opt_text(*language)));
    }
    ListingQuery { sql: from_chars(&sql), args }
}

} // verus!
