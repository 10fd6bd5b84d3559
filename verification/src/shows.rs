//! Recognising the same TV show under different titles: comparison keys,
//! years, the choice of a stored show for an incoming title, and the plan
//! that merges duplicate shows.
use vstd::prelude::*;
use vstd::utf8::encode_utf8;
use crate::text::{is_digit, trim, collapse_ws, squash, dots_to_spaces, dots_to_spaces_chars, squash_chars, trim_chars, collapse_ws_chars, to_chars, from_chars, str_eq, strs};
use crate::pattern::{Lead, Core, Noise, Tail, cut_all, cut_first, cut_all_chars, cut_first_chars, first_cand, year_at};
use crate::parser::num_value;

verus! {

/// What `str::to_lowercase` makes of a text (full Unicode lower-case
/// mapping).
pub uninterp spec fn lowercase(s: Seq<char>) -> Seq<char>;

/// Calls `str::to_lowercase`.  The contract only names the result; the
/// Unicode case tables are not restated.
#[verifier::external_body]
pub(crate) fn lowercase_string(s: &str) -> (r: String)
    ensures
        r@ == lowercase(s@),
{
    s.to_lowercase()
}

/// Separators that title keys read as spaces.
pub open spec fn is_key_sep(c: char) -> bool {
    c == '.' || c == '_' || c == '-' || c == '(' || c == ')' || c == '[' || c == ']'
}

pub open spec fn seps_to_spaces(s: Seq<char>) -> Seq<char> {
    s.map_values(|c: char| if is_key_sep(c) { ' ' } else { c })
}

fn seps_to_spaces_chars(s: &Vec<char>) -> (r: Vec<char>)
    ensures
        r@ == seps_to_spaces(s@),
{
    let mut out: Vec<char> = Vec::new();
    let mut i: usize = 0;
    while i < s.len()
        invariant
            i <= s.len(),
            out@ == seps_to_spaces(s@.subrange(0, i as int)),
        decreases s.len() - i,
    {
        let c = s[i];
        let d = if c == '.' || c == '_' || c == '-' || c == '(' || c == ')' || c == '[' || c
            == ']' {
            ' '
        } else {
            c
        };
        out.push(d);
        assert(seps_to_spaces(s@.subrange(0, i + 1)) =~= seps_to_spaces(
            s@.subrange(0, i as int),
        ).push(d));
        i = i + 1;
    }
    assert(s@.subrange(0, s.len() as int) =~= s@);
    out
}

/// A title already in lower case as compared when a show is stored:
/// separators read as spaces, years removed, whitespace made single and
/// trimmed.
pub open spec fn comparison_form_of_lower(l: Seq<char>) -> Seq<char> {
    trim(collapse_ws(cut_all(Lead::Bare, Core::Year, Tail::Year, seps_to_spaces(l))))
}

/// A title as compared when a show is stored: its lower case form, made
/// into the comparison form.
pub open spec fn comparison_form(s: Seq<char>) -> Seq<char> {
    comparison_form_of_lower(lowercase(s))
}

/// The comparison form of a title already in lower case.
pub fn comparison_form_lower(lower: &str) -> (r: String)
    ensures
        r@ == comparison_form_of_lower(lower@),
{
    let v = to_chars(lower);
    let a = seps_to_spaces_chars(&v);
    let b = cut_all_chars(Lead::Bare, Core::Year, Tail::Year, &a);
    let c = collapse_ws_chars(&b);
    let d = trim_chars(&c);
    from_chars(&d)
}

/// The form under which titles are compared when a show is stored.
pub fn normalize_for_comparison(s: &str) -> (r: String)
    ensures
        r@ == comparison_form(s@),
{
    let l = lowercase_string(s);
    comparison_form_lower(l.as_str())
}

/// The first year (1900 to 2099, a whole word) in `s`.
pub open spec fn year_in(s: Seq<char>) -> Option<int> {
    let q = first_cand(Lead::Bare, Core::Year, s, 0);
    if q < s.len() {
        Some(num_value(s.subrange(q, q + 4)))
    } else {
        None
    }
}

/// The first year a title mentions.
pub fn extract_year(s: &str) -> (r: Option<i32>)
    ensures
        match r {
            Some(y) => year_in(s@) == Some(y as int),
            None => year_in(s@) is None,
        },
{
    let v = to_chars(s);
    let n = v.len();
    let mut q: usize = 0;
    while q < n && !crate::pattern::year_at_exec(&v, q)
        invariant
            q <= n == v@.len(),
            forall|j: int| 0 <= j < q ==> !#[trigger] year_at(v@, j),
        decreases n - q,
    {
        q = q + 1;
    }
    proof {
        let p = crate::pattern::cand_pred(Lead::Bare, Core::Year, v@, 0);
        assert forall|j: int| 0 <= j < q implies !#[trigger] p(j) by {}
        if q < n {
            assert(p(q as int));
        }
        crate::text::lemma_first_from_is(p, 0, n as int, q as int);
    }
    if q >= n {
        return None;
    }
    proof {
        assert(is_digit(v@[q as int]) && is_digit(v@[q + 1]));
    }
    let y = crate::parser::num_value_exec(&v, q, q + 4);
    Some(y)
}

/// Whether two titles may name the same show as far as years go: not when
/// both carry a year and the years differ.
pub open spec fn years_compatible(a: Option<int>, b: Option<int>) -> bool {
    !(a is Some && b is Some && a.unwrap() != b.unwrap())
}

/// The length of a title in bytes of UTF-8 (as `str::len` gives it), by
/// which shorter titles are preferred.
pub open spec fn byte_len(s: Seq<char>) -> usize {
    encode_utf8(s).len() as usize
}

/// Score of a title; lower is better (shorter).
pub fn title_score(t: &str) -> (r: usize)
    ensures
        r == byte_len(t@),
{
    t.len()
}

/// The stored show that an incoming `title` is: the first stored title
/// with the same comparison form whose year does not contradict it.
pub open spec fn match_index(existing: Seq<(i64, String)>, title: Seq<char>) -> int {
    first_from_match(existing, title, 0)
}

pub open spec fn show_matches(e: (i64, String), title: Seq<char>) -> bool {
    &&& years_compatible(year_in(title), year_in(e.1@))
    &&& comparison_form(e.1@) == comparison_form(title)
}

pub open spec fn first_from_match(existing: Seq<(i64, String)>, title: Seq<char>, i: int) -> int
    decreases existing.len() - i,
{
    if i < 0 || i >= existing.len() {
        existing.len() as int
    } else if show_matches(existing[i], title) {
        i
    } else {
        first_from_match(existing, title, i + 1)
    }
}

/// The stored show to file `title` under, among `existing` (id and title)
/// shows of the library: its id, and whether the stored title should be
/// replaced by the shorter incoming one; none when a new show is needed.
pub fn find_matching_show(existing: &Vec<(i64, String)>, title: &str) -> (r: Option<(i64, bool)>)
    ensures
        match r {
            Some((id, replace)) => {
                let i = match_index(existing@, title@);
                &&& i < existing@.len()
                &&& id == existing@[i].0
                &&& replace == (byte_len(title@) < byte_len(existing@[i].1@))
            },
            None => match_index(existing@, title@) >= existing@.len(),
        },
{
    let current = normalize_for_comparison(title);
    let current_year = extract_year(title);
    let mut i: usize = 0;
    while i < existing.len()
        invariant
            i <= existing.len(),
            current@ == comparison_form(title@),
            match current_year {
                Some(y) => year_in(title@) == Some(y as int),
                None => year_in(title@) is None,
            },
            match_index(existing@, title@) == first_from_match(existing@, title@, i as int),
        decreases existing.len() - i,
    {
        let (id, t) = (existing[i].0, &existing[i].1);
        let ty = extract_year(t.as_str());
        let compatible = match (current_year, ty) {
            (Some(a), Some(b)) => a == b,
            _ => true,
        };
        if compatible {
            let n = normalize_for_comparison(t.as_str());
            if str_eq(n.as_str(), current.as_str()) {
                let replace = title.len() < t.as_str().len();
                return Some((id, replace));
            }
        }
        i = i + 1;
    }
    None
}

// ---------------------------------------------------------------------------
// Keys that group duplicate shows.
// ---------------------------------------------------------------------------

/// The key under which duplicate shows are grouped, of a title already in
/// lower case: its comparison form.
pub open spec fn title_key_of_lower(l: Seq<char>) -> Seq<char> {
    comparison_form_of_lower(l)
}

/// The key under which duplicate shows are grouped: the title's
/// comparison form, as when a show is stored.
pub open spec fn title_key(s: Seq<char>) -> Seq<char> {
    title_key_of_lower(lowercase(s))
}

/// The grouping key of a title already in lower case.
pub fn title_key_lower(lower: &str) -> (r: String)
    ensures
        r@ == title_key_of_lower(lower@),
        r@ == comparison_form_of_lower(lower@),
{
    comparison_form_lower(lower)
}

/// The key under which duplicate shows are grouped; it is the form that
/// `normalize_for_comparison` gives.
pub fn normalize_title_key(s: &str) -> (r: String)
    ensures
        r@ == title_key(s@),
        r@ == comparison_form(s@),
{
    let l = lowercase_string(s);
    title_key_lower(l.as_str())
}

/// A stored show title made readable: dots and underscores read as
/// spaces, the first season marker and all after it cut, the first
/// release word (after whitespace) and all after it cut, whitespace made
/// single and trimmed.
pub open spec fn readable_show_title(raw: Seq<char>) -> Seq<char> {
    let r1 = dots_to_spaces(raw);
    let r2 = cut_first(Lead::AnyWs, Core::SeasonMarker, Tail::LineEnd, r1);
    let r3 = cut_first(Lead::SomeWs, Core::Words(Noise::Folder), Tail::LineEnd, r2);
    squash(r3)
}

/// A stored show title made readable.
pub fn sanitize_db_show_title(raw: &str) -> (r: String)
    ensures
        r@ == readable_show_title(raw@),
{
    let v = to_chars(raw);
    let r1 = dots_to_spaces_chars(&v);
    let r2 = cut_first_chars(Lead::AnyWs, Core::SeasonMarker, Tail::LineEnd, &r1);
    let r3 = cut_first_chars(Lead::SomeWs, Core::Words(Noise::Folder), Tail::LineEnd, &r2);
    let r4 = squash_chars(&r3);
    from_chars(&r4)
}

// ---------------------------------------------------------------------------
// Merging duplicate shows.
// ---------------------------------------------------------------------------

/// A stored show: id, library and title.
pub struct ShowRow {
    pub id: i64,
    pub library_id: i64,
    pub title: String,
}

/// The readable title a stored show gets, when it differs from its title
/// and is not empty.
pub open spec fn cleanup_of(r: ShowRow) -> Option<(i64, Seq<char>)> {
    let c = readable_show_title(r.title@);
    if c.len() > 0 && c != r.title@ {
        Some((r.id, c))
    } else {
        None
    }
}

pub open spec fn title_cleanups_upto(rows: Seq<ShowRow>, n: int) -> Seq<(i64, Seq<char>)>
    decreases n,
{
    if n <= 0 || n > rows.len() {
        Seq::<(i64, Seq<char>)>::empty()
    } else {
        let prev = title_cleanups_upto(rows, n - 1);
        match cleanup_of(rows[n - 1]) {
            Some(x) => prev.push(x),
            None => prev,
        }
    }
}

pub open spec fn pair_views(v: Seq<(i64, String)>) -> Seq<(i64, Seq<char>)> {
    v.map_values(|p: (i64, String)| (p.0, p.1@))
}

/// The title updates that make every stored show title readable, in the
/// order of `rows`.
pub fn title_cleanups(rows: &Vec<ShowRow>) -> (r: Vec<(i64, String)>)
    ensures
        pair_views(r@) == title_cleanups_upto(rows@, rows@.len() as int),
{
    let mut out: Vec<(i64, String)> = Vec::new();
    let mut i: usize = 0;
    while i < rows.len()
        invariant
            i <= rows.len(),
            pair_views(out@) == title_cleanups_upto(rows@, i as int),
        decreases rows.len() - i,
    {
        let row = &rows[i];
        let c = sanitize_db_show_title(row.title.as_str());
        if c.as_str().unicode_len() > 0 && !str_eq(c.as_str(), row.title.as_str()) {
            let ghost before = out@;
            out.push((row.id, c));
            assert(pair_views(out@) =~= pair_views(before).push((row.id, c@)));
        }
        i = i + 1;
    }
    out
}

/// Shows `i` and `j` are the same show: same library and the same
/// non-empty grouping key.
pub open spec fn same_group(rows: Seq<ShowRow>, i: int, j: int) -> bool {
    &&& rows[i].library_id == rows[j].library_id
    &&& title_key(rows[i].title@) == title_key(rows[j].title@)
    &&& title_key(rows[i].title@).len() > 0
}

pub open spec fn score(rows: Seq<ShowRow>, j: int) -> usize {
    byte_len(rows[j].title@)
}

/// Among `rows[0..n]`, the first show of `i`'s group with the lowest
/// score, or -1.
pub open spec fn best_upto(rows: Seq<ShowRow>, i: int, n: int) -> int
    decreases n,
{
    if n <= 0 {
        -1
    } else {
        let b = best_upto(rows, i, n - 1);
        let j = n - 1;
        if same_group(rows, i, j) && (b < 0 || score(rows, j) < score(rows, b)) {
            j
        } else {
            b
        }
    }
}

/// The show that show `i` is merged into: the first show of its group with
/// the shortest title; -1 when `i` belongs to no group.
pub open spec fn canonical(rows: Seq<ShowRow>, i: int) -> int {
    best_upto(rows, i, rows.len() as int)
}

/// Merges (duplicate id, id merged into) for `rows[0..n]`.
pub open spec fn merges_upto(rows: Seq<ShowRow>, n: int) -> Seq<(i64, i64)>
    decreases n,
{
    if n <= 0 || n > rows.len() {
        Seq::<(i64, i64)>::empty()
    } else {
        let prev = merges_upto(rows, n - 1);
        let c = canonical(rows, n - 1);
        if c >= 0 && c != n - 1 {
            prev.push((rows[n - 1].id, rows[c].id))
        } else {
            prev
        }
    }
}

/// Which duplicate show is merged into which, in the order of `rows`.
pub fn merge_plan(rows: &Vec<ShowRow>) -> (r: Vec<(i64, i64)>)
    ensures
        r@ == merges_upto(rows@, rows@.len() as int),
{
    let n = rows.len();
    let mut keys: Vec<String> = Vec::new();
    let mut scores: Vec<usize> = Vec::new();
    let mut k: usize = 0;
    while k < n
        invariant
            k <= n == rows@.len(),
            keys@.len() == k,
            scores@.len() == k,
            forall|j: int| 0 <= j < k ==> #[trigger] keys@[j]@ == title_key(rows@[j].title@),
            forall|j: int| 0 <= j < k ==> #[trigger] scores@[j] == score(rows@, j),
        decreases n - k,
    {
        keys.push(normalize_title_key(rows[k].title.as_str()));
        scores.push(title_score(rows[k].title.as_str()));
        k = k + 1;
    }
    let mut out: Vec<(i64, i64)> = Vec::new();
    let mut i: usize = 0;
    while i < n
        invariant
            i <= n == rows@.len(),
            keys@.len() == n,
            scores@.len() == n,
            forall|j: int| 0 <= j < n ==> #[trigger] keys@[j]@ == title_key(rows@[j].title@),
            forall|j: int| 0 <= j < n ==> #[trigger] scores@[j] == score(rows@, j),
            out@ == merges_upto(rows@, i as int),
        decreases n - i,
    {
        let mut best: Option<usize> = None;
        let mut j: usize = 0;
        while j < n
            invariant
                i < n == rows@.len(),
                j <= n,
                keys@.len() == n,
                scores@.len() == n,
                forall|t: int| 0 <= t < n ==> #[trigger] keys@[t]@ == title_key(rows@[t].title@),
                forall|t: int| 0 <= t < n ==> #[trigger] scores@[t] == score(rows@, t),
                match best {
                    Some(b) => b as int == best_upto(rows@, i as int, j as int) && b < j,
                    None => best_upto(rows@, i as int, j as int) == -1,
                },
            decreases n - j,
        {
            let same = rows[i].library_id == rows[j].library_id && str_eq(
                keys[i].as_str(),
                keys[j].as_str(),
            ) && keys[i].as_str().unicode_len() > 0;
            assert(same == same_group(rows@, i as int, j as int));
            let better = match best {
                Some(b) => scores[j] < scores[b],
                None => true,
            };
            if same && better {
                best = Some(j);
            }
            j = j + 1;
        }
        match best {
            Some(b) => {
                if b != i {
                    out.push((rows[i].id, rows[b].id));
                }
            },
            None => {},
        }
        i = i + 1;
    }
    out
}

pub proof fn lemma_best_upto_bounds(rows: Seq<ShowRow>, i: int, n: int)
    requires
        0 <= n <= rows.len(),
    ensures
        -1 <= best_upto(rows, i, n) < n,
        best_upto(rows, i, n) >= 0 ==> same_group(rows, i, best_upto(rows, i, n)),
        forall|j: int|
            0 <= j < n && #[trigger] same_group(rows, i, j) ==> best_upto(rows, i, n) >= 0 && score(
                rows,
                best_upto(rows, i, n),
            ) <= score(rows, j) && (score(rows, best_upto(rows, i, n)) == score(rows, j)
                ==> best_upto(rows, i, n) <= j),
    decreases n,
{
    if n > 0 {
        lemma_best_upto_bounds(rows, i, n - 1);
    }
}

pub proof fn lemma_best_upto_same(rows: Seq<ShowRow>, i: int, k: int, n: int)
    requires
        0 <= i < rows.len(),
        0 <= k < rows.len(),
        0 <= n <= rows.len(),
        same_group(rows, i, k),
    ensures
        best_upto(rows, i, n) == best_upto(rows, k, n),
    decreases n,
{
    if n > 0 {
        lemma_best_upto_same(rows, i, k, n - 1);
        let j = n - 1;
        assert(same_group(rows, i, j) == same_group(rows, k, j));
    }
}

/// Every show that belongs to a group is merged into a show of the same
/// group, one whose title is no longer than any other of the group (the
/// first such), and all shows of a group are merged into the same show,
/// which itself stays.
pub proof fn lemma_merge_target_is_shortest_of_group(rows: Seq<ShowRow>, i: int)
    requires
        0 <= i < rows.len(),
        title_key(rows[i].title@).len() > 0,
    ensures
        0 <= canonical(rows, i) < rows.len(),
        same_group(rows, i, canonical(rows, i)),
        forall|j: int|
            0 <= j < rows.len() && #[trigger] same_group(rows, i, j) ==> score(
                rows,
                canonical(rows, i),
            ) <= score(rows, j) && canonical(rows, j) == canonical(rows, i),
        canonical(rows, canonical(rows, i)) == canonical(rows, i),
{
    let n = rows.len() as int;
    lemma_best_upto_bounds(rows, i, n);
    assert(same_group(rows, i, i));
    let c = canonical(rows, i);
    assert forall|j: int|
        0 <= j < rows.len() && #[trigger] same_group(rows, i, j) implies score(rows, c) <= score(
            rows,
            j,
        ) && canonical(rows, j) == c by {
        lemma_best_upto_same(rows, i, j, n);
    }
    lemma_best_upto_same(rows, i, c, n);
}

/// What happens to one season of a duplicate show when it is merged.
#[derive(Clone, Copy, PartialEq, Eq, Structural, Debug)]
pub enum SeasonMove {
    /// The surviving show has a season with the same number: the episodes
    /// of season `from` move into season `into` (those that clash with one
    /// already there are deleted), and season `from` goes.
    MergeEpisodes { from: i64, into: i64 },
    /// The surviving show has no such season: the season moves to it.
    Reparent(i64),
}

/// The first season of `seasons` (id, number) from `j` on with number
/// `number`, or -1.
pub open spec fn season_numbered(seasons: Seq<(i64, i32)>, number: i32, j: int) -> int
    decreases seasons.len() - j,
{
    if j < 0 || j >= seasons.len() {
        -1
    } else if seasons[j].1 == number {
        j
    } else {
        season_numbered(seasons, number, j + 1)
    }
}

/// The moves for the seasons `dups[0..n]` of duplicates merged, in turn,
/// into a show that had the seasons `kept`, and the seasons that show has
/// after them.
pub open spec fn season_moves_upto(kept: Seq<(i64, i32)>, dups: Seq<(i64, i32)>, n: int) -> (Seq<SeasonMove>, Seq<(i64, i32)>)
    decreases n,
{
    if n <= 0 || n > dups.len() {
        (Seq::<SeasonMove>::empty(), kept)
    } else {
        let (moves, now) = season_moves_upto(kept, dups, n - 1);
        let d = dups[n - 1];
        let k = season_numbered(now, d.1, 0);
        if k >= 0 {
            (moves.push(SeasonMove::MergeEpisodes { from: d.0, into: now[k].0 }), now)
        } else {
            (moves.push(SeasonMove::Reparent(d.0)), now.push(d))
        }
    }
}

fn find_season(seasons: &Vec<(i64, i32)>, number: i32) -> (r: Option<usize>)
    ensures
        match r {
            Some(k) => k as int == season_numbered(seasons@, number, 0) && k < seasons@.len(),
            None => season_numbered(seasons@, number, 0) == -1,
        },
{
    let mut j: usize = 0;
    while j < seasons.len()
        invariant
            j <= seasons@.len(),
            season_numbered(seasons@, number, 0) == season_numbered(seasons@, number, j as int),
        decreases seasons.len() - j,
    {
        if seasons[j].1 == number {
            return Some(j);
        }
        j = j + 1;
    }
    None
}

/// The moves for the seasons `duplicate_seasons` (id, number) of the
/// duplicates of a show, in the order they are merged, into the show that
/// stays, whose seasons are `kept_seasons`: a season whose number the
/// show has by then is merged into that season, any other is moved over
/// (and counts as the show's from then on).
pub fn season_moves(kept_seasons: &Vec<(i64, i32)>, duplicate_seasons: &Vec<(i64, i32)>) -> (r: Vec<SeasonMove>)
    ensures
        r@ == season_moves_upto(kept_seasons@, duplicate_seasons@, duplicate_seasons@.len() as int).0,
{
    let mut now: Vec<(i64, i32)> = Vec::new();
    let mut k: usize = 0;
    while k < kept_seasons.len()
        invariant
            k <= kept_seasons@.len(),
            now@ == kept_seasons@.subrange(0, k as int),
        decreases kept_seasons.len() - k,
    {
        now.push(kept_seasons[k]);
        assert(now@ =~= kept_seasons@.subrange(0, k + 1));
        k = k + 1;
    }
    assert(now@ =~= kept_seasons@);
    let mut out: Vec<SeasonMove> = Vec::new();
    let mut i: usize = 0;
    while i < duplicate_seasons.len()
        invariant
            i <= duplicate_seasons@.len(),
            (out@, now@) == season_moves_upto(kept_seasons@, duplicate_seasons@, i as int),
        decreases duplicate_seasons.len() - i,
    {
        let d = duplicate_seasons[i];
        match find_season(&now, d.1) {
            Some(k) => {
                out.push(SeasonMove::MergeEpisodes { from: d.0, into: now[k].0 });
            },
            None => {
                out.push(SeasonMove::Reparent(d.0));
                now.push(d);
            },
        }
        i = i + 1;
    }
    out
}

/// Every season of the duplicates is carried over: it is moved to the
/// show that stays, or its episodes go into a season of that show with the
/// same number; and the show then has its seasons and every season moved.
pub proof fn lemma_seasons_carried_over(kept: Seq<(i64, i32)>, dups: Seq<(i64, i32)>, n: int)
    requires
        0 <= n <= dups.len(),
    ensures
        season_moves_upto(kept, dups, n).0.len() == n,
        forall|i: int| 0 <= i < n ==> match #[trigger] season_moves_upto(kept, dups, n).0[i] {
            SeasonMove::Reparent(id) => id == dups[i].0 && season_moves_upto(kept, dups, n).1.contains(dups[i]),
            SeasonMove::MergeEpisodes { from, into } => from == dups[i].0 && exists|j: int|
                0 <= j < season_moves_upto(kept, dups, n).1.len()
                    && #[trigger] season_moves_upto(kept, dups, n).1[j] == (into, dups[i].1),
        },
        forall|j: int| 0 <= j < kept.len() ==> #[trigger] season_moves_upto(kept, dups, n).1.contains(kept[j]),
    decreases n,
{
    if n > 0 {
        lemma_seasons_carried_over(kept, dups, n - 1);
        let (moves, now) = season_moves_upto(kept, dups, n - 1);
        let (moves2, now2) = season_moves_upto(kept, dups, n);
        let d = dups[n - 1];
        let k = season_numbered(now, d.1, 0);
        lemma_season_numbered(now, d.1, 0);
        assert forall|x: (i64, i32)| now.contains(x) implies now2.contains(x) by {
            let j = choose|j: int| 0 <= j < now.len() && now[j] == x;
            assert(now2[j] == x);
        }
        assert forall|i: int| 0 <= i < n implies match #[trigger] moves2[i] {
            SeasonMove::Reparent(id) => id == dups[i].0 && now2.contains(dups[i]),
            SeasonMove::MergeEpisodes { from, into } => from == dups[i].0 && exists|j: int|
                0 <= j < now2.len() && #[trigger] now2[j] == (into, dups[i].1),
        } by {
            if i < n - 1 {
                assert(moves2[i] == moves[i]);
                match moves[i] {
                    SeasonMove::Reparent(id) => {},
                    SeasonMove::MergeEpisodes { from, into } => {
                        let j = choose|j: int| 0 <= j < now.len() && #[trigger] now[j] == (into, dups[i].1);
                        assert(now2[j] == now[j]);
                    },
                }
            } else if k >= 0 {
                assert(now2[k] == (now[k].0, d.1));
            } else {
                assert(now2[now.len() as int] == d);
            }
        }
        assert forall|j: int| 0 <= j < kept.len() implies #[trigger] now2.contains(kept[j]) by {
            assert(now.contains(kept[j]));
        }
    } else {
        assert forall|j: int| 0 <= j < kept.len() implies #[trigger] kept.contains(kept[j]) by {
            assert(kept[j] == kept[j]);
        }
    }
}

proof fn lemma_season_numbered(seasons: Seq<(i64, i32)>, number: i32, j: int)
    requires
        0 <= j,
    ensures
        season_numbered(seasons, number, j) == -1 || (j <= season_numbered(seasons, number, j) < seasons.len()
            && seasons[season_numbered(seasons, number, j)].1 == number),
    decreases seasons.len() - j,
{
    if j < seasons.len() && seasons[j].1 != number {
        lemma_season_numbered(seasons, number, j + 1);
    }
}

/// What happens to one episode of a season merged into another.
#[derive(Clone, Copy, PartialEq, Eq, Structural, Debug)]
pub enum EpisodeMove {
    /// The episode moves into the season that stays.
    Move(i64),
    /// That season already has an episode for the same file: this one is
    /// deleted.
    Delete(i64),
}

pub open spec fn episode_views(v: Seq<(i64, String)>) -> Seq<(i64, Seq<char>)> {
    v.map_values(|e: (i64, String)| (e.0, e.1@))
}

/// The moves for the episodes `eps[0..n]` (id, file path) of a season
/// merged into a season whose episodes have the file paths `target`, and
/// the file paths that season has after them.
pub open spec fn episode_moves_upto(target: Seq<Seq<char>>, eps: Seq<(i64, Seq<char>)>, n: int) -> (Seq<EpisodeMove>, Seq<Seq<char>>)
    decreases n,
{
    if n <= 0 || n > eps.len() {
        (Seq::<EpisodeMove>::empty(), target)
    } else {
        let (moves, now) = episode_moves_upto(target, eps, n - 1);
        let e = eps[n - 1];
        if now.contains(e.1) {
            (moves.push(EpisodeMove::Delete(e.0)), now)
        } else {
            (moves.push(EpisodeMove::Move(e.0)), now.push(e.1))
        }
    }
}

/// The moves for the episodes `episodes` (id, file path) of a duplicate's
/// season merged into a season whose episodes have the file paths
/// `target_paths`: each moves over unless that season has an episode for
/// the same file by then, in which case it is deleted.
pub fn episode_moves(target_paths: &Vec<String>, episodes: &Vec<(i64, String)>) -> (r: Vec<EpisodeMove>)
    ensures
        r@ == episode_moves_upto(strs(target_paths@), episode_views(episodes@), episodes@.len() as int).0,
{
    let mut now: Vec<String> = Vec::new();
    let mut k: usize = 0;
    while k < target_paths.len()
        invariant
            k <= target_paths@.len(),
            strs(now@) == strs(target_paths@).subrange(0, k as int),
        decreases target_paths.len() - k,
    {
        let ghost before = strs(now@);
        let t = from_chars(&to_chars(target_paths[k].as_str()));
        now.push(t);
        assert(strs(now@) =~= before.push(target_paths@[k as int]@));
        assert(strs(now@) =~= strs(target_paths@).subrange(0, k + 1));
        k = k + 1;
    }
    assert(strs(target_paths@).subrange(0, target_paths@.len() as int) =~= strs(target_paths@));
    let ghost ev = episode_views(episodes@);
    let mut out: Vec<EpisodeMove> = Vec::new();
    let mut i: usize = 0;
    while i < episodes.len()
        invariant
            i <= episodes@.len(),
            ev == episode_views(episodes@),
            (out@, strs(now@)) == episode_moves_upto(strs(target_paths@), ev, i as int),
        decreases episodes.len() - i,
    {
        let id = episodes[i].0;
        assert(ev[i as int] == (id, episodes@[i as int].1@));
        if crate::text::contains_str(now.as_slice(), episodes[i].1.as_str()) {
            out.push(EpisodeMove::Delete(id));
        } else {
            out.push(EpisodeMove::Move(id));
            let ghost before = strs(now@);
            now.push(from_chars(&to_chars(episodes[i].1.as_str())));
            assert(strs(now@) =~= before.push(ev[i as int].1));
        }
        i = i + 1;
    }
    out
}

} // verus!
