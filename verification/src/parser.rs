//! The filename grammar: titles, years, season and episode numbers and
//! resolutions read from media file names and their folders.
use vstd::prelude::*;
use crate::models::{Resolution, resolution_named};
use crate::text::{
    ci_at, ci_at_exec, ci_eq, fold_exec, is_ws, is_ws_exec, is_digit, digit_run, digit_run_exec,
    lemma_digit_run, first_from, lemma_first_from, lemma_first_from_is, trim, trim_chars,
    dots_to_spaces, dots_to_spaces_chars, slice_of, to_chars, from_chars, ws_run, ws_run_exec,
    is_digit_exec, trim_end, trim_end_chars, squash, squash_chars,
};
use crate::pattern::{
    Lead, Core, Tail, Noise, cut_first, cut_first_chars, has_core, has_core_chars, ws_back,
};

verus! {

// ---------------------------------------------------------------------------
// Paths (Unix separators), as `std::path::Path` splits them into components.
// ---------------------------------------------------------------------------

/// A piece between separators that names something: not empty, not `.`.
pub open spec fn keep_part(p: Seq<char>) -> bool {
    p.len() > 0 && p != seq!['.']
}

/// Scanning `s`: the pieces kept so far, and the piece being read.
pub open spec fn scan_parts(s: Seq<char>) -> (Seq<Seq<char>>, Seq<char>)
    decreases s.len(),
{
    if s.len() == 0 {
        (Seq::<Seq<char>>::empty(), Seq::<char>::empty())
    } else {
        let prev = scan_parts(s.drop_last());
        if s.last() == '/' {
            (if keep_part(prev.1) { prev.0.push(prev.1) } else { prev.0 }, Seq::<char>::empty())
        } else {
            (prev.0, prev.1.push(s.last()))
        }
    }
}

/// The named components of path `s`: the pieces between `/` that are
/// neither empty nor `.` (`..` included), in order.
pub open spec fn path_parts(s: Seq<char>) -> Seq<Seq<char>> {
    let sc = scan_parts(s);
    if keep_part(sc.1) {
        sc.0.push(sc.1)
    } else {
        sc.0
    }
}

/// The path starts at the root.
pub open spec fn path_rooted(s: Seq<char>) -> bool {
    s.len() > 0 && s[0] == '/'
}

/// The path starts with a `.` component (`.` or `./...`).
pub open spec fn path_curdir(s: Seq<char>) -> bool {
    &&& s.len() > 0
    &&& s[0] == '.'
    &&& (s.len() == 1 || s[1] == '/')
}

/// A path as its components: rooted, leading `.`, named parts.
#[verifier::ext_equal]
pub struct PathView {
    pub rooted: bool,
    pub curdir: bool,
    pub parts: Seq<Seq<char>>,
}

pub open spec fn path_view(s: Seq<char>) -> PathView {
    PathView { rooted: path_rooted(s), curdir: path_curdir(s), parts: path_parts(s) }
}

/// The last component, when it is a name (not `..`, `.` or the root).
pub open spec fn view_file_name(p: PathView) -> Option<Seq<char>> {
    if p.parts.len() > 0 && p.parts.last() != seq!['.', '.'] {
        Some(p.parts.last())
    } else {
        None
    }
}

/// The path without its last component; none for the root or an empty path.
pub open spec fn view_parent(p: PathView) -> Option<PathView> {
    if p.parts.len() > 0 {
        Some(PathView { rooted: p.rooted, curdir: p.curdir, parts: p.parts.drop_last() })
    } else if p.curdir {
        Some(PathView { rooted: false, curdir: false, parts: Seq::<Seq<char>>::empty() })
    } else {
        None
    }
}

/// `b`'s components (root, leading `.`, named parts) are a prefix of `a`'s.
pub open spec fn view_starts_with(a: PathView, b: PathView) -> bool {
    ||| {
        &&& a.rooted == b.rooted
        &&& a.curdir == b.curdir
        &&& b.parts.len() <= a.parts.len()
        &&& a.parts.subrange(0, b.parts.len() as int) =~= b.parts
    }
    ||| (!b.rooted && !b.curdir && b.parts.len() == 0)
}

pub open spec fn file_name(s: Seq<char>) -> Option<Seq<char>> {
    view_file_name(path_view(s))
}

/// Exec mirror of `PathView`.
pub struct PathParts {
    pub rooted: bool,
    pub curdir: bool,
    pub parts: Vec<Vec<char>>,
}

impl View for PathParts {
    type V = PathView;

    open spec fn view(&self) -> PathView {
        PathView {
            rooted: self.rooted,
            curdir: self.curdir,
            parts: self.parts@.map_values(|v: Vec<char>| v@),
        }
    }
}

fn keep_part_exec(p: &Vec<char>) -> (r: bool)
    ensures
        r == keep_part(p@),
{
    if p.len() == 0 {
        return false;
    }
    if p.len() == 1 && p[0] == '.' {
        assert(p@ =~= seq!['.']);
        return false;
    }
    if p.len() == 1 {
        assert(p@ != seq!['.']) by {
            assert(p@[0] != seq!['.'][0]);
        }
    } else {
        assert(p@.len() != seq!['.'].len());
    }
    true
}

/// The components of path `s`.
pub fn path_parts_of(s: &Vec<char>) -> (r: PathParts)
    ensures
        r@ == path_view(s@),
{
    let n = s.len();
    let mut done: Vec<Vec<char>> = Vec::new();
    let mut cur: Vec<char> = Vec::new();
    let mut i: usize = 0;
    while i < n
        invariant
            i <= n == s@.len(),
            scan_parts(s@.subrange(0, i as int)) == (done@.map_values(|v: Vec<char>| v@), cur@),
        decreases n - i,
    {
        let c = s[i];
        assert(s@.subrange(0, i + 1).drop_last() =~= s@.subrange(0, i as int));
        if c == '/' {
            if keep_part_exec(&cur) {
                let ghost before = done@;
                done.push(cur);
                assert(done@.map_values(|v: Vec<char>| v@) =~= before.map_values(|v: Vec<char>| v@).push(
                    cur@,
                ));
            }
            cur = Vec::new();
        } else {
            cur.push(c);
        }
        i = i + 1;
    }
    assert(s@.subrange(0, n as int) =~= s@);
    if keep_part_exec(&cur) {
        let ghost before = done@;
        let ghost c = cur@;
        done.push(cur);
        assert(done@.map_values(|v: Vec<char>| v@) =~= before.map_values(|v: Vec<char>| v@).push(c));
    }
    let rooted = n > 0 && s[0] == '/';
    let curdir = n > 0 && s[0] == '.' && (n == 1 || s[1] == '/');
    PathParts { rooted, curdir, parts: done }
}

fn is_dotdot(p: &Vec<char>) -> (r: bool)
    ensures
        r == (p@ == seq!['.', '.']),
{
    if p.len() == 2 && p[0] == '.' && p[1] == '.' {
        assert(p@ =~= seq!['.', '.']);
        true
    } else {
        if p.len() == 2 {
            assert(p@[0] != seq!['.', '.'][0] || p@[1] != seq!['.', '.'][1]);
        } else {
            assert(p@.len() != seq!['.', '.'].len());
        }
        false
    }
}

/// The last component of a path, when it is a name.
pub fn file_name_of(p: &PathParts) -> (r: Option<Vec<char>>)
    ensures
        match r {
            Some(v) => view_file_name(p@) == Some(v@),
            None => view_file_name(p@) is None,
        },
{
    let k = p.parts.len();
    if k > 0 && !is_dotdot(&p.parts[k - 1]) {
        Some(p.parts[k - 1].clone())
    } else {
        None
    }
}

// ---------------------------------------------------------------------------
// File stems.
// ---------------------------------------------------------------------------

/// Index of the last `.` in `s`, or -1.
pub open spec fn last_dot(s: Seq<char>) -> int
    decreases s.len(),
{
    if s.len() == 0 {
        -1
    } else if s.last() == '.' {
        s.len() - 1
    } else {
        last_dot(s.drop_last())
    }
}

/// The part of a file name before its extension: everything before the
/// last `.`, unless that `.` starts the name or there is none.
pub open spec fn stem_of_name(f: Seq<char>) -> Seq<char> {
    if last_dot(f) <= 0 {
        f
    } else {
        f.subrange(0, last_dot(f))
    }
}

/// The stem of the file that `name` names, or `name` itself when it names
/// no file.
pub open spec fn stem_of(name: Seq<char>) -> Seq<char> {
    match file_name(name) {
        Some(f) => stem_of_name(f),
        None => name,
    }
}

proof fn lemma_last_dot(s: Seq<char>)
    ensures
        -1 <= last_dot(s) < s.len(),
        last_dot(s) >= 0 ==> s[last_dot(s)] == '.',
    decreases s.len(),
{
    if s.len() > 0 && s.last() != '.' {
        lemma_last_dot(s.drop_last());
    }
}

pub fn stem_of_name_exec(f: &Vec<char>) -> (r: Vec<char>)
    ensures
        r@ == stem_of_name(f@),
{
    let mut j = f.len();
    assert(f@.subrange(0, f.len() as int) =~= f@);
    while j > 0 && f[j - 1] != '.'
        invariant
            j <= f.len(),
            last_dot(f@) == last_dot(f@.subrange(0, j as int)),
        decreases j,
    {
        assert(f@.subrange(0, j as int).drop_last() =~= f@.subrange(0, j - 1));
        j = j - 1;
    }
    assert(f@.subrange(0, f.len() as int) =~= f@);
    // here j == 0 (no dot) or f[j - 1] == '.' and last_dot(f) == j - 1
    if j <= 1 {
        slice_of(f, 0, f.len())
    } else {
        slice_of(f, 0, j - 1)
    }
}

pub fn stem_of_exec(name: &Vec<char>) -> (r: Vec<char>)
    ensures
        r@ == stem_of(name@),
{
    let p = path_parts_of(name);
    match file_name_of(&p) {
        Some(f) => stem_of_name_exec(&f),
        None => slice_of(name, 0, name.len()),
    }
}

/// The extension of a file name: what follows its last `.`, unless that
/// `.` starts the name or there is none.
pub open spec fn extension_of_name(f: Seq<char>) -> Option<Seq<char>> {
    if last_dot(f) <= 0 {
        None
    } else {
        Some(f.subrange(last_dot(f) + 1, f.len() as int))
    }
}

/// The extension of the file that the path `s` names.
pub open spec fn extension_of(s: Seq<char>) -> Option<Seq<char>> {
    match file_name(s) {
        Some(f) => extension_of_name(f),
        None => None,
    }
}

pub fn extension_of_name_exec(f: &Vec<char>) -> (r: Option<Vec<char>>)
    ensures
        match r {
            Some(e) => extension_of_name(f@) == Some(e@),
            None => extension_of_name(f@) is None,
        },
{
    let mut j = f.len();
    assert(f@.subrange(0, f.len() as int) =~= f@);
    while j > 0 && f[j - 1] != '.'
        invariant
            j <= f.len(),
            last_dot(f@) == last_dot(f@.subrange(0, j as int)),
        decreases j,
    {
        assert(f@.subrange(0, j as int).drop_last() =~= f@.subrange(0, j - 1));
        j = j - 1;
    }
    if j <= 1 {
        None
    } else {
        Some(slice_of(f, j, f.len()))
    }
}

/// The extension of the file that the path `s` names.
pub fn extension_exec(s: &Vec<char>) -> (r: Option<Vec<char>>)
    ensures
        match r {
            Some(e) => extension_of(s@) == Some(e@),
            None => extension_of(s@) is None,
        },
{
    let p = path_parts_of(s);
    match file_name_of(&p) {
        Some(f) => extension_of_name_exec(&f),
        None => None,
    }
}


// ---------------------------------------------------------------------------
// Reading a file name.
// ---------------------------------------------------------------------------

/// The value of a run of ASCII digits.
pub open spec fn num_value(d: Seq<char>) -> int
    decreases d.len(),
{
    if d.len() == 0 {
        0
    } else {
        num_value(d.drop_last()) * 10 + (d.last() as u32 - 48)
    }
}

pub proof fn lemma_num_value_bound(d: Seq<char>)
    requires
        forall|i: int| 0 <= i < d.len() ==> is_digit(#[trigger] d[i]),
    ensures
        0 <= num_value(d),
        d.len() <= 1 ==> num_value(d) < 10,
        d.len() <= 2 ==> num_value(d) < 100,
        d.len() <= 3 ==> num_value(d) < 1000,
        d.len() <= 4 ==> num_value(d) < 10000,
    decreases d.len(),
{
    if d.len() > 0 {
        assert(forall|i: int| 0 <= i < d.drop_last().len() ==> is_digit(#[trigger] d.drop_last()[i])) by {
            assert forall|i: int| 0 <= i < d.drop_last().len() implies is_digit(#[trigger] d.drop_last()[i]) by {
                assert(d.drop_last()[i] == d[i]);
            }
        }
        lemma_num_value_bound(d.drop_last());
        assert(is_digit(d[d.len() - 1]));
    }
}

pub fn num_value_exec(s: &Vec<char>, a: usize, b: usize) -> (r: i32)
    requires
        a <= b <= s.len(),
        b - a <= 4,
        forall|i: int| a <= i < b ==> is_digit(#[trigger] s@[i]),
    ensures
        r as int == num_value(s@.subrange(a as int, b as int)),
        0 <= r < 10000,
{
    let mut v: i32 = 0;
    let mut i = a;
    while i < b
        invariant
            a <= i <= b <= s.len(),
            b - a <= 4,
            forall|j: int| a <= j < b ==> is_digit(#[trigger] s@[j]),
            v as int == num_value(s@.subrange(a as int, i as int)),
            0 <= v,
            i - a <= 1 ==> v < 10,
            i - a <= 2 ==> v < 100,
            i - a <= 3 ==> v < 1000,
            v < 10000,
        decreases b - i,
    {
        let c = s[i];
        assert(is_digit(s@[i as int]));
        assert(s@.subrange(a as int, i + 1).drop_last() =~= s@.subrange(a as int, i as int));
        let d = (c as u32 - 48) as i32;
        v = v * 10 + d;
        i = i + 1;
    }
    v
}

/// The resolution named at position `q`, regardless of ASCII case.
pub open spec fn res_at(s: Seq<char>, q: int) -> Option<Resolution> {
    if ci_at(s, q, "2160p"@) {
        Some(Resolution::R2160p)
    } else if ci_at(s, q, "1080p"@) {
        Some(Resolution::R1080p)
    } else if ci_at(s, q, "720p"@) {
        Some(Resolution::R720p)
    } else if ci_at(s, q, "480p"@) {
        Some(Resolution::R480p)
    } else if ci_at(s, q, "576p"@) {
        Some(Resolution::R576p)
    } else if ci_at(s, q, "imax"@) {
        Some(Resolution::Imax)
    } else {
        None
    }
}

pub open spec fn res_pred(s: Seq<char>) -> spec_fn(int) -> bool {
    |q: int| res_at(s, q) is Some
}

/// The first resolution named anywhere in `s`.
pub open spec fn first_resolution(s: Seq<char>) -> Option<Resolution> {
    let q = first_from(res_pred(s), 0, s.len() as int);
    if q < s.len() {
        res_at(s, q)
    } else {
        None
    }
}

fn res_at_exec(s: &Vec<char>, q: usize) -> (r: Option<Resolution>)
    ensures
        r == res_at(s@, q as int),
{
    if ci_at_exec(s, q, "2160p") {
        Some(Resolution::R2160p)
    } else if ci_at_exec(s, q, "1080p") {
        Some(Resolution::R1080p)
    } else if ci_at_exec(s, q, "720p") {
        Some(Resolution::R720p)
    } else if ci_at_exec(s, q, "480p") {
        Some(Resolution::R480p)
    } else if ci_at_exec(s, q, "576p") {
        Some(Resolution::R576p)
    } else if ci_at_exec(s, q, "imax") {
        Some(Resolution::Imax)
    } else {
        None
    }
}

fn first_resolution_exec(s: &Vec<char>) -> (r: Option<Resolution>)
    ensures
        r == first_resolution(s@),
{
    let n = s.len();
    let mut q: usize = 0;
    while q < n
        invariant
            q <= n == s@.len(),
            forall|j: int| 0 <= j < q ==> !(#[trigger] res_at(s@, j) is Some),
        decreases n - q,
    {
        let r = res_at_exec(s, q);
        if r.is_some() {
            proof {
                let p = res_pred(s@);
                assert forall|j: int| 0 <= j < q implies !#[trigger] p(j) by {}
                lemma_first_from_is(p, 0, n as int, q as int);
            }
            return r;
        }
        q = q + 1;
    }
    proof {
        let p = res_pred(s@);
        assert forall|j: int| 0 <= j < q implies !#[trigger] p(j) by {}
        lemma_first_from_is(p, 0, n as int, n as int);
    }
    None
}

/// `S`, one or two digits, `E` and digits at position `u`: the season and
/// the episode (its first one or two digits).
pub open spec fn sxxexx_at(s: Seq<char>, u: int) -> Option<(int, int)> {
    let r1 = digit_run(s, u + 1);
    let e = u + 1 + r1;
    let r2 = digit_run(s, e + 1);
    let k = if r2 > 2 { 2 } else { r2 as int };
    if 0 <= u < s.len() && ci_eq(s[u], 's') && 1 <= r1 <= 2 && e < s.len() && ci_eq(s[e], 'e')
        && r2 >= 1 {
        Some((num_value(s.subrange(u + 1, e)), num_value(s.subrange(e + 1, e + 1 + k))))
    } else {
        None
    }
}

fn sxxexx_at_exec(s: &Vec<char>, u: usize) -> (r: Option<(i32, i32)>)
    requires
        u <= s.len(),
    ensures
        match r {
            Some(p) => sxxexx_at(s@, u as int) == Some((p.0 as int, p.1 as int)),
            None => sxxexx_at(s@, u as int) is None,
        },
{
    if u >= s.len() || fold_exec(s[u]) != 115 {
        return None;
    }
    let r1 = digit_run_exec(s, u + 1);
    if r1 < 1 || r1 > 2 {
        return None;
    }
    let e = u + 1 + r1;
    if e >= s.len() || fold_exec(s[e]) != 101 {
        return None;
    }
    let r2 = digit_run_exec(s, e + 1);
    if r2 < 1 {
        return None;
    }
    let k = if r2 > 2 { 2 } else { r2 };
    proof {
        lemma_digit_run(s@, u + 1);
        lemma_digit_run(s@, e + 1);
    }
    let a = num_value_exec(s, u + 1, e);
    let b = num_value_exec(s, e + 1, e + 1 + k);
    Some((a, b))
}

/// A separator between a show title and its episode marker.
pub open spec fn is_sep(c: char) -> bool {
    c == '.' || is_ws(c) || c == '_' || c == '-'
}

/// Number of separators in the run that starts at `i`.
pub open spec fn sep_run(s: Seq<char>, i: int) -> nat
    decreases s.len() - i,
{
    if 0 <= i < s.len() && is_sep(s[i]) {
        1 + sep_run(s, i + 1)
    } else {
        0
    }
}

fn sep_run_exec(s: &Vec<char>, i: usize) -> (r: usize)
    requires
        i <= s.len(),
    ensures
        r == sep_run(s@, i as int),
        i + r <= s.len(),
{
    let mut j = i;
    while j < s.len() && (s[j] == '.' || is_ws_exec(s[j]) || s[j] == '_' || s[j] == '-')
        invariant
            i <= j <= s.len(),
            sep_run(s@, i as int) == (j - i) + sep_run(s@, j as int),
        decreases s.len() - j,
    {
        j = j + 1;
    }
    j - i
}

/// A character that may stand between a movie title and its year.
pub open spec fn is_year_lead(c: char) -> bool {
    c == '.' || c == ' ' || c == '(' || c == '['
}

/// Number of such characters in the run that starts at `i`.
pub open spec fn year_lead_run(s: Seq<char>, i: int) -> nat
    decreases s.len() - i,
{
    if 0 <= i < s.len() && is_year_lead(s[i]) {
        1 + year_lead_run(s, i + 1)
    } else {
        0
    }
}

fn year_lead_run_exec(s: &Vec<char>, i: usize) -> (r: usize)
    requires
        i <= s.len(),
    ensures
        r == year_lead_run(s@, i as int),
        i + r <= s.len(),
{
    let mut j = i;
    while j < s.len() && (s[j] == '.' || s[j] == ' ' || s[j] == '(' || s[j] == '[')
        invariant
            i <= j <= s.len(),
            year_lead_run(s@, i as int) == (j - i) + year_lead_run(s@, j as int),
        decreases s.len() - j,
    {
        j = j + 1;
    }
    j - i
}

/// No line break before position `t`.
pub open spec fn one_line(s: Seq<char>, t: int) -> bool {
    forall|j: int| 0 <= j < t ==> s[j] != '\n'
}

/// The title can end at `t`: separators follow, then an episode marker.
pub open spec fn tv_split(s: Seq<char>, t: int) -> bool {
    &&& 1 <= t
    &&& one_line(s, t)
    &&& sep_run(s, t) >= 1
    &&& sxxexx_at(s, t + sep_run(s, t)) is Some
}

pub open spec fn tv_pred(s: Seq<char>) -> spec_fn(int) -> bool {
    |t: int| tv_split(s, t)
}

/// Where the shortest title followed by an episode marker ends.
pub open spec fn first_tv_split(s: Seq<char>) -> int {
    first_from(tv_pred(s), 1, s.len() as int)
}

/// A year from 1900 to 2099 at position `r`.
pub open spec fn year_digits_at(s: Seq<char>, r: int) -> bool {
    &&& 0 <= r
    &&& r + 4 <= s.len()
    &&& ((s[r] == '1' && s[r + 1] == '9') || (s[r] == '2' && s[r + 1] == '0'))
    &&& is_digit(s[r + 2])
    &&& is_digit(s[r + 3])
}

/// The title can end at `t`: dots, spaces or brackets may follow, then a year.
pub open spec fn movie_split(s: Seq<char>, t: int) -> bool {
    &&& 1 <= t
    &&& one_line(s, t)
    &&& year_digits_at(s, t + year_lead_run(s, t))
}

pub open spec fn movie_pred(s: Seq<char>) -> spec_fn(int) -> bool {
    |t: int| movie_split(s, t)
}

/// Where the shortest title followed by a year ends.
pub open spec fn first_movie_split(s: Seq<char>) -> int {
    first_from(movie_pred(s), 1, s.len() as int)
}

fn tv_split_check(s: &Vec<char>, t: usize, clean: bool) -> (r: bool)
    requires
        1 <= t <= s.len(),
        clean == one_line(s@, t as int),
    ensures
        r == tv_split(s@, t as int),
{
    if !clean {
        return false;
    }
    let k = sep_run_exec(s, t);
    k >= 1 && sxxexx_at_exec(s, t + k).is_some()
}

fn first_tv_split_exec(s: &Vec<char>) -> (r: usize)
    ensures
        r == first_tv_split(s@),
        1 <= r || s.len() == 0,
        r <= s.len() || s.len() == 0,
        r < s.len() ==> tv_split(s@, r as int),
{
    let n = s.len();
    if n == 0 {
        return 0;
    }
    let mut t: usize = 1;
    let mut clean = s[0] != '\n';
    assert(clean == one_line(s@, 1));
    while t < n && !tv_split_check(s, t, clean)
        invariant
            1 <= t <= n == s@.len(),
            clean == one_line(s@, t as int),
            forall|j: int| 1 <= j < t ==> !#[trigger] tv_split(s@, j),
        decreases n - t,
    {
        clean = clean && s[t] != '\n';
        assert(clean == one_line(s@, t + 1));
        t = t + 1;
    }
    proof {
        let p = tv_pred(s@);
        assert forall|j: int| 1 <= j < t implies !#[trigger] p(j) by {}
        if t < n {
            assert(p(t as int));
        }
        lemma_first_from_is(p, 1, n as int, t as int);
    }
    t
}

fn movie_split_check(s: &Vec<char>, t: usize, clean: bool) -> (r: bool)
    requires
        1 <= t <= s.len(),
        clean == one_line(s@, t as int),
    ensures
        r == movie_split(s@, t as int),
{
    if !clean {
        return false;
    }
    let r = t + year_lead_run_exec(s, t);
    if s.len() < 4 || r > s.len() - 4 {
        return false;
    }
    let a = s[r];
    let b = s[r + 1];
    ((a == '1' && b == '9') || (a == '2' && b == '0')) && crate::text::is_digit_exec(s[r + 2])
        && crate::text::is_digit_exec(s[r + 3])
}

fn first_movie_split_exec(s: &Vec<char>) -> (r: usize)
    ensures
        r == first_movie_split(s@),
        1 <= r || s.len() == 0,
        r <= s.len() || s.len() == 0,
        r < s.len() ==> movie_split(s@, r as int),
{
    let n = s.len();
    if n == 0 {
        return 0;
    }
    let mut t: usize = 1;
    let mut clean = s[0] != '\n';
    assert(clean == one_line(s@, 1));
    while t < n && !movie_split_check(s, t, clean)
        invariant
            1 <= t <= n == s@.len(),
            clean == one_line(s@, t as int),
            forall|j: int| 1 <= j < t ==> !#[trigger] movie_split(s@, j),
        decreases n - t,
    {
        clean = clean && s[t] != '\n';
        assert(clean == one_line(s@, t + 1));
        t = t + 1;
    }
    proof {
        let p = movie_pred(s@);
        assert forall|j: int| 1 <= j < t implies !#[trigger] p(j) by {}
        if t < n {
            assert(p(t as int));
        }
        lemma_first_from_is(p, 1, n as int, t as int);
    }
    t
}

/// A title as the file name grammar reads it: dots and underscores made
/// spaces, trimmed.
pub open spec fn clean_title(raw: Seq<char>) -> Seq<char> {
    trim(dots_to_spaces(raw))
}

fn clean_title_exec(raw: &Vec<char>) -> (r: Vec<char>)
    ensures
        r@ == clean_title(raw@),
{
    let d = dots_to_spaces_chars(raw);
    trim_chars(&d)
}

/// What a media file name says about the media in it.
#[derive(Clone, Debug, Default)]
pub struct ParsedMedia {
    pub title: String,
    pub year: Option<i32>,
    pub season: Option<i32>,
    pub episode: Option<i32>,
    pub resolution: Option<Resolution>,
    pub is_tv: bool,
}

pub struct ParsedView {
    pub title: Seq<char>,
    pub year: Option<int>,
    pub season: Option<int>,
    pub episode: Option<int>,
    pub resolution: Option<Resolution>,
    pub is_tv: bool,
}

pub open spec fn opt_int(o: Option<i32>) -> Option<int> {
    match o {
        Some(v) => Some(v as int),
        None => None,
    }
}

impl View for ParsedMedia {
    type V = ParsedView;

    open spec fn view(&self) -> ParsedView {
        ParsedView {
            title: self.title@,
            year: opt_int(self.year),
            season: opt_int(self.season),
            episode: opt_int(self.episode),
            resolution: self.resolution,
            is_tv: self.is_tv,
        }
    }
}

/// Reading a file stem.  In order: a stem that starts with an episode
/// marker (`S01E02`) is an episode whose title is left empty; a title, then
/// separators and an episode marker, is an episode of that title; a title,
/// then a year, is a movie of that year; anything else is a movie title.
/// The first resolution named anywhere is kept in every case.
pub open spec fn parse_stem(s: Seq<char>) -> ParsedView {
    let res = first_resolution(s);
    if sxxexx_at(s, 0) is Some {
        let se = sxxexx_at(s, 0)->0;
        ParsedView {
            title: Seq::<char>::empty(),
            year: None,
            season: Some(se.0),
            episode: Some(se.1),
            resolution: res,
            is_tv: true,
        }
    } else if first_tv_split(s) < s.len() {
        let t = first_tv_split(s);
        let se = sxxexx_at(s, t + sep_run(s, t))->0;
        ParsedView {
            title: clean_title(s.subrange(0, t)),
            year: None,
            season: Some(se.0),
            episode: Some(se.1),
            resolution: res,
            is_tv: true,
        }
    } else if first_movie_split(s) < s.len() {
        let t = first_movie_split(s);
        let r = t + year_lead_run(s, t);
        ParsedView {
            title: clean_title(s.subrange(0, t)),
            year: Some(num_value(s.subrange(r, r + 4))),
            season: None,
            episode: None,
            resolution: res,
            is_tv: false,
        }
    } else {
        ParsedView {
            title: clean_title(s),
            year: None,
            season: None,
            episode: None,
            resolution: res,
            is_tv: false,
        }
    }
}

/// What the name of a media file says: the stem of the file `name` names
/// (or `name` itself), read by `parse_stem`.
pub open spec fn parse_filename_spec(name: Seq<char>) -> ParsedView {
    parse_stem(stem_of(name))
}

fn parse_stem_exec(s: &Vec<char>) -> (r: ParsedMedia)
    ensures
        r@ == parse_stem(s@),
{
    let res = first_resolution_exec(s);
    let n = s.len();
    if let Some((a, b)) = sxxexx_at_exec(s, 0) {
        return ParsedMedia {
            title: String::new(),
            year: None,
            season: Some(a),
            episode: Some(b),
            resolution: res,
            is_tv: true,
        };
    }
    let t = first_tv_split_exec(s);
    if t < n {
        let k = sep_run_exec(s, t);
        match sxxexx_at_exec(s, t + k) {
            Some((a, b)) => {
                let raw = slice_of(s, 0, t);
                let title = clean_title_exec(&raw);
                return ParsedMedia {
                    title: from_chars(&title),
                    year: None,
                    season: Some(a),
                    episode: Some(b),
                    resolution: res,
                    is_tv: true,
                };
            },
            None => {
                assert(false);
            },
        }
    }
    let t = first_movie_split_exec(s);
    if t < n {
        let r = t + year_lead_run_exec(s, t);
        let raw = slice_of(s, 0, t);
        let title = clean_title_exec(&raw);
        let y = num_value_exec(s, r, r + 4);
        return ParsedMedia {
            title: from_chars(&title),
            year: Some(y),
            season: None,
            episode: None,
            resolution: res,
            is_tv: false,
        };
    }
    let title = clean_title_exec(s);
    ParsedMedia {
        title: from_chars(&title),
        year: None,
        season: None,
        episode: None,
        resolution: res,
        is_tv: false,
    }
}

/// Reads a media file name (`Inception.2010.1080p.mkv`,
/// `The.Office.S01E01.720p.mkv`, `S01E01 - Pilot.mkv`).
pub fn parse_filename(name: &str) -> (r: ParsedMedia)
    ensures
        r@ == parse_filename_spec(name@),
{
    let v = to_chars(name);
    let stem = stem_of_exec(&v);
    parse_stem_exec(&stem)
}

// ---------------------------------------------------------------------------
// Folder names.
// ---------------------------------------------------------------------------

pub open spec fn close_pred(s: Seq<char>) -> spec_fn(int) -> bool {
    |j: int| s[j] == ']'
}

/// Length of a leading `[site]` tag with the whitespace around it (0 if none).
pub open spec fn bracket_prefix_len(s: Seq<char>) -> int {
    let a = ws_run(s, 0) as int;
    if a < s.len() && s[a] == '[' {
        let k = first_from(close_pred(s), a + 1, s.len() as int);
        if k < s.len() {
            k + 1 + ws_run(s, k + 1)
        } else {
            0
        }
    } else {
        0
    }
}

/// `s` without a leading `[site]` tag.
pub open spec fn strip_bracket_prefix(s: Seq<char>) -> Seq<char> {
    s.subrange(bracket_prefix_len(s), s.len() as int)
}

/// `s` without a trailing year that follows whitespace (`Show 2012`).
pub open spec fn strip_year_suffix(s: Seq<char>) -> Seq<char> {
    let n = s.len() as int;
    if n >= 5 && year_digits_at(s, n - 4) && is_ws(s[n - 5]) {
        s.subrange(0, ws_back(s, 0, n - 4))
    } else {
        s
    }
}

/// A raw folder name made a show title: without a leading `[site]` tag,
/// dots and underscores made spaces, cut before the first season marker,
/// cut before the first release-noise word that follows whitespace, without
/// a trailing year, with whitespace squashed.  Empty when nothing is left
/// or when what is left still holds a release-noise word.
pub open spec fn clean_dir_name(raw: Seq<char>) -> Seq<char> {
    let a = strip_bracket_prefix(trim(raw));
    let b = dots_to_spaces(a);
    let c = cut_first(Lead::AnyWs, Core::SeasonMarker, Tail::LineEnd, b);
    let d = cut_first(Lead::SomeWs, Core::Words(Noise::Folder), Tail::LineEnd, c);
    let e = strip_year_suffix(trim_end(d));
    let f = squash(e);
    if f.len() == 0 || has_core(Core::Words(Noise::Release), f) {
        Seq::<char>::empty()
    } else {
        f
    }
}

fn strip_bracket_prefix_exec(s: &Vec<char>) -> (r: Vec<char>)
    ensures
        r@ == strip_bracket_prefix(s@),
{
    let n = s.len();
    let a = ws_run_exec(s, 0);
    if a < n && s[a] == '[' {
        let mut k = a + 1;
        while k < n && s[k] != ']'
            invariant
                a + 1 <= k <= n == s@.len(),
                forall|j: int| a + 1 <= j < k ==> s@[j] != ']',
            decreases n - k,
        {
            k = k + 1;
        }
        proof {
            let p = close_pred(s@);
            assert forall|j: int| a + 1 <= j < k implies !#[trigger] p(j) by {}
            lemma_first_from_is(p, a + 1, n as int, k as int);
        }
        if k < n {
            let e = k + 1 + ws_run_exec(s, k + 1);
            return slice_of(s, e, n);
        }
    }
    slice_of(s, 0, n)
}

fn strip_year_suffix_exec(s: &Vec<char>) -> (r: Vec<char>)
    ensures
        r@ == strip_year_suffix(s@),
{
    let n = s.len();
    if n >= 5 {
        let r = n - 4;
        let a = s[r];
        let b = s[r + 1];
        if ((a == '1' && b == '9') || (a == '2' && b == '0')) && is_digit_exec(s[r + 2])
            && is_digit_exec(s[r + 3]) && is_ws_exec(s[n - 5]) {
            let mut p = r;
            while p > 0 && is_ws_exec(s[p - 1])
                invariant
                    p <= r,
                    r + 4 == n == s@.len(),
                    ws_back(s@, 0, r as int) == ws_back(s@, 0, p as int),
                decreases p,
            {
                p = p - 1;
            }
            return slice_of(s, 0, p);
        }
    }
    slice_of(s, 0, n)
}

fn clean_dir_name_chars(raw: &Vec<char>) -> (r: Vec<char>)
    ensures
        r@ == clean_dir_name(raw@),
{
    let t = trim_chars(raw);
    let a = strip_bracket_prefix_exec(&t);
    let b = dots_to_spaces_chars(&a);
    let c = cut_first_chars(Lead::AnyWs, Core::SeasonMarker, Tail::LineEnd, &b);
    let d = cut_first_chars(Lead::SomeWs, Core::Words(Noise::Folder), Tail::LineEnd, &c);
    let d2 = trim_end_chars(&d);
    let e = strip_year_suffix_exec(&d2);
    let f = squash_chars(&e);
    if f.len() == 0 || has_core_chars(Core::Words(Noise::Release), &f) {
        Vec::new()
    } else {
        f
    }
}

/// Makes a raw folder name a show title
/// (`Better.Call.Saul.S04.1080p.BluRay.x265-KONTRAST` gives `Better Call Saul`);
/// empty when the name holds no usable title.
pub fn clean_dir_name_as_show_title(raw: &str) -> (r: String)
    ensures
        r@ == clean_dir_name(raw@),
{
    let v = to_chars(raw);
    let c = clean_dir_name_chars(&v);
    from_chars(&c)
}

// ---------------------------------------------------------------------------
// Walking up from a file to its show folder.
// ---------------------------------------------------------------------------

/// Where the number of a season folder name (`Season 01`, `series 2`,
/// `S3`) starts; -1 when the whole name is not of that form.
pub open spec fn season_folder_digits(name: Seq<char>) -> int {
    let j6: int = 6 + ws_run(name, 6) as int;
    let j1: int = 1 + ws_run(name, 1) as int;
    if ci_at(name, 0, "season"@) && digit_run(name, j6) >= 1 && j6 + digit_run(name, j6)
        == name.len() {
        j6
    } else if ci_at(name, 0, "series"@) && digit_run(name, j6) >= 1 && j6 + digit_run(name, j6)
        == name.len() {
        j6
    } else if ci_at(name, 0, "s"@) && digit_run(name, j1) >= 1 && j1 + digit_run(name, j1)
        == name.len() {
        j1
    } else {
        -1
    }
}

/// The number of a season folder as an `i32` (none when it does not fit).
pub open spec fn season_folder_number(name: Seq<char>) -> Option<int> {
    let v = num_value(name.subrange(season_folder_digits(name), name.len() as int));
    if v <= i32::MAX {
        Some(v)
    } else {
        None
    }
}

pub proof fn lemma_num_value_prefix(d: Seq<char>, k: int)
    requires
        0 <= k <= d.len(),
        forall|i: int| 0 <= i < d.len() ==> is_digit(#[trigger] d[i]),
    ensures
        num_value(d.subrange(0, k)) <= num_value(d),
    decreases d.len() - k,
{
    if k < d.len() {
        lemma_num_value_prefix(d, k + 1);
        let a = d.subrange(0, k);
        let b = d.subrange(0, k + 1);
        assert(b.drop_last() =~= a);
        lemma_num_value_bound(a);
        assert(is_digit(d[k]));
    } else {
        assert(d.subrange(0, k) =~= d);
    }
}

fn season_folder_digits_exec(name: &Vec<char>) -> (r: Option<usize>)
    ensures
        match r {
            Some(j) => j as int == season_folder_digits(name@) && j <= name.len(),
            None => season_folder_digits(name@) < 0,
        },
{
    let n = name.len();
    proof {
        reveal_strlit("season");
        reveal_strlit("series");
        reveal_strlit("s");
    }
    if ci_at_exec(name, 0, "season") {
        let j = 6 + ws_run_exec(name, 6);
        let d = digit_run_exec(name, j);
        if d >= 1 && j + d == n {
            return Some(j);
        }
    }
    if ci_at_exec(name, 0, "series") {
        let j = 6 + ws_run_exec(name, 6);
        let d = digit_run_exec(name, j);
        if d >= 1 && j + d == n {
            return Some(j);
        }
    }
    if ci_at_exec(name, 0, "s") {
        let j = 1 + ws_run_exec(name, 1);
        let d = digit_run_exec(name, j);
        if d >= 1 && j + d == n {
            return Some(j);
        }
    }
    None
}

pub fn parse_i32_digits(s: &Vec<char>, a: usize) -> (r: Option<i32>)
    requires
        a <= s.len(),
        forall|i: int| a <= i < s.len() ==> is_digit(#[trigger] s@[i]),
    ensures
        r == (if num_value(s@.subrange(a as int, s.len() as int)) <= i32::MAX {
            Some(num_value(s@.subrange(a as int, s.len() as int)) as i32)
        } else {
            None::<i32>
        }),
{
    let n = s.len();
    let mut v: i64 = 0;
    let mut i = a;
    while i < n
        invariant
            a <= i <= n == s@.len(),
            forall|j: int| a <= j < n ==> is_digit(#[trigger] s@[j]),
            v as int == num_value(s@.subrange(a as int, i as int)),
            0 <= v <= i32::MAX,
        decreases n - i,
    {
        let c = s[i];
        assert(is_digit(s@[i as int]));
        assert(s@.subrange(a as int, i + 1).drop_last() =~= s@.subrange(a as int, i as int));
        let d = (c as u32 - 48) as i64;
        let w = v * 10 + d;
        if w > i32::MAX as i64 {
            proof {
                let full = s@.subrange(a as int, n as int);
                assert(full.subrange(0, i + 1 - a) =~= s@.subrange(a as int, i + 1));
                lemma_num_value_prefix(full, i + 1 - a);
            }
            return None;
        }
        v = w;
        i = i + 1;
    }
    Some(v as i32)
}

/// `a` and `b` hold the same characters.
pub fn chars_eq(a: &Vec<char>, b: &Vec<char>) -> (r: bool)
    ensures
        r == (a@ == b@),
{
    if a.len() != b.len() {
        return false;
    }
    let mut i: usize = 0;
    while i < a.len()
        invariant
            i <= a.len() == b.len(),
            forall|j: int| 0 <= j < i ==> a@[j] == b@[j],
        decreases a.len() - i,
    {
        if a[i] != b[i] {
            return false;
        }
        i = i + 1;
    }
    assert(a@ =~= b@);
    true
}

fn parts_prefix_eq(a: &Vec<Vec<char>>, b: &Vec<Vec<char>>, k: usize) -> (r: bool)
    requires
        k <= a.len(),
        k <= b.len(),
    ensures
        r == (a@.map_values(|v: Vec<char>| v@).subrange(0, k as int) =~= b@.map_values(
            |v: Vec<char>| v@,
        ).subrange(0, k as int)),
{
    let ghost av = a@.map_values(|v: Vec<char>| v@);
    let ghost bv = b@.map_values(|v: Vec<char>| v@);
    let mut i: usize = 0;
    while i < k
        invariant
            i <= k <= a.len(),
            k <= b.len(),
            av == a@.map_values(|v: Vec<char>| v@),
            bv == b@.map_values(|v: Vec<char>| v@),
            forall|j: int| 0 <= j < i ==> av[j] == bv[j],
        decreases k - i,
    {
        if !chars_eq(&a[i], &b[i]) {
            assert(av.subrange(0, k as int)[i as int] != bv.subrange(0, k as int)[i as int]);
            return false;
        }
        i = i + 1;
    }
    assert(av.subrange(0, k as int) =~= bv.subrange(0, k as int));
    true
}

/// `a` and `b` have the same components.
pub fn path_eq(a: &PathParts, b: &PathParts) -> (r: bool)
    ensures
        r == (a@ == b@),
{
    if a.rooted != b.rooted || a.curdir != b.curdir || a.parts.len() != b.parts.len() {
        assert(a@.parts.len() == a.parts.len());
        assert(b@.parts.len() == b.parts.len());
        return false;
    }
    let r = parts_prefix_eq(&a.parts, &b.parts, a.parts.len());
    proof {
        let av = a.parts@.map_values(|v: Vec<char>| v@);
        let bv = b.parts@.map_values(|v: Vec<char>| v@);
        assert(av.subrange(0, av.len() as int) =~= av);
        assert(bv.subrange(0, bv.len() as int) =~= bv);
    }
    r
}

/// `b`'s components are a prefix of `a`'s.
pub fn path_starts_with(a: &PathParts, b: &PathParts) -> (r: bool)
    ensures
        r == view_starts_with(a@, b@),
{
    if !b.rooted && !b.curdir && b.parts.len() == 0 {
        return true;
    }
    if a.rooted != b.rooted || a.curdir != b.curdir || b.parts.len() > a.parts.len() {
        return false;
    }
    let r = parts_prefix_eq(&a.parts, &b.parts, b.parts.len());
    proof {
        let bv = b.parts@.map_values(|v: Vec<char>| v@);
        assert(bv.subrange(0, bv.len() as int) =~= bv);
    }
    r
}

pub fn copy_parts(v: &Vec<Vec<char>>) -> (r: Vec<Vec<char>>)
    ensures
        r@.map_values(|x: Vec<char>| x@) == v@.map_values(|x: Vec<char>| x@),
{
    let mut r: Vec<Vec<char>> = Vec::new();
    let mut i: usize = 0;
    while i < v.len()
        invariant
            i <= v.len(),
            r@.map_values(|x: Vec<char>| x@) =~= v@.map_values(|x: Vec<char>| x@).subrange(0, i as int),
        decreases v.len() - i,
    {
        let c = slice_of(&v[i], 0, v[i].len());
        assert(c@ =~= v@[i as int]@);
        let ghost before = r@;
        r.push(c);
        assert(r@.map_values(|x: Vec<char>| x@) =~= before.map_values(|x: Vec<char>| x@).push(c@));
        i = i + 1;
    }
    r
}

/// Makes `p` its parent; false (and `p` unchanged) when it has none.
pub fn to_parent(p: &mut PathParts) -> (r: bool)
    ensures
        r == (view_parent(old(p)@) is Some),
        r ==> final(p)@ == view_parent(old(p)@)->0,
        !r ==> final(p)@ == old(p)@,
{
    if p.parts.len() > 0 {
        let ghost before = p.parts@;
        p.parts.pop();
        assert(p.parts@.map_values(|v: Vec<char>| v@) =~= before.map_values(|v: Vec<char>| v@).drop_last());
        assert(p@ =~= view_parent(old(p)@)->0);
        true
    } else if p.curdir {
        p.curdir = false;
        p.rooted = false;
        assert(p@ =~= view_parent(old(p)@)->0);
        true
    } else {
        false
    }
}

pub open spec fn view_measure(p: PathView) -> int {
    p.parts.len() + if p.curdir { 1int } else { 0int }
}

/// Walking up from `dir` while it lies strictly inside `root`: season
/// folders set the season (when none was known) and are passed; the first
/// other folder whose cleaned name is not empty gives the show title.
pub open spec fn resolve_from(dir: PathView, root: PathView, hint: Option<int>) -> (
    Option<Seq<char>>,
    Option<int>,
)
    decreases view_measure(dir),
{
    if dir == root || !view_starts_with(dir, root) {
        (None, hint)
    } else {
        let next = view_parent(dir);
        match view_file_name(dir) {
            Some(name) => {
                if season_folder_digits(name) >= 0 {
                    let h = if hint is None { season_folder_number(name) } else { hint };
                    match next {
                        Some(p) => if view_measure(p) < view_measure(dir) {
                            resolve_from(p, root, h)
                        } else {
                            (None, h)
                        },
                        None => (None, h),
                    }
                } else if clean_dir_name(name).len() > 0 {
                    (Some(clean_dir_name(name)), hint)
                } else {
                    match next {
                        Some(p) => if view_measure(p) < view_measure(dir) {
                            resolve_from(p, root, hint)
                        } else {
                            (None, hint)
                        },
                        None => (None, hint),
                    }
                }
            },
            None => match next {
                Some(p) => if view_measure(p) < view_measure(dir) {
                    resolve_from(p, root, hint)
                } else {
                    (None, hint)
                },
                None => (None, hint),
            },
        }
    }
}

/// The show title found above the file at `path`, and the season hint.
pub open spec fn resolve_show_title(path: PathView, root: PathView, hint: Option<int>) -> (
    Option<Seq<char>>,
    Option<int>,
) {
    match view_parent(path) {
        Some(d) => resolve_from(d, root, hint),
        None => (None, hint),
    }
}

pub open spec fn opt_i32_view(o: Option<i32>) -> Option<int> {
    opt_int(o)
}

fn resolve_show_title_exec(path: &PathParts, root: &PathParts, hint: Option<i32>) -> (r: (
    Option<Vec<char>>,
    Option<i32>,
))
    ensures
        opt_int(r.1) == resolve_show_title(path@, root@, opt_int(hint)).1,
        match r.0 {
            Some(t) => resolve_show_title(path@, root@, opt_int(hint)).0 == Some(t@),
            None => resolve_show_title(path@, root@, opt_int(hint)).0 is None,
        },
{
    let mut cur = PathParts { rooted: path.rooted, curdir: path.curdir, parts: copy_parts(&path.parts) };
    assert(cur@ =~= path@);
    let mut h = hint;
    if !to_parent(&mut cur) {
        return (None, h);
    }
    loop
        invariant
            resolve_show_title(path@, root@, opt_int(hint)) == resolve_from(cur@, root@, opt_int(h)),
        decreases view_measure(cur@),
    {
        if path_eq(&cur, root) || !path_starts_with(&cur, root) {
            return (None, h);
        }
        let ghost here = cur@;
        let ghost h0 = h;
        match file_name_of(&cur) {
            Some(name) => {
                let jo = season_folder_digits_exec(&name);
                if let Some(j) = jo {
                    if h.is_none() {
                        proof {
                            lemma_digit_run(name@, j as int);
                        }
                        h = parse_i32_digits(&name, j);
                        proof {
                            let d = name@.subrange(j as int, name@.len() as int);
                            assert forall|i: int| 0 <= i < d.len() implies is_digit(#[trigger] d[i]) by {
                                assert(d[i] == name@[j + i]);
                            }
                            lemma_num_value_bound(d);
                        }
                        assert(opt_int(h) == season_folder_number(name@));
                    }
                } else {
                    let c = clean_dir_name_chars(&name);
                    if c.len() > 0 {
                        return (Some(c), h);
                    }
                }
            },
            None => {},
        }
        if !to_parent(&mut cur) {
            return (None, h);
        }
        assert(view_measure(cur@) < view_measure(here));
        assert(view_parent(here) == Some(cur@));
        assert(resolve_from(here, root@, opt_int(h0)) == resolve_from(cur@, root@, opt_int(h)));
    }
}

/// A title that still holds a release-noise word.
pub open spec fn is_release_noise(t: Seq<char>) -> bool {
    has_core(Core::Words(Noise::Release), t)
}

/// Reading a media file's path (`path` inside the library at `root`).
///
/// For a TV library the file name is read first; when it gives no title, or
/// only release noise, the show title comes from the nearest folder above
/// the file, inside the library, that is not a season folder and whose name
/// cleans to a title; season folders passed on the way give the season when
/// the file name gave none.
///
/// For a movie library the title is cleaned as a folder name; when the
/// result has no year, or is release noise, the file's own folder (when it
/// lies strictly inside the library) is read as `Title.Year...` after its
/// `[site]` tag: its title (cleaned) and year are taken.
pub open spec fn parse_file_path_spec(path: Seq<char>, root: Seq<char>, is_tv: bool) -> ParsedView {
    let fname = match file_name(path) {
        Some(f) => f,
        None => Seq::<char>::empty(),
    };
    let parsed = parse_filename_spec(fname);
    let pv = path_view(path);
    let rv = path_view(root);
    if is_tv {
        if parsed.title.len() > 0 && !is_release_noise(parsed.title) {
            parsed
        } else {
            let r = resolve_show_title(pv, rv, parsed.season);
            match r.0 {
                Some(t) => ParsedView { title: t, season: r.1, is_tv: true, ..parsed },
                None => ParsedView { season: r.1, ..parsed },
            }
        }
    } else {
        let cleaned = clean_dir_name(parsed.title);
        let p2 = ParsedView {
            title: if cleaned.len() > 0 { cleaned } else { parsed.title },
            is_tv: false,
            ..parsed
        };
        if p2.title.len() > 0 && p2.year is Some && !is_release_noise(p2.title) {
            p2
        } else {
            match view_parent(pv) {
                Some(par) => {
                    if par != rv && view_starts_with(par, rv) && view_file_name(par) is Some {
                        let cd = strip_bracket_prefix(trim(view_file_name(par)->0));
                        let t = first_movie_split(cd);
                        if t < cd.len() {
                            let title = clean_title(cd.subrange(0, t));
                            let r = t + year_lead_run(cd, t);
                            let fin = clean_dir_name(title);
                            ParsedView {
                                title: if fin.len() > 0 { fin } else { title },
                                year: Some(num_value(cd.subrange(r, r + 4))),
                                ..p2
                            }
                        } else {
                            p2
                        }
                    } else {
                        p2
                    }
                },
                None => p2,
            }
        }
    }
}

/// Reads a media file's path with the folders above it
/// (see `parse_file_path_spec`).
pub fn parse_file_path(path: &str, library_root: &str, is_tv: bool) -> (r: ParsedMedia)
    ensures
        r@ == parse_file_path_spec(path@, library_root@, is_tv),
{
    let pchars = to_chars(path);
    let rchars = to_chars(library_root);
    let pv = path_parts_of(&pchars);
    let rv = path_parts_of(&rchars);
    let fname = match file_name_of(&pv) {
        Some(f) => f,
        None => Vec::new(),
    };
    let fstem = stem_of_exec(&fname);
    let mut parsed = parse_stem_exec(&fstem);
    if is_tv {
        let tchars = to_chars(parsed.title.as_str());
        if tchars.len() > 0 && !has_core_chars(Core::Words(Noise::Release), &tchars) {
            return parsed;
        }
        let (t, h) = resolve_show_title_exec(&pv, &rv, parsed.season);
        parsed.season = h;
        if let Some(t) = t {
            parsed.title = from_chars(&t);
            parsed.is_tv = true;
        }
        return parsed;
    }
    parsed.is_tv = false;
    let tchars = to_chars(parsed.title.as_str());
    let cleaned = clean_dir_name_chars(&tchars);
    if cleaned.len() > 0 {
        parsed.title = from_chars(&cleaned);
    }
    let t2 = to_chars(parsed.title.as_str());
    if t2.len() > 0 && parsed.year.is_some() && !has_core_chars(Core::Words(Noise::Release), &t2) {
        return parsed;
    }
    let mut par = pv;
    if to_parent(&mut par) && !path_eq(&par, &rv) && path_starts_with(&par, &rv) {
        if let Some(dir) = file_name_of(&par) {
            let dt = trim_chars(&dir);
            let cd = strip_bracket_prefix_exec(&dt);
            let t = first_movie_split_exec(&cd);
            if t < cd.len() {
                let raw = slice_of(&cd, 0, t);
                let title = clean_title_exec(&raw);
                let r = t + year_lead_run_exec(&cd, t);
                let y = num_value_exec(&cd, r, r + 4);
                let fin = clean_dir_name_chars(&title);
                parsed.title = if fin.len() > 0 { from_chars(&fin) } else { from_chars(&title) };
                parsed.year = Some(y);
            }
        }
    }
    parsed
}

/// A resolution is read at a place exactly where its own name (`2160p`,
/// `1080p`, `720p`, `576p`, `480p` or `imax`, in any ASCII case) stands
/// there.
pub proof fn lemma_resolution_read_is_named(s: Seq<char>, q: int, r: Resolution)
    ensures
        res_at(s, q) == Some(r) <==> ci_at(s, q, crate::models::resolution_text(r)),
{
    reveal_strlit("2160p");
    reveal_strlit("1080p");
    reveal_strlit("720p");
    reveal_strlit("576p");
    reveal_strlit("480p");
    reveal_strlit("imax");
    let names = seq!["2160p"@, "1080p"@, "720p"@, "576p"@, "480p"@, "imax"@];
    // Two different names never stand at the same place: their first
    // characters differ.
    if ci_at(s, q, crate::models::resolution_text(r)) {
        assert(crate::text::ci_eq(s[q + 0], crate::models::resolution_text(r)[0]));
        assert(crate::text::ci_eq(s[q + 0], "2160p"@[0]) ==> !crate::text::ci_eq(s[q + 0], "1080p"@[0]));
    }
    if ci_at(s, q, "2160p"@) {
        assert(crate::text::ci_eq(s[q + 0], '2'));
    }
    if ci_at(s, q, "1080p"@) {
        assert(crate::text::ci_eq(s[q + 0], '1'));
    }
    if ci_at(s, q, "720p"@) {
        assert(crate::text::ci_eq(s[q + 0], '7'));
    }
    if ci_at(s, q, "576p"@) {
        assert(crate::text::ci_eq(s[q + 0], '5'));
    }
    if ci_at(s, q, "480p"@) {
        assert(crate::text::ci_eq(s[q + 0], '4'));
    }
    if ci_at(s, q, "imax"@) {
        assert(crate::text::ci_eq(s[q + 0], 'i'));
    }
}

/// The resolution of a name is the one named first in it: its name stands
/// at some place, and no resolution's name stands before that place; a
/// name with no resolution name in it has none.
pub proof fn lemma_first_resolution_is_named_first(s: Seq<char>)
    ensures
        match first_resolution(s) {
            Some(r) => exists|q: int|
                0 <= q < s.len() && ci_at(s, q, crate::models::resolution_text(r)) && forall|p: int, r2: Resolution|
                    0 <= p < q ==> !#[trigger] ci_at(s, p, crate::models::resolution_text(r2)),
            None => forall|p: int, r2: Resolution|
                0 <= p < s.len() ==> !#[trigger] ci_at(s, p, crate::models::resolution_text(r2)),
        },
{
    let q = first_from(res_pred(s), 0, s.len() as int);
    lemma_first_from(res_pred(s), 0, s.len() as int);
    assert forall|p: int, r2: Resolution| 0 <= p < q implies !#[trigger] ci_at(s, p, crate::models::resolution_text(r2)) by {
        assert(!res_pred(s)(p));
        lemma_resolution_read_is_named(s, p, r2);
    }
    if q < s.len() {
        let r = res_at(s, q)->0;
        assert(res_pred(s)(q));
        lemma_resolution_read_is_named(s, q, r);
    }
}

proof fn lemma_ws_run_exact(s: Seq<char>, i: int, k: int)
    requires
        0 <= i,
        i + k <= s.len(),
        0 <= k,
        forall|j: int| i <= j < i + k ==> is_ws(#[trigger] s[j]),
        i + k < s.len() ==> !is_ws(s[i + k]),
    ensures
        ws_run(s, i) == k,
    decreases k,
{
    if k > 0 {
        lemma_ws_run_exact(s, i + 1, k - 1);
    }
}

proof fn lemma_digit_run_exact(s: Seq<char>, i: int, k: int)
    requires
        0 <= i,
        i + k == s.len(),
        0 <= k,
        forall|j: int| i <= j < i + k ==> is_digit(#[trigger] s[j]),
    ensures
        digit_run(s, i) == k,
    decreases k,
{
    if k > 0 {
        lemma_digit_run_exact(s, i + 1, k - 1);
    }
}

/// A folder named `Season`, `Series` or `S` (in any ASCII case), then
/// any whitespace, then a number, is a season folder: its number is read
/// after the whitespace (when it fits an `i32`), and so such a folder is
/// never taken for a show.
pub proof fn lemma_season_folder_names(p: Seq<char>, w: Seq<char>, d: Seq<char>)
    requires
        crate::text::ci_is(p, "season"@) || crate::text::ci_is(p, "series"@) || crate::text::ci_is(p, "s"@),
        forall|j: int| 0 <= j < w.len() ==> is_ws(#[trigger] w[j]),
        d.len() >= 1,
        forall|j: int| 0 <= j < d.len() ==> is_digit(#[trigger] d[j]),
    ensures
        season_folder_digits(p + w + d) == p.len() + w.len(),
        season_folder_number(p + w + d) == if num_value(d) <= i32::MAX {
            Some(num_value(d))
        } else {
            None
        },
{
    reveal_strlit("season");
    reveal_strlit("series");
    reveal_strlit("s");
    let n = p + w + d;
    let k = p.len() as int;
    assert forall|j: int| 0 <= j < k implies n[j] == p[j] by {}
    assert forall|j: int| k <= j < k + w.len() implies is_ws(#[trigger] n[j]) by {
        assert(n[j] == w[j - k]);
    }
    assert forall|j: int| k + w.len() <= j < n.len() implies is_digit(#[trigger] n[j]) by {
        assert(n[j] == d[j - k - w.len()]);
    }
    assert(n[k + w.len()] == d[0]);
    assert(!is_ws(d[0]));
    lemma_ws_run_exact(n, k, w.len() as int);
    lemma_digit_run_exact(n, k + w.len(), d.len() as int);
    assert(n.subrange(k + w.len(), n.len() as int) =~= d);
    if crate::text::ci_is(p, "season"@) || crate::text::ci_is(p, "series"@) {
        if crate::text::ci_is(p, "season"@) {
            assert forall|i: int| 0 <= i < 6 implies ci_eq(#[trigger] n[0 + i], "season"@[i]) by {
                assert(ci_eq(p[0 + i], "season"@[i]));
            }
            assert(ci_at(n, 0, "season"@));
        } else {
            assert forall|i: int| 0 <= i < 6 implies ci_eq(#[trigger] n[0 + i], "series"@[i]) by {
                assert(ci_eq(p[0 + i], "series"@[i]));
            }
            assert(ci_at(n, 0, "series"@));
        }
    } else {
        assert(ci_eq(p[0int + 0int], 's'));
        assert(ci_eq(n[0int + 0int], "s"@[0]));
        assert(ci_at(n, 0, "s"@));
        assert(1 < n.len());
        let c = n[1];
        assert(is_ws(c) || is_digit(c));
        assert(!ci_eq(n[0int + 1int], "season"@[1]));
        assert(!ci_at(n, 0, "season"@));
        assert(!ci_eq(n[0int + 1int], "series"@[1]));
        assert(!ci_at(n, 0, "series"@));
    }
}

/// Walking up from a file to find its show, a folder named `Season`,
/// `Series` or `S` (any ASCII case), whitespace and a number is passed
/// over: the show is looked for from the folder above, and the folder's
/// number becomes the season unless one is already known.
pub proof fn lemma_season_folder_walked_past(
    dir: PathView,
    root: PathView,
    hint: Option<int>,
    parent: PathView,
    p: Seq<char>,
    w: Seq<char>,
    d: Seq<char>,
)
    requires
        dir != root,
        view_starts_with(dir, root),
        view_file_name(dir) == Some(p + w + d),
        view_parent(dir) == Some(parent),
        view_measure(parent) < view_measure(dir),
        crate::text::ci_is(p, "season"@) || crate::text::ci_is(p, "series"@) || crate::text::ci_is(p, "s"@),
        forall|j: int| 0 <= j < w.len() ==> is_ws(#[trigger] w[j]),
        d.len() >= 1,
        forall|j: int| 0 <= j < d.len() ==> is_digit(#[trigger] d[j]),
        num_value(d) <= i32::MAX,
    ensures
        resolve_from(dir, root, hint) == resolve_from(
            parent,
            root,
            if hint is None { Some(num_value(d)) } else { hint },
        ),
{
    lemma_season_folder_names(p, w, d);
}

/// The resolution a file name is read with is the one named first in its
/// stem (by `2160p`, `1080p`, `720p`, `576p`, `480p` or `imax`, in any
/// ASCII case), and none when no such name stands in it.
pub proof fn lemma_parsed_resolution_is_named_first(name: Seq<char>)
    ensures
        ({
            let s = stem_of(name);
            match parse_filename_spec(name).resolution {
                Some(r) => exists|q: int|
                    0 <= q < s.len() && ci_at(s, q, crate::models::resolution_text(r)) && forall|p: int, r2: Resolution|
                        0 <= p < q ==> !#[trigger] ci_at(s, p, crate::models::resolution_text(r2)),
                None => forall|p: int, r2: Resolution|
                    0 <= p < s.len() ==> !#[trigger] ci_at(s, p, crate::models::resolution_text(r2)),
            }
        }),
{
    lemma_first_resolution_is_named_first(stem_of(name));
}

/// The words that mark a title as release noise.
pub open spec fn release_noise_words() -> Seq<Seq<char>> {
    seq!["2160p"@, "1080p"@, "720p"@, "480p"@, "576p"@, "x264"@, "x265"@, "h264"@, "h265"@, "10bit"@, "bluray"@, "web-dl"@, "web dl"@, "webdl"@, "webrip"@, "hdtv"@, "brrip"@, "hdrip"@, "proper"@, "repack"@, "hevc"@, "avc"@, "aac"@, "ddp"@, "nf"@, "amzn"@, "complete"@, "galaxy"@, "tv"@, "mkvcage"@, "eztv"@, "yts"@, "rarbg"@, "1337x"@, "tgx"@, "psarips"@, "kontrast"@, "minx"@, "memento"@]
}

/// A title is release noise exactly when one of the release-noise words
/// stands in it as a whole word, in any ASCII case.
pub proof fn lemma_release_noise_rule(t: Seq<char>)
    ensures
        is_release_noise(t) <==> exists|q: int|
            0 <= q < t.len() && #[trigger] crate::pattern::word_listed_at(release_noise_words(), t, q),
{
    let pr = crate::pattern::cand_pred(Lead::Bare, Core::Words(Noise::Release), t, 0);
    lemma_first_from(pr, 0, t.len() as int);
    let q = first_from(pr, 0, t.len() as int);
    if q < t.len() {
        crate::pattern::lemma_release_noise_words(t, q);
        assert(pr(q));
        assert(crate::pattern::word_listed_at(release_noise_words(), t, q));
    }
    if exists|p: int| 0 <= p < t.len() && #[trigger] crate::pattern::word_listed_at(release_noise_words(), t, p) {
        let p = choose|p: int| 0 <= p < t.len() && #[trigger] crate::pattern::word_listed_at(release_noise_words(), t, p);
        crate::pattern::lemma_release_noise_words(t, p);
        assert(pr(p));
        assert(q <= p);
    }
}

/// A folder name made a show title never holds a release-noise word.
pub proof fn lemma_clean_dir_name_is_free_of_release_noise(raw: Seq<char>)
    ensures
        forall|q: int| 0 <= q < clean_dir_name(raw).len() ==> !#[trigger] crate::pattern::word_listed_at(
            release_noise_words(),
            clean_dir_name(raw),
            q,
        ),
{
    let f = clean_dir_name(raw);
    if f.len() > 0 {
        lemma_release_noise_rule(f);
        assert(!has_core(Core::Words(Noise::Release), f));
        assert(!is_release_noise(f));
    }
}

} // verus!
