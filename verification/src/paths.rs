//! Paths stored relative to their library, with `/` separators and text in
//! Unicode normal form C.
use vstd::prelude::*;
use unicode_normalization::UnicodeNormalization;
use crate::text::{to_chars, from_chars, slice_of, push_range, push_str};
use crate::parser::{
    keep_part, path_view, path_parts_of, path_starts_with, view_starts_with, PathParts,
    extension_of, extension_exec, scan_parts, path_parts, path_rooted, path_curdir, PathView,
};

verus! {

/// The Unicode normal form C (canonical composition) of `s`.
pub uninterp spec fn nfc(s: Seq<char>) -> Seq<char>;

/// Runs `UnicodeNormalization::nfc` of the `unicode-normalization` crate
/// and collects the characters; the contract names the result and states
/// that it is in normal form C, so that normalizing it again changes
/// nothing (the crate implements the normal forms of Unicode Standard
/// Annex #15, which are idempotent), and that it holds no `\` where `s`
/// holds none (the crate's canonical tables neither decompose any
/// character into `\` nor compose one from it).
#[verifier::external_body]
fn nfc_string(s: &str) -> (r: String)
    ensures
        r@ == nfc(s@),
        nfc(r@) == r@,
        !s@.contains('\\') ==> !r@.contains('\\'),
{
    s.nfc().collect::<String>()
}

/// `s` with every `\` made `/`.
pub open spec fn backslashes_to_slashes(s: Seq<char>) -> Seq<char> {
    s.map_values(|c: char| if c == '\\' { '/' } else { c })
}

/// A path written with `/` separators, in normal form C.
pub open spec fn normalized_path(s: Seq<char>) -> Seq<char> {
    nfc(backslashes_to_slashes(s))
}

/// Writes a path with `/` separators and in Unicode normal form C.  The
/// result holds no `\`, and normalizing it again changes nothing.
pub fn normalize_slashes(path: &str) -> (r: String)
    ensures
        r@ == normalized_path(path@),
        nfc(r@) == r@,
        !r@.contains('\\'),
        normalized_path(r@) == r@,
{
    let v = to_chars(path);
    let mut out: Vec<char> = Vec::new();
    let mut i: usize = 0;
    while i < v.len()
        invariant
            i <= v.len(),
            out@ == backslashes_to_slashes(v@.subrange(0, i as int)),
        decreases v.len() - i,
    {
        let c = v[i];
        out.push(if c == '\\' { '/' } else { c });
        assert(backslashes_to_slashes(v@.subrange(0, i + 1)) =~= backslashes_to_slashes(
            v@.subrange(0, i as int),
        ).push(if c == '\\' { '/' } else { c }));
        i = i + 1;
    }
    assert(v@.subrange(0, v.len() as int) =~= v@);
    let t = from_chars(&out);
    proof {
        lemma_no_backslash_after(v@);
    }
    let r = nfc_string(t.as_str());
    proof {
        lemma_slashes_kept(r@);
    }
    r
}

proof fn lemma_no_backslash_after(s: Seq<char>)
    ensures
        !backslashes_to_slashes(s).contains('\\'),
{
    if backslashes_to_slashes(s).contains('\\') {
        let i = choose|i: int| 0 <= i < backslashes_to_slashes(s).len() && backslashes_to_slashes(s)[i] == '\\';
        assert(backslashes_to_slashes(s)[i] == (if s[i] == '\\' { '/' } else { s[i] }));
    }
}

proof fn lemma_slashes_kept(s: Seq<char>)
    requires
        !s.contains('\\'),
    ensures
        backslashes_to_slashes(s) == s,
{
    assert forall|i: int| 0 <= i < s.len() implies backslashes_to_slashes(s)[i] == s[i] by {
        if s[i] == '\\' {
            assert(s.contains('\\'));
        }
    }
    assert(backslashes_to_slashes(s) =~= s);
}

/// Scanning `s`: the spans of the parts kept so far, and where the part
/// being read starts.
pub open spec fn scan_spans(s: Seq<char>) -> (Seq<(int, int)>, int)
    decreases s.len(),
{
    if s.len() == 0 {
        (Seq::<(int, int)>::empty(), 0)
    } else {
        let prev = scan_spans(s.drop_last());
        let n = s.len() as int;
        if s.last() == '/' {
            (
                if keep_part(s.subrange(prev.1, n - 1)) {
                    prev.0.push((prev.1, n - 1))
                } else {
                    prev.0
                },
                n,
            )
        } else {
            prev
        }
    }
}

/// Where each named component of path `s` stands in `s`.
pub open spec fn part_spans(s: Seq<char>) -> Seq<(int, int)> {
    let sc = scan_spans(s);
    if keep_part(s.subrange(sc.1, s.len() as int)) {
        sc.0.push((sc.1, s.len() as int))
    } else {
        sc.0
    }
}

proof fn lemma_scan_spans(s: Seq<char>)
    ensures
        0 <= scan_spans(s).1 <= s.len(),
        forall|i: int|
            0 <= i < scan_spans(s).0.len() ==> 0 <= (#[trigger] scan_spans(s).0[i]).0 <= scan_spans(
                s,
            ).0[i].1 < scan_spans(s).1,
        forall|i: int, j: int|
            0 <= i < j < scan_spans(s).0.len() ==> (#[trigger] scan_spans(s).0[i]).1 <= (
            #[trigger] scan_spans(s).0[j]).0,
    decreases s.len(),
{
    if s.len() > 0 {
        lemma_scan_spans(s.drop_last());
    }
}

pub proof fn lemma_part_spans(s: Seq<char>)
    ensures
        forall|i: int|
            0 <= i < part_spans(s).len() ==> 0 <= (#[trigger] part_spans(s)[i]).0 <= part_spans(
                s,
            )[i].1 <= s.len(),
        forall|i: int, j: int|
            0 <= i < j < part_spans(s).len() ==> (#[trigger] part_spans(s)[i]).1 <= (
            #[trigger] part_spans(s)[j]).0,
{
    lemma_scan_spans(s);
}

/// The text of the path `full` after the components of `root` (which must
/// start it): from the first remaining named component to the end of the
/// last one; the whole path without trailing separators when `root` has no
/// component.
pub open spec fn text_after_prefix(full: Seq<char>, root: Seq<char>) -> Seq<char> {
    let sp = part_spans(full);
    let k = path_view(root).parts.len();
    if !path_view(root).rooted && !path_view(root).curdir && k == 0 {
        if sp.len() > 0 {
            full.subrange(0, sp.last().1)
        } else if path_view(full).rooted {
            seq!['/']
        } else if path_view(full).curdir {
            seq!['.']
        } else {
            Seq::<char>::empty()
        }
    } else if k < sp.len() {
        full.subrange(sp[k as int].0, sp.last().1)
    } else {
        Seq::<char>::empty()
    }
}

/// Why a path could not be made relative.
#[derive(Clone, Debug)]
pub enum PathError {
    /// The path does not lie within the library root.
    NotWithinRoot { path: String, root: String },
}

pub open spec fn relative_path(full: Seq<char>, root: Seq<char>) -> Option<Seq<char>> {
    if view_starts_with(path_view(full), path_view(root)) {
        Some(normalized_path(text_after_prefix(full, root)))
    } else {
        None
    }
}

pub fn part_spans_of(s: &Vec<char>) -> (r: Vec<(usize, usize)>)
    ensures
        r@.len() == part_spans(s@).len(),
        forall|i: int|
            0 <= i < r@.len() ==> (#[trigger] r@[i]).0 as int == part_spans(s@)[i].0 && r@[i].1 as int
                == part_spans(s@)[i].1,
{
    let n = s.len();
    let mut done: Vec<(usize, usize)> = Vec::new();
    let mut start: usize = 0;
    let mut i: usize = 0;
    while i < n
        invariant
            i <= n == s@.len(),
            start <= i,
            scan_spans(s@.subrange(0, i as int)).1 == start as int,
            done@.len() == scan_spans(s@.subrange(0, i as int)).0.len(),
            forall|k: int|
                0 <= k < done@.len() ==> (#[trigger] done@[k]).0 as int == scan_spans(
                    s@.subrange(0, i as int),
                ).0[k].0 && done@[k].1 as int == scan_spans(s@.subrange(0, i as int)).0[k].1,
        decreases n - i,
    {
        let c = s[i];
        let ghost pre = s@.subrange(0, i as int);
        let ghost cur = s@.subrange(0, i + 1);
        assert(cur.drop_last() =~= pre);
        if c == '/' {
            let piece = slice_of(s, start, i);
            assert(cur.subrange(start as int, i as int) =~= piece@);
            let keep = piece.len() > 0 && !(piece.len() == 1 && piece[0] == '.');
            proof {
                if piece.len() == 1 && piece[0] == '.' {
                    assert(piece@ =~= seq!['.']);
                }
                if piece.len() == 1 && piece[0] != '.' {
                    assert(piece@[0] != seq!['.'][0]);
                }
                if piece.len() > 1 {
                    assert(piece@.len() != seq!['.'].len());
                }
                assert(keep == keep_part(piece@));
            }
            if keep {
                done.push((start, i));
            }
            start = i + 1;
        }
        i = i + 1;
    }
    assert(s@.subrange(0, n as int) =~= s@);
    let piece = slice_of(s, start, n);
    let keep = piece.len() > 0 && !(piece.len() == 1 && piece[0] == '.');
    proof {
        if piece.len() == 1 && piece[0] == '.' {
            assert(piece@ =~= seq!['.']);
        }
        if piece.len() == 1 && piece[0] != '.' {
            assert(piece@[0] != seq!['.'][0]);
        }
        if piece.len() > 1 {
            assert(piece@.len() != seq!['.'].len());
        }
        assert(keep == keep_part(piece@));
    }
    if keep {
        done.push((start, n));
    }
    done
}

/// The path `full` relative to `library_root`, with `/` separators and in
/// normal form C; an error when `full` does not lie within the root.
pub fn make_relative(full_path: &str, library_root: &str) -> (r: Result<String, PathError>)
    ensures
        match r {
            Ok(t) => relative_path(full_path@, library_root@) == Some(t@),
            Err(_) => relative_path(full_path@, library_root@) is None,
        },
{
    let f = to_chars(full_path);
    let rt = to_chars(library_root);
    let fp = path_parts_of(&f);
    let rp = path_parts_of(&rt);
    if !path_starts_with(&fp, &rp) {
        return Err(
            PathError::NotWithinRoot {
                path: String::from_str(full_path),
                root: String::from_str(library_root),
            },
        );
    }
    let sp = part_spans_of(&f);
    proof {
        lemma_part_spans(f@);
    }
    let k = rp.parts.len();
    let rest: Vec<char> = if !rp.rooted && !rp.curdir && k == 0 {
        if sp.len() > 0 {
            slice_of(&f, 0, sp[sp.len() - 1].1)
        } else if fp.rooted {
            vec!['/']
        } else if fp.curdir {
            vec!['.']
        } else {
            Vec::new()
        }
    } else if k < sp.len() {
        slice_of(&f, sp[k].0, sp[sp.len() - 1].1)
    } else {
        Vec::new()
    };
    proof {
        assert(rest@ =~= text_after_prefix(f@, rt@));
    }
    let t = from_chars(&rest);
    Ok(normalize_slashes(t.as_str()))
}

/// The text of `root.join(relative)`: `relative` itself when it is
/// absolute, else `root`, a `/` unless `root` is empty or ends with one,
/// and `relative`.
pub open spec fn joined_path(relative: Seq<char>, root: Seq<char>) -> Seq<char> {
    if relative.len() > 0 && relative[0] == '/' {
        relative
    } else if root.len() == 0 || root.last() == '/' {
        root + relative
    } else {
        root + seq!['/'] + relative
    }
}

/// A path stored relative to its library made absolute again.
pub fn make_absolute(relative_path: &str, library_root: &str) -> (r: String)
    ensures
        r@ == joined_path(relative_path@, library_root@),
{
    let rel = to_chars(relative_path);
    let root = to_chars(library_root);
    if rel.len() > 0 && rel[0] == '/' {
        return from_chars(&rel);
    }
    let mut out = slice_of(&root, 0, root.len());
    if !(root.len() == 0 || root[root.len() - 1] == '/') {
        out.push('/');
    }
    push_range(&mut out, &rel, 0, rel.len());
    proof {
        assert(rel@.subrange(0, rel@.len() as int) =~= rel@);
        assert(root@.subrange(0, root@.len() as int) =~= root@);
        assert(out@ =~= joined_path(rel@, root@));
    }
    from_chars(&out)
}

/// `n` without its trailing `/`s, all of them, except that a path made
/// only of `/`s keeps one.
pub open spec fn without_trailing_slashes(n: Seq<char>) -> Seq<char>
    decreases n.len(),
{
    if n.len() > 1 && n.last() == '/' {
        without_trailing_slashes(n.drop_last())
    } else {
        n
    }
}

/// A path normalized for comparison: `normalize_slashes`, with no
/// trailing `/` unless the path is `/` itself.
pub open spec fn canonical_path(s: Seq<char>) -> Seq<char> {
    without_trailing_slashes(normalized_path(s))
}

proof fn lemma_without_trailing_prefix(n: Seq<char>, k: int)
    requires
        1 <= k <= n.len(),
        forall|j: int| k <= j < n.len() ==> n[j] == '/',
    ensures
        without_trailing_slashes(n) == without_trailing_slashes(n.subrange(0, k)),
    decreases n.len() - k,
{
    if k < n.len() {
        assert(n.last() == '/');
        assert(n.drop_last().subrange(0, k) =~= n.subrange(0, k));
        lemma_without_trailing_prefix(n.drop_last(), k);
    } else {
        assert(n.subrange(0, k) =~= n);
    }
}

/// A path normalized for comparison (see `canonical_path`).
pub fn canonicalize_string(path: &str) -> (r: String)
    ensures
        r@ == canonical_path(path@),
        !r@.contains('\\'),
{
    let n = normalize_slashes(path);
    let v = to_chars(n.as_str());
    if v.len() == 0 {
        return n;
    }
    let mut k: usize = v.len();
    while k > 1 && v[k - 1] == '/'
        invariant
            1 <= k <= v@.len(),
            v@ == normalized_path(path@),
            forall|j: int| k <= j < v@.len() ==> v@[j] == '/',
        decreases k,
    {
        k = k - 1;
    }
    let w = slice_of(&v, 0, k);
    proof {
        lemma_without_trailing_prefix(v@, k as int);
        assert(w@ =~= v@.subrange(0, k as int));
        let m = v@.subrange(0, k as int);
        assert(!(m.len() > 1 && m.last() == '/'));
        if w@.contains('\\') {
            let j = choose|j: int| 0 <= j < w@.len() && w@[j] == '\\';
            assert(v@[j] == '\\');
            assert(v@.contains('\\'));
        }
    }
    from_chars(&w)
}


/// A copy's destination names a folder to copy into: it is an existing
/// folder, ends with a separator, or has no extension.
pub open spec fn names_folder(dest: Seq<char>, is_dir: bool) -> bool {
    ||| is_dir
    ||| (dest.len() > 0 && (dest.last() == '\\' || dest.last() == '/'))
    ||| extension_of(dest) is None
}

/// Whether the destination `dest_path` of a copy is a folder to copy
/// into, given whether it exists as a folder.
pub fn download_target_is_folder(dest_path: &str, is_dir: bool) -> (r: bool)
    ensures
        r == names_folder(dest_path@, is_dir),
{
    if is_dir {
        return true;
    }
    let v = to_chars(dest_path);
    let n = v.len();
    if n > 0 && (v[n - 1] == '\\' || v[n - 1] == '/') {
        return true;
    }
    extension_exec(&v).is_none()
}


// ---------------------------------------------------------------------------
// Paths cut after a separator.
// ---------------------------------------------------------------------------

/// The spans `v` moved `d` characters on.
pub open spec fn shift(v: Seq<(int, int)>, d: int) -> Seq<(int, int)> {
    v.map_values(|p: (int, int)| (p.0 + d, p.1 + d))
}

proof fn lemma_scan_parts_concat(x: Seq<char>, y: Seq<char>)
    requires
        x.len() > 0,
        x.last() == '/',
    ensures
        scan_parts(x + y).0 =~= scan_parts(x).0 + scan_parts(y).0,
        scan_parts(x + y).1 =~= scan_parts(y).1,
    decreases y.len(),
{
    if y.len() == 0 {
        assert(x + y =~= x);
    } else {
        lemma_scan_parts_concat(x, y.drop_last());
        assert((x + y).drop_last() =~= x + y.drop_last());
        assert((x + y).last() == y.last());
        let p = scan_parts(y.drop_last());
        if y.last() == '/' {
            if keep_part(p.1) {
                assert(scan_parts(x).0 + p.0.push(p.1) =~= (scan_parts(x).0 + p.0).push(p.1));
            }
        }
    }
}

proof fn lemma_scan_spans_concat(x: Seq<char>, y: Seq<char>)
    requires
        x.len() > 0,
        x.last() == '/',
    ensures
        scan_spans(x + y).0 =~= scan_spans(x).0 + shift(scan_spans(y).0, x.len() as int),
        scan_spans(x + y).1 == scan_spans(y).1 + x.len(),
    decreases y.len(),
{
    lemma_scan_spans(y);
    if y.len() == 0 {
        assert(x + y =~= x);
    } else {
        let y0 = y.drop_last();
        lemma_scan_spans_concat(x, y0);
        lemma_scan_spans(y0);
        assert((x + y).drop_last() =~= x + y0);
        assert((x + y).last() == y.last());
        let p = scan_spans(y0);
        let n = (x + y).len() as int;
        let d = x.len() as int;
        if y.last() == '/' {
            assert((x + y).subrange(p.1 + d, n - 1) =~= y.subrange(p.1, y.len() - 1));
            if keep_part(y.subrange(p.1, y.len() - 1)) {
                assert(shift(p.0.push((p.1, y.len() - 1)), d) =~= shift(p.0, d).push((p.1 + d, n - 1)));
                assert(scan_spans(x).0 + shift(p.0, d).push((p.1 + d, n - 1)) =~= (scan_spans(x).0
                    + shift(p.0, d)).push((p.1 + d, n - 1)));
            }
        }
    }
}


proof fn lemma_scan_match(s: Seq<char>)
    ensures
        scan_parts(s).0.len() == scan_spans(s).0.len(),
        forall|i: int|
            0 <= i < scan_parts(s).0.len() ==> #[trigger] scan_parts(s).0[i] == s.subrange(
                scan_spans(s).0[i].0,
                scan_spans(s).0[i].1,
            ),
        forall|i: int|
            0 <= i < scan_spans(s).0.len() ==> {
                let sp = #[trigger] scan_spans(s).0[i];
                &&& sp.1 < s.len()
                &&& s[sp.1] == '/'
                &&& (sp.0 == 0 || s[sp.0 - 1] == '/')
                &&& keep_part(s.subrange(sp.0, sp.1))
                &&& forall|j: int| sp.0 <= j < sp.1 ==> s[j] != '/'
            },
        0 <= scan_spans(s).1 <= s.len(),
        forall|j: int| scan_spans(s).1 <= j < s.len() ==> s[j] != '/',
        scan_parts(s).1 =~= s.subrange(scan_spans(s).1, s.len() as int),
        scan_spans(s).1 == 0 || s[scan_spans(s).1 - 1] == '/',
    decreases s.len(),
{
    lemma_scan_spans(s);
    if s.len() > 0 {
        let t = s.drop_last();
        lemma_scan_match(t);
        let pp = scan_parts(t);
        let ps = scan_spans(t);
        let n = s.len() as int;
        assert forall|a: int, b: int| 0 <= a <= b <= n - 1 implies #[trigger] s.subrange(a, b)
            =~= t.subrange(a, b) by {}
        assert forall|j: int| 0 <= j < n - 1 implies #[trigger] s[j] == t[j] by {}
        assert(pp.1 =~= t.subrange(ps.1, n - 1));
        if s.last() == '/' {
            assert(s.subrange(ps.1, n - 1) =~= pp.1);
        } else {
            assert(s.subrange(ps.1, n) =~= pp.1.push(s.last()));
        }
    }
}

/// Each named component of `s` is the text of its span; spans are not
/// empty, start at the beginning or after a `/`, and end at the end or
/// before a `/`.
pub proof fn lemma_parts_match(s: Seq<char>)
    ensures
        path_parts(s).len() == part_spans(s).len(),
        forall|i: int|
            0 <= i < path_parts(s).len() ==> #[trigger] path_parts(s)[i] == s.subrange(
                part_spans(s)[i].0,
                part_spans(s)[i].1,
            ),
        forall|i: int|
            0 <= i < part_spans(s).len() ==> {
                let sp = #[trigger] part_spans(s)[i];
                &&& 0 <= sp.0 < sp.1 <= s.len()
                &&& (sp.1 == s.len() || s[sp.1] == '/')
                &&& (sp.0 == 0 || s[sp.0 - 1] == '/')
                &&& keep_part(s.subrange(sp.0, sp.1))
                &&& forall|j: int| sp.0 <= j < sp.1 ==> s[j] != '/'
            },
{
    lemma_scan_match(s);
    lemma_part_spans(s);
    let sc = scan_spans(s);
    let pc = scan_parts(s);
    assert(pc.1 =~= s.subrange(sc.1, s.len() as int));
    assert forall|i: int| 0 <= i < part_spans(s).len() implies {
        let sp = #[trigger] part_spans(s)[i];
        &&& 0 <= sp.0 < sp.1 <= s.len()
        &&& (sp.1 == s.len() || s[sp.1] == '/')
        &&& (sp.0 == 0 || s[sp.0 - 1] == '/')
        &&& keep_part(s.subrange(sp.0, sp.1))
        &&& forall|j: int| sp.0 <= j < sp.1 ==> s[j] != '/'
    } by {
        if i < sc.0.len() {
            assert(part_spans(s)[i] == sc.0[i]);
            assert(keep_part(s.subrange(sc.0[i].0, sc.0[i].1)));
        } else {
            assert(keep_part(s.subrange(sc.1, s.len() as int)));
        }
    }
}


/// Cutting a path after a `/`: its components are those of the two
/// pieces, and its spans those of the first followed by those of the
/// second moved on.
proof fn lemma_parts_concat(x: Seq<char>, y: Seq<char>)
    requires
        x.len() > 0,
        x.last() == '/',
    ensures
        path_parts(x + y) =~= path_parts(x) + path_parts(y),
        part_spans(x + y) =~= part_spans(x) + shift(part_spans(y), x.len() as int),
        path_parts(x) =~= scan_parts(x).0,
        part_spans(x) =~= scan_spans(x).0,
{
    lemma_scan_parts_concat(x, y);
    lemma_scan_spans_concat(x, y);
    lemma_scan_match(x);
    lemma_scan_match(y);
    let n = (x + y).len() as int;
    let d = x.len() as int;
    assert(scan_parts(x).1.len() == 0);
    assert(x.subrange(scan_spans(x).1, d) =~= Seq::<char>::empty());
    assert((x + y).subrange(scan_spans(y).1 + d, n) =~= y.subrange(scan_spans(y).1, y.len() as int));
    let sy = scan_spans(y);
    if keep_part(y.subrange(sy.1, y.len() as int)) {
        assert(shift(sy.0.push((sy.1, y.len() as int)), d) =~= shift(sy.0, d).push((sy.1 + d, n)));
        assert(scan_spans(x).0 + shift(sy.0, d).push((sy.1 + d, n)) =~= (scan_spans(x).0 + shift(
            sy.0,
            d,
        )).push((sy.1 + d, n)));
        assert(scan_parts(x).0 + scan_parts(y).0.push(scan_parts(y).1) =~= (scan_parts(x).0
            + scan_parts(y).0).push(scan_parts(y).1));
    }
}

/// A trailing `/` adds no component.
proof fn lemma_parts_slash(x: Seq<char>)
    ensures
        path_parts(x.push('/')) =~= path_parts(x),
{
    assert(x.push('/').drop_last() =~= x);
}

/// The text after a path's last component adds no component.
proof fn lemma_parts_trailing(s: Seq<char>)
    requires
        part_spans(s).len() > 0,
    ensures
        path_parts(s.subrange(0, part_spans(s).last().1)) =~= path_parts(s),
{
    lemma_parts_match(s);
    let sp = part_spans(s);
    let b = sp.last().1;
    assert(sp[sp.len() - 1] == sp.last());
    if b < s.len() {
        let x2 = s.subrange(0, b + 1);
        let y2 = s.subrange(b + 1, s.len() as int);
        assert(s =~= x2 + y2);
        lemma_parts_concat(x2, y2);
        lemma_parts_match(y2);
        if part_spans(y2).len() > 0 {
            let m = part_spans(x2).len() + part_spans(y2).len();
            assert(sp.len() == m);
            let last = part_spans(y2).last();
            assert(part_spans(y2)[part_spans(y2).len() - 1] == last);
            assert(sp[m - 1] == (last.0 + b + 1, last.1 + b + 1));
            assert(false);
        }
        assert(path_parts(y2).len() == 0);
        assert(x2 =~= s.subrange(0, b).push('/'));
        lemma_parts_slash(s.subrange(0, b));
    } else {
        assert(s.subrange(0, b) =~= s);
    }
}


/// Only the empty text is a path with no root, no leading `.` and no named
/// component.
proof fn lemma_empty_view(r: Seq<char>)
    requires
        !path_rooted(r),
        !path_curdir(r),
        path_parts(r).len() == 0,
    ensures
        r.len() == 0,
{
    if r.len() > 0 {
        let p = |j: int| r[j] == '/';
        crate::text::lemma_first_from(p, 0, r.len() as int);
        let j = crate::text::first_from(p, 0, r.len() as int);
        assert(j > 0);
        let piece = r.subrange(0, j);
        lemma_scan_match(piece);
        assert(scan_spans(piece).1 == 0) by {
            let q = scan_spans(piece).1;
            if q > 0 {
                assert(piece[q - 1] == r[q - 1]);
                assert(!p(q - 1));
            }
        }
        assert(scan_parts(piece).1 =~= piece);
        if piece =~= seq!['.'] {
            assert(path_curdir(r));
        }
        assert(keep_part(piece));
        if j < r.len() {
            let x = r.subrange(0, j + 1);
            let y = r.subrange(j + 1, r.len() as int);
            assert(r =~= x + y);
            lemma_parts_concat(x, y);
            assert(x.drop_last() =~= piece);
            assert(scan_parts(x).0 =~= scan_parts(piece).0.push(piece));
        } else {
            assert(piece =~= r);
        }
    }
}


/// Cutting `s` where its component `k` starts: the text before holds its
/// first `k` components and the text after the others, the last of which
/// ends where the last of `s` ends.
proof fn lemma_cut_at_part(s: Seq<char>, k: int)
    requires
        0 <= k < part_spans(s).len(),
        part_spans(s)[k].0 > 0,
    ensures
        path_parts(s.subrange(0, part_spans(s)[k].0)) =~= path_parts(s).subrange(0, k),
        path_parts(s.subrange(part_spans(s)[k].0, s.len() as int)) =~= path_parts(s).subrange(
            k,
            path_parts(s).len() as int,
        ),
        part_spans(s.subrange(part_spans(s)[k].0, s.len() as int)).len() > 0,
        part_spans(s.subrange(part_spans(s)[k].0, s.len() as int)).last().1 + part_spans(s)[k].0
            == part_spans(s).last().1,
{
    let sp = part_spans(s);
    let a = sp[k].0;
    lemma_parts_match(s);
    lemma_part_spans(s);
    let x = s.subrange(0, a);
    let y = s.subrange(a, s.len() as int);
    assert(s =~= x + y);
    assert(x.last() == s[a - 1]);
    lemma_parts_concat(x, y);
    lemma_scan_match(x);
    lemma_scan_spans(x);
    lemma_parts_match(x);
    lemma_parts_match(y);
    assert(scan_parts(x).1.len() == 0);
    let m = part_spans(x).len() as int;
    assert forall|i: int| 0 <= i < m implies #[trigger] part_spans(x)[i].1 < a by {
        assert(part_spans(x)[i] == scan_spans(x).0[i]);
    }
    if m > k {
        assert(sp[k] == part_spans(x)[k]);
        assert(part_spans(x)[k].1 < a);
        assert(false);
    }
    if m < k {
        assert(sp[m] == (part_spans(y)[0].0 + a, part_spans(y)[0].1 + a));
        assert(sp[m].1 <= sp[k].0);
        assert(false);
    }
    assert(path_parts(x).len() == m);
    let ny = part_spans(y).len() as int;
    assert(ny > 0);
    assert(sp.last() == sp[sp.len() - 1]);
    assert(part_spans(y).last() == part_spans(y)[ny - 1]);
    assert(sp[sp.len() - 1] == (part_spans(y)[ny - 1].0 + a, part_spans(y)[ny - 1].1 + a));
}

/// The text a path is stored under, relative to its library root, names
/// the file again when joined to the root, provided writing it with `/`
/// and in normal form C leaves it as it is.
pub proof fn lemma_relative_round_trip(full: Seq<char>, root: Seq<char>)
    requires
        view_starts_with(path_view(full), path_view(root)),
        normalized_path(text_after_prefix(full, root)) == text_after_prefix(full, root),
    ensures
        relative_path(full, root) == Some(text_after_prefix(full, root)),
        path_view(joined_path(text_after_prefix(full, root), root)) == path_view(full),
{
    let sp = part_spans(full);
    let ps = path_parts(full);
    let rv = path_view(root);
    let k = rv.parts.len() as int;
    let t = text_after_prefix(full, root);
    let j = joined_path(t, root);
    lemma_parts_match(full);
    lemma_part_spans(full);
    if !rv.rooted && !rv.curdir && k == 0 {
        lemma_empty_view(root);
        assert(j == t);
        if sp.len() > 0 {
            let b = sp.last().1;
            assert(sp.last() == sp[sp.len() - 1]);
            lemma_parts_trailing(full);
            assert(t[0] == full[0]);
            if t.len() >= 2 {
                assert(t[1] == full[1]);
            } else {
                if full[0] == '.' {
                    assert(sp[sp.len() - 1].0 == 0);
                    assert(full.subrange(0, 1) =~= seq!['.']);
                    assert(false);
                }
            }
            assert(path_view(j) =~= path_view(full));
        } else if path_rooted(full) {
            assert(path_parts(t).len() == 0) by {
                assert(t =~= seq!['/']);
                assert(t =~= Seq::<char>::empty().push('/'));
                lemma_parts_slash(Seq::<char>::empty());
            }
            assert(path_view(j) =~= path_view(full));
        } else if path_curdir(full) {
            assert(path_parts(t).len() == 0) by {
                assert(t =~= seq!['.']);
                assert(t.drop_last() =~= Seq::<char>::empty());
                assert(t.last() == '.');
                let e = scan_parts(Seq::<char>::empty());
                assert(e.0.len() == 0 && e.1.len() == 0);
                assert(scan_parts(t) == (e.0, e.1.push('.')));
                assert(scan_parts(t).1 =~= Seq::<char>::empty().push('.'));
                assert(Seq::<char>::empty().push('.') =~= seq!['.']);
                assert(!keep_part(seq!['.']));
            }
            assert(path_view(j) =~= path_view(full));
        } else {
            assert(path_view(j) =~= path_view(full));
        }
    } else {
        // `root` names something: its flags and components start `full`'s.
        assert(root.len() > 0);
        assert(rv.rooted == path_rooted(full) && rv.curdir == path_curdir(full));
        assert(ps.subrange(0, k) =~= rv.parts);
        let rs = if root.last() == '/' {
            root
        } else {
            root.push('/')
        };
        assert(path_parts(rs) =~= rv.parts) by {
            if root.last() != '/' {
                lemma_parts_slash(root);
            }
        }
        if k < sp.len() {
            let a = sp[k].0;
            if a == 0 {
                assert(full[0] != '/');
                if path_curdir(full) {
                    assert(sp[k].1 == 1);
                    assert(full.subrange(0, 1) =~= seq!['.']);
                }
                assert(k > 0);
                assert(sp[0].1 <= sp[k].0);
                assert(false);
            }
            lemma_cut_at_part(full, k);
            let y = full.subrange(a, full.len() as int);
            let b = sp.last().1;
            lemma_parts_match(y);
            let ly = part_spans(y).last();
            assert(t =~= y.subrange(0, ly.1));
            lemma_parts_trailing(y);
            assert(t[0] == full[a]);
            assert(t[0] != '/');
            assert(j =~= rs + t);
            lemma_parts_concat(rs, t);
            assert(path_parts(j) =~= ps);
            assert(j[0] == root[0]);
            if root.len() >= 2 {
                assert(j[1] == root[1]);
            } else if root.last() != '/' {
                assert(j[1] == '/');
            }
            assert(path_view(j) =~= path_view(full));
        } else {
            assert(t.len() == 0);
            assert(j =~= rs);
            assert(ps =~= rv.parts);
            if root.len() >= 2 {
                assert(j[1] == root[1]);
            }
            assert(path_view(j) =~= path_view(full));
        }
    }
}


/// A path made canonical does not end with `/`, unless it is `/` itself;
/// it is the normal form with only trailing `/`s taken off.
pub proof fn lemma_canonical_has_no_trailing_slash(s: Seq<char>)
    ensures
        canonical_path(s).len() <= 1 || canonical_path(s).last() != '/',
        canonical_path(s).len() <= normalized_path(s).len(),
        canonical_path(s) == normalized_path(s).subrange(0, canonical_path(s).len() as int),
        forall|j: int|
            canonical_path(s).len() <= j < normalized_path(s).len() ==> normalized_path(s)[j] == '/',
{
    lemma_without_trailing_shape(normalized_path(s));
}

proof fn lemma_without_trailing_shape(n: Seq<char>)
    ensures
        without_trailing_slashes(n).len() <= 1 || without_trailing_slashes(n).last() != '/',
        without_trailing_slashes(n).len() <= n.len(),
        without_trailing_slashes(n) == n.subrange(0, without_trailing_slashes(n).len() as int),
        forall|j: int| without_trailing_slashes(n).len() <= j < n.len() ==> n[j] == '/',
    decreases n.len(),
{
    if n.len() > 1 && n.last() == '/' {
        let m = n.drop_last();
        lemma_without_trailing_shape(m);
        let w = without_trailing_slashes(m);
        assert(n.subrange(0, w.len() as int) =~= m.subrange(0, w.len() as int));
        assert forall|j: int| w.len() <= j < n.len() implies n[j] == '/' by {
            if j < m.len() {
                assert(n[j] == m[j]);
            }
        }
    } else {
        assert(n.subrange(0, n.len() as int) =~= n);
    }
}

} // verus!
