//! Tidying a library folder: which metadata files beside a movie are
//! redundant, which artwork files duplicate one another, and which folders
//! hold nothing but small metadata files and in what order they go.
use vstd::prelude::*;
use crate::text::{str_eq, has_sub, has_sub_exec, to_chars, from_chars, push_str, strs};
use crate::parser::{extension_of_name, extension_of_name_exec, file_name, stem_of_name, stem_of_name_exec, file_name_of};
use crate::shows::{lowercase, lowercase_string, byte_len};
use crate::parser::{path_view, path_parts_of, path_eq, PathParts, PathView, view_parent, to_parent, copy_parts};

verus! {

/// The MD5 digest of `data` as `md5::Digest` formats it with `{:x}`.
pub uninterp spec fn md5_lower_hex(data: Seq<u8>) -> Seq<char>;

/// Calls `md5::compute` on `data` and formats the digest with `{:x}`.  The
/// contract names the digest and states that it is written as 32 hex
/// digits (16 bytes, two digits each); the MD5 algorithm is not restated.
#[verifier::external_body]
fn md5_hex(data: &[u8]) -> (r: String)
    ensures
        r@ == md5_lower_hex(data@),
        r@.len() == 32,
{
    format!("{:x}", md5::compute(data))
}

/// How many bytes of an artwork file are read for its digest.
pub open spec fn digest_window() -> int {
    65536
}

/// The digest by which artwork files are compared: the MD5 of the first
/// `n` bytes of `chunk`, the bytes that one read of at most
/// `digest_window()` bytes brought in.
pub fn artwork_digest(chunk: &[u8], n: usize) -> (r: String)
    requires
        n <= chunk@.len(),
    ensures
        r@ == md5_lower_hex(chunk@.subrange(0, n as int)),
        r@.len() == 32,
{
    let mut buffer: Vec<u8> = Vec::new();
    let mut i: usize = 0;
    while i < n
        invariant
            i <= n <= chunk@.len(),
            buffer@ == chunk@.subrange(0, i as int),
        decreases n - i,
    {
        buffer.push(chunk[i]);
        assert(chunk@.subrange(0, i + 1) =~= chunk@.subrange(0, i as int).push(chunk@[i as int]));
        i = i + 1;
    }
    md5_hex(buffer.as_slice())
}

// ---------------------------------------------------------------------------
// Extensions.
// ---------------------------------------------------------------------------

/// Extensions (lower case) of artwork files.
pub open spec fn is_artwork_ext(e: Seq<char>) -> bool {
    e == "jpg"@ || e == "jpeg"@ || e == "png"@ || e == "webp"@
}

/// Extensions (lower case) of picture files that may be stray posters.
pub open spec fn is_picture_ext(e: Seq<char>) -> bool {
    e == "jpg"@ || e == "jpeg"@ || e == "png"@
}

/// Extensions (lower case) of the files a folder may hold and still be
/// removed as empty.
pub open spec fn is_metadata_ext(e: Seq<char>) -> bool {
    ||| is_artwork_ext(e)
    ||| e == "nfo"@
    ||| e == "txt"@
    ||| e == "xml"@
    ||| e == "json"@
}

/// Whether a lower-case extension is one of artwork.
pub fn artwork_ext(lower_ext: &str) -> (r: bool)
    ensures
        r == is_artwork_ext(lower_ext@),
{
    str_eq(lower_ext, "jpg") || str_eq(lower_ext, "jpeg") || str_eq(lower_ext, "png") || str_eq(
        lower_ext,
        "webp",
    )
}

/// Whether a lower-case extension is one of pictures.
pub fn picture_ext(lower_ext: &str) -> (r: bool)
    ensures
        r == is_picture_ext(lower_ext@),
{
    str_eq(lower_ext, "jpg") || str_eq(lower_ext, "jpeg") || str_eq(lower_ext, "png")
}

/// Whether a lower-case extension is one of metadata files.
pub fn metadata_ext(lower_ext: &str) -> (r: bool)
    ensures
        r == is_metadata_ext(lower_ext@),
{
    artwork_ext(lower_ext) || str_eq(lower_ext, "nfo") || str_eq(lower_ext, "txt") || str_eq(
        lower_ext,
        "xml",
    ) || str_eq(lower_ext, "json")
}

/// The extension of a file name in lower case, when it has one.
pub open spec fn lower_ext_of(name: Seq<char>) -> Option<Seq<char>> {
    match extension_of_name(name) {
        Some(e) => Some(lowercase(e)),
        None => None,
    }
}

fn lower_extension(name: &str) -> (r: Option<String>)
    ensures
        match r {
            Some(e) => lower_ext_of(name@) == Some(e@),
            None => lower_ext_of(name@) is None,
        },
{
    let v = to_chars(name);
    match extension_of_name_exec(&v) {
        Some(e) => {
            let s = from_chars(&e);
            Some(lowercase_string(s.as_str()))
        },
        None => None,
    }
}

/// A file is artwork by its extension, in any case.
pub open spec fn is_artwork_name(name: Seq<char>) -> bool {
    match lower_ext_of(name) {
        Some(e) => is_artwork_ext(e),
        None => false,
    }
}

/// Whether the file named `file_name` is artwork.
pub fn is_artwork_file(file_name: &str) -> (r: bool)
    ensures
        r == is_artwork_name(file_name@),
{
    match lower_extension(file_name) {
        Some(e) => artwork_ext(e.as_str()),
        None => false,
    }
}

// ---------------------------------------------------------------------------
// Metadata beside a movie.
// ---------------------------------------------------------------------------

/// The three files a movie keeps: `<stem>.nfo`, `<stem>-poster.jpg` and
/// `<stem>-fanart.jpg`.
pub open spec fn is_standard_file(name: Seq<char>, stem: Seq<char>) -> bool {
    name == stem + ".nfo"@ || name == stem + "-poster.jpg"@ || name == stem + "-fanart.jpg"@
}

/// Names (lower case) of stray posters and backdrops.
pub open spec fn is_stray_art_name(lower: Seq<char>) -> bool {
    ||| lower == "poster.jpg"@
    ||| lower == "backdrop.jpg"@
    ||| lower == "fanart.jpg"@
    ||| has_sub(lower, "_poster.jpg"@)
    ||| has_sub(lower, "-fanart1.jpg"@)
    ||| has_sub(lower, "-fanart2.jpg"@)
}

/// A file of a movie folder goes, given its name in lower case and its
/// extension in lower case (empty when it has none): any NFO but the
/// movie's own, and stray posters and backdrops.
pub open spec fn redundant_given(
    name: Seq<char>,
    stem: Seq<char>,
    lower_name: Seq<char>,
    lower_ext: Seq<char>,
) -> bool {
    &&& !is_standard_file(name, stem)
    &&& (lower_ext == "nfo"@ || (is_picture_ext(lower_ext) && is_stray_art_name(lower_name)))
}

/// The extension of a file name, or nothing.
pub open spec fn ext_text(name: Seq<char>) -> Seq<char> {
    match extension_of_name(name) {
        Some(e) => e,
        None => Seq::<char>::empty(),
    }
}

/// A file of a movie folder whose standard names start with `stem` goes.
pub open spec fn redundant_metadata(name: Seq<char>, stem: Seq<char>) -> bool {
    redundant_given(name, stem, lowercase(name), lowercase(ext_text(name)))
}

fn with_suffix(stem: &str, suffix: &str) -> (r: String)
    ensures
        r@ == stem@ + suffix@,
{
    let mut v = to_chars(stem);
    push_str(&mut v, suffix);
    from_chars(&v)
}

fn contains_text(s: &str, pat: &str) -> (r: bool)
    ensures
        r == has_sub(s@, pat@),
{
    let a = to_chars(s);
    let b = to_chars(pat);
    has_sub_exec(&a, &b)
}

/// Whether a file goes, given its name and extension already in lower case.
pub fn is_redundant_given(
    file_name: &str,
    standard_stem: &str,
    lower_name: &str,
    lower_ext: &str,
) -> (r: bool)
    ensures
        r == redundant_given(file_name@, standard_stem@, lower_name@, lower_ext@),
{
    let nfo = with_suffix(standard_stem, ".nfo");
    let poster = with_suffix(standard_stem, "-poster.jpg");
    let fanart = with_suffix(standard_stem, "-fanart.jpg");
    if str_eq(file_name, nfo.as_str()) || str_eq(file_name, poster.as_str()) || str_eq(
        file_name,
        fanart.as_str(),
    ) {
        return false;
    }
    if str_eq(lower_ext, "nfo") {
        return true;
    }
    if !picture_ext(lower_ext) {
        return false;
    }
    str_eq(lower_name, "poster.jpg") || str_eq(lower_name, "backdrop.jpg") || str_eq(
        lower_name,
        "fanart.jpg",
    ) || contains_text(lower_name, "_poster.jpg") || contains_text(lower_name, "-fanart1.jpg")
        || contains_text(lower_name, "-fanart2.jpg")
}

/// Whether the file `file_name` of a movie folder is redundant beside the
/// movie's standard files named after `standard_stem`.
pub fn is_redundant_metadata(file_name: &str, standard_stem: &str) -> (r: bool)
    ensures
        r == redundant_metadata(file_name@, standard_stem@),
{
    let v = to_chars(file_name);
    let ext = match extension_of_name_exec(&v) {
        Some(e) => from_chars(&e),
        None => String::new(),
    };
    let lower_name = lowercase_string(file_name);
    let lower_ext = lowercase_string(ext.as_str());
    is_redundant_given(file_name, standard_stem, lower_name.as_str(), lower_ext.as_str())
}


// ---------------------------------------------------------------------------
// Folders that hold only metadata.
// ---------------------------------------------------------------------------

/// One entry of a folder: whether it is a folder, its name, and its size
/// in bytes when the file system reported one.
pub struct FolderEntry {
    pub is_dir: bool,
    pub name: String,
    pub size: Option<u64>,
}

/// The largest metadata file a removable folder may hold: 20 MiB.
pub open spec fn max_metadata_bytes() -> int {
    20int * 1024 * 1024
}

/// An entry that does not keep its folder alive: a file with a metadata
/// extension (in any case) and no more than 20 MiB when its size is known.
pub open spec fn entry_disposable(e: FolderEntry) -> bool {
    &&& !e.is_dir
    &&& match lower_ext_of(e.name@) {
        Some(x) => is_metadata_ext(x),
        None => false,
    }
    &&& match e.size {
        Some(s) => s <= max_metadata_bytes(),
        None => true,
    }
}

/// Whether a folder with these entries may be removed as empty.
pub fn is_safe_to_delete(entries: &[FolderEntry]) -> (r: bool)
    ensures
        r == forall|i: int| 0 <= i < entries@.len() ==> entry_disposable(#[trigger] entries@[i]),
{
    let mut i: usize = 0;
    while i < entries.len()
        invariant
            i <= entries@.len(),
            forall|j: int| 0 <= j < i ==> entry_disposable(#[trigger] entries@[j]),
        decreases entries.len() - i,
    {
        let e = &entries[i];
        if e.is_dir {
            assert(!entry_disposable(entries@[i as int]));
            return false;
        }
        let ok_ext = match lower_extension(e.name.as_str()) {
            Some(x) => metadata_ext(x.as_str()),
            None => false,
        };
        if !ok_ext {
            assert(!entry_disposable(entries@[i as int]));
            return false;
        }
        match e.size {
            Some(s) => {
                if s > 20 * 1024 * 1024 {
                    assert(!entry_disposable(entries@[i as int]));
                    return false;
                }
            },
            None => {},
        }
        i = i + 1;
    }
    true
}

/// How many components `std::path::Path` finds in `s`.
pub open spec fn path_depth(s: Seq<char>) -> int {
    let v = path_view(s);
    v.parts.len() + (if v.rooted {
        1int
    } else {
        0int
    }) + (if v.curdir {
        1int
    } else {
        0int
    })
}

/// Folder `a` of `dirs` is handled before folder `b`: it is deeper, or as
/// deep and listed first.
pub open spec fn goes_before(dirs: Seq<Seq<char>>, a: int, b: int) -> bool {
    ||| path_depth(dirs[a]) > path_depth(dirs[b])
    ||| (path_depth(dirs[a]) == path_depth(dirs[b]) && a < b)
}

/// `order` lists each folder of `dirs` that is not the library root once,
/// deepest first, folders of one depth in the order of `dirs`.
pub open spec fn is_removal_order(dirs: Seq<Seq<char>>, root: Seq<char>, order: Seq<usize>) -> bool {
    &&& forall|p: int|
        0 <= p < order.len() ==> #[trigger] order[p] < dirs.len() && path_view(dirs[order[p] as int])
            != path_view(root)
    &&& forall|i: int|
        0 <= i < dirs.len() && path_view(#[trigger] dirs[i]) != path_view(root) ==> order.contains(
            i as usize,
        )
    &&& forall|p: int, q: int|
        0 <= p < q < order.len() ==> goes_before(dirs, #[trigger] order[p] as int, #[trigger] order[q] as int)
}

/// The order in which the folders `dirs` found under `root` are tried for
/// removal: every folder but the root itself, deepest first, folders of
/// one depth in the order given.
pub fn removal_order(root: &str, dirs: &[String]) -> (r: Vec<usize>)
    ensures
        is_removal_order(strs(dirs@), root@, r@),
{
    let n = dirs.len();
    let root_parts = path_parts_of(&to_chars(root));
    let mut depths: Vec<u128> = Vec::new();
    let mut skip: Vec<bool> = Vec::new();
    let mut k: usize = 0;
    while k < n
        invariant
            k <= n == dirs@.len(),
            root_parts@ == path_view(root@),
            depths@.len() == k,
            skip@.len() == k,
            forall|j: int| 0 <= j < k ==> #[trigger] depths@[j] == path_depth(dirs@[j]@),
            forall|j: int|
                0 <= j < k ==> #[trigger] skip@[j] == (path_view(dirs@[j]@) == path_view(root@)),
        decreases n - k,
    {
        let p = path_parts_of(&to_chars(dirs[k].as_str()));
        let d: u128 = (p.parts.len() as u128) + (if p.rooted {
            1u128
        } else {
            0u128
        }) + (if p.curdir {
            1u128
        } else {
            0u128
        });
        depths.push(d);
        skip.push(path_eq(&p, &root_parts));
        k = k + 1;
    }
    let ghost ds = strs(dirs@);
    assert forall|j: int| 0 <= j < n implies #[trigger] ds[j] == dirs@[j]@ by {}
    let mut order: Vec<usize> = Vec::new();
    let mut i: usize = 0;
    while i < n
        invariant
            i <= n == dirs@.len() == ds.len(),
            depths@.len() == n,
            skip@.len() == n,
            forall|j: int| 0 <= j < n ==> #[trigger] depths@[j] == path_depth(ds[j]),
            forall|j: int|
                0 <= j < n ==> #[trigger] skip@[j] == (path_view(ds[j]) == path_view(root@)),
            forall|p: int|
                0 <= p < order@.len() ==> #[trigger] order@[p] < i && !skip@[order@[p] as int],
            forall|j: int| 0 <= j < i && !#[trigger] skip@[j] ==> order@.contains(j as usize),
            forall|p: int, q: int|
                0 <= p < q < order@.len() ==> goes_before(ds, #[trigger] order@[p] as int, #[trigger] order@[q] as int),
        decreases n - i,
    {
        if !skip[i] {
            let mut pos: usize = 0;
            while pos < order.len() && depths[order[pos]] >= depths[i]
                invariant
                    i < n,
                    depths@.len() == n,
                    pos <= order@.len(),
                    forall|p: int| 0 <= p < order@.len() ==> #[trigger] order@[p] < i,
                    forall|p: int|
                        0 <= p < pos ==> depths@[#[trigger] order@[p] as int] >= depths@[i as int],
                decreases order.len() - pos,
            {
                pos = pos + 1;
            }
            let ghost old_order = order@;
            order.insert(pos, i);
            proof {
                assert(order@ == old_order.insert(pos as int, i));
                assert forall|p: int| 0 <= p < order@.len() implies #[trigger] order@[p] < i + 1
                    && !skip@[order@[p] as int] by {
                    if p > pos as int {
                        assert(order@[p] == old_order[p - 1]);
                    }
                }
                assert forall|j: int| 0 <= j < i + 1 && !#[trigger] skip@[j] implies order@.contains(
                    j as usize,
                ) by {
                    if j == i {
                        assert(order@[pos as int] == i);
                    } else {
                        assert(old_order.contains(j as usize));
                        let w = choose|w: int| 0 <= w < old_order.len() && old_order[w] == j as usize;
                        if w < pos {
                            assert(order@[w] == j as usize);
                        } else {
                            assert(order@[w + 1] == j as usize);
                        }
                    }
                }
                assert forall|p: int, q: int| 0 <= p < q < order@.len() implies goes_before(
                    ds,
                    #[trigger] order@[p] as int,
                    #[trigger] order@[q] as int,
                ) by {
                    if q < pos {
                        assert(goes_before(ds, old_order[p] as int, old_order[q] as int));
                    } else if q == pos {
                        assert(depths@[old_order[p] as int] >= depths@[i as int]);
                    } else if p < pos {
                        assert(goes_before(ds, old_order[p] as int, old_order[q - 1] as int));
                    } else if p == pos {
                        assert(pos < old_order.len());
                        assert(depths@[old_order[pos as int] as int] < depths@[i as int]);
                        if q - 1 > pos {
                            assert(goes_before(ds, old_order[pos as int] as int, old_order[q - 1] as int));
                        }
                    } else {
                        assert(goes_before(ds, old_order[p - 1] as int, old_order[q - 1] as int));
                    }
                }
            }
        }
        i = i + 1;
    }
    proof {
        assert forall|p: int| 0 <= p < order@.len() implies #[trigger] order@[p] < ds.len()
            && path_view(ds[order@[p] as int]) != path_view(root@) by {
            assert(!skip@[order@[p] as int]);
        }
        assert forall|j: int|
            0 <= j < ds.len() && path_view(#[trigger] ds[j]) != path_view(root@) implies order@.contains(
            j as usize,
        ) by {
            assert(!skip@[j]);
        }
    }
    order
}

// ---------------------------------------------------------------------------
// Duplicate artwork.
// ---------------------------------------------------------------------------

/// Artwork files whose size another artwork file shares: only these are
/// read and compared.
pub open spec fn shares_size(sizes: Seq<u64>, i: int) -> bool {
    exists|j: int| 0 <= j < sizes.len() && j != i && sizes[j] == sizes[i]
}

/// For each artwork file of the given sizes, whether it is to be compared.
pub fn hash_candidates(sizes: &[u64]) -> (r: Vec<bool>)
    ensures
        r@.len() == sizes@.len(),
        forall|i: int| 0 <= i < sizes@.len() ==> #[trigger] r@[i] == shares_size(sizes@, i),
{
    let n = sizes.len();
    let mut out: Vec<bool> = Vec::new();
    let mut i: usize = 0;
    while i < n
        invariant
            i <= n == sizes@.len(),
            out@.len() == i,
            forall|k: int| 0 <= k < i ==> #[trigger] out@[k] == shares_size(sizes@, k),
        decreases n - i,
    {
        let mut found = false;
        let mut j: usize = 0;
        while j < n
            invariant
                i < n == sizes@.len(),
                j <= n,
                found == exists|t: int| 0 <= t < j && t != i && sizes@[t] == sizes@[i as int],
            decreases n - j,
        {
            if j != i && sizes[j] == sizes[i] {
                found = true;
            }
            j = j + 1;
        }
        out.push(found);
        i = i + 1;
    }
    out
}

/// A compared artwork file: its folder, its name and its digest.
pub struct HashedArt {
    pub dir: String,
    pub name: String,
    pub digest: String,
}

/// Files `i` and `j` are copies of one another in one folder.
pub open spec fn same_art(files: Seq<HashedArt>, i: int, j: int) -> bool {
    files[i].dir@ == files[j].dir@ && files[i].digest@ == files[j].digest@
}

/// The length of a file's name in bytes; the shortest name is kept.
pub open spec fn name_score(files: Seq<HashedArt>, j: int) -> usize {
    byte_len(files[j].name@)
}

/// Among `files[0..n]`, the first copy of file `i` with the shortest
/// name, or -1.
pub open spec fn art_best_upto(files: Seq<HashedArt>, i: int, n: int) -> int
    decreases n,
{
    if n <= 0 {
        -1
    } else {
        let b = art_best_upto(files, i, n - 1);
        let j = n - 1;
        if same_art(files, i, j) && (b < 0 || name_score(files, j) < name_score(files, b)) {
            j
        } else {
            b
        }
    }
}

/// The copy of file `i` that stays.
pub open spec fn kept_copy(files: Seq<HashedArt>, i: int) -> int {
    art_best_upto(files, i, files.len() as int)
}

/// For each compared artwork file, whether it is removed: every copy but
/// the one with the shortest name (the first such) in its folder.
pub fn duplicate_removals(files: &Vec<HashedArt>) -> (r: Vec<bool>)
    ensures
        r@.len() == files@.len(),
        forall|i: int| 0 <= i < files@.len() ==> #[trigger] r@[i] == (kept_copy(files@, i) != i),
{
    let n = files.len();
    let mut out: Vec<bool> = Vec::new();
    let mut i: usize = 0;
    while i < n
        invariant
            i <= n == files@.len(),
            out@.len() == i,
            forall|k: int| 0 <= k < i ==> #[trigger] out@[k] == (kept_copy(files@, k) != k),
        decreases n - i,
    {
        let mut best: Option<usize> = None;
        let mut j: usize = 0;
        while j < n
            invariant
                i < n == files@.len(),
                j <= n,
                match best {
                    Some(b) => b as int == art_best_upto(files@, i as int, j as int) && b < j,
                    None => art_best_upto(files@, i as int, j as int) == -1,
                },
            decreases n - j,
        {
            let same = str_eq(files[i].dir.as_str(), files[j].dir.as_str()) && str_eq(
                files[i].digest.as_str(),
                files[j].digest.as_str(),
            );
            let better = match best {
                Some(b) => files[j].name.as_str().len() < files[b].name.as_str().len(),
                None => true,
            };
            if same && better {
                best = Some(j);
            }
            j = j + 1;
        }
        let removed = match best {
            Some(b) => b != i,
            None => true,
        };
        out.push(removed);
        i = i + 1;
    }
    out
}

pub proof fn lemma_art_best_bounds(files: Seq<HashedArt>, i: int, n: int)
    requires
        0 <= n <= files.len(),
    ensures
        -1 <= art_best_upto(files, i, n) < n,
        art_best_upto(files, i, n) >= 0 ==> same_art(files, i, art_best_upto(files, i, n)),
        forall|j: int|
            0 <= j < n && #[trigger] same_art(files, i, j) ==> art_best_upto(files, i, n) >= 0
                && name_score(files, art_best_upto(files, i, n)) <= name_score(files, j) && (
            name_score(files, art_best_upto(files, i, n)) == name_score(files, j)
                ==> art_best_upto(files, i, n) <= j),
    decreases n,
{
    if n > 0 {
        lemma_art_best_bounds(files, i, n - 1);
    }
}

pub proof fn lemma_art_best_same(files: Seq<HashedArt>, i: int, k: int, n: int)
    requires
        0 <= i < files.len(),
        0 <= k < files.len(),
        0 <= n <= files.len(),
        same_art(files, i, k),
    ensures
        art_best_upto(files, i, n) == art_best_upto(files, k, n),
    decreases n,
{
    if n > 0 {
        lemma_art_best_same(files, i, k, n - 1);
        let j = n - 1;
        assert(same_art(files, i, j) == same_art(files, k, j));
    }
}

/// Of each set of copies in one folder exactly one stays: the copy kept
/// for a file is a copy of it with a name no longer than any other copy's,
/// all copies keep the same one, and it stays itself.
pub proof fn lemma_one_copy_stays(files: Seq<HashedArt>, i: int)
    requires
        0 <= i < files.len(),
    ensures
        0 <= kept_copy(files, i) < files.len(),
        same_art(files, i, kept_copy(files, i)),
        kept_copy(files, kept_copy(files, i)) == kept_copy(files, i),
        forall|j: int|
            0 <= j < files.len() && #[trigger] same_art(files, i, j) ==> name_score(
                files,
                kept_copy(files, i),
            ) <= name_score(files, j) && kept_copy(files, j) == kept_copy(files, i),
        forall|j: int|
            0 <= j < files.len() && #[trigger] same_art(files, i, j) && kept_copy(files, j) == j
                ==> j == kept_copy(files, i),
{
    let n = files.len() as int;
    lemma_art_best_bounds(files, i, n);
    assert(same_art(files, i, i));
    let c = kept_copy(files, i);
    assert forall|j: int|
        0 <= j < files.len() && #[trigger] same_art(files, i, j) implies name_score(files, c)
        <= name_score(files, j) && kept_copy(files, j) == c by {
        lemma_art_best_same(files, i, j, n);
    }
    lemma_art_best_same(files, i, c, n);
}

// ---------------------------------------------------------------------------
// Folders of a show's episodes.
// ---------------------------------------------------------------------------

/// The folder `level` steps above the file `s` (1: its folder, 2: the
/// folder above that), as `Path::parent` finds it.
pub open spec fn ancestor(s: Seq<char>, level: int) -> Option<PathView> {
    match view_parent(path_view(s)) {
        None => None,
        Some(p) => if level <= 1 {
            Some(p)
        } else {
            view_parent(p)
        },
    }
}

/// The folder that the entry `f` (a file index and a level) stands for.
pub open spec fn folder_of(files: Seq<Seq<char>>, f: (usize, u8)) -> Option<PathView> {
    ancestor(files[f.0 as int], f.1 as int)
}

/// Folder `v` is already among the entries `acc`.
pub open spec fn listed(files: Seq<Seq<char>>, acc: Seq<(usize, u8)>, v: PathView) -> bool {
    exists|k: int| 0 <= k < acc.len() && folder_of(files, #[trigger] acc[k]) == Some(v)
}

pub open spec fn add_folder(files: Seq<Seq<char>>, acc: Seq<(usize, u8)>, i: int, level: int) -> Seq<(usize, u8)> {
    match ancestor(files[i], level) {
        Some(v) => if listed(files, acc, v) {
            acc
        } else {
            acc.push((i as usize, level as u8))
        },
        None => acc,
    }
}

/// The folders of `files[0..n]`: for each file its folder and the folder
/// above, each folder once, in the order first met.
pub open spec fn folders_upto(files: Seq<Seq<char>>, n: int) -> Seq<(usize, u8)>
    decreases n,
{
    if n <= 0 {
        Seq::<(usize, u8)>::empty()
    } else {
        let a = folders_upto(files, n - 1);
        add_folder(files, add_folder(files, a, n - 1, 1), n - 1, 2)
    }
}

fn copy_path(p: &PathParts) -> (r: PathParts)
    ensures
        r@ == p@,
{
    let parts = copy_parts(&p.parts);
    let r = PathParts { rooted: p.rooted, curdir: p.curdir, parts };
    assert(r@ =~= p@);
    r
}

/// Whether folder `v` is among `views`.
fn is_listed(views: &Vec<PathParts>, v: &PathParts) -> (r: bool)
    ensures
        r == exists|k: int| 0 <= k < views@.len() && #[trigger] views@[k]@ == v@,
{
    let mut j: usize = 0;
    while j < views.len()
        invariant
            j <= views@.len(),
            forall|t: int| 0 <= t < j ==> #[trigger] views@[t]@ != v@,
        decreases views.len() - j,
    {
        if path_eq(&views[j], v) {
            return true;
        }
        j = j + 1;
    }
    false
}

/// The folders to tidy for a show whose episode files are `files`: the
/// folder of each file and the folder above it (season and show folders),
/// each once, in the order first met.  Each entry is a file index and how
/// many steps (1 or 2) the folder lies above that file.
pub fn episode_cleanup_folders(files: &[String]) -> (r: Vec<(usize, u8)>)
    ensures
        r@ == folders_upto(strs(files@), files@.len() as int),
{
    let ghost fs = strs(files@);
    let n = files.len();
    let mut acc: Vec<(usize, u8)> = Vec::new();
    let mut views: Vec<PathParts> = Vec::new();
    let mut i: usize = 0;
    while i < n
        invariant
            i <= n == files@.len() == fs.len(),
            fs == strs(files@),
            acc@ == folders_upto(fs, i as int),
            views@.len() == acc@.len(),
            forall|k: int|
                0 <= k < acc@.len() ==> folder_of(fs, #[trigger] acc@[k]) == Some(views@[k]@),
        decreases n - i,
    {
        assert(fs[i as int] == files@[i as int]@);
        let mut p = path_parts_of(&to_chars(files[i].as_str()));
        let ghost a0 = acc@;
        if to_parent(&mut p) {
            // p is the folder of file i
            let seen = is_listed(&views, &p);
            proof {
                assert(ancestor(fs[i as int], 1) == Some(p@));
                if seen {
                    let k = choose|k: int| 0 <= k < views@.len() && #[trigger] views@[k]@ == p@;
                    assert(folder_of(fs, acc@[k]) == Some(p@));
                } else {
                    assert forall|k: int| 0 <= k < acc@.len() implies folder_of(fs, #[trigger] acc@[k])
                        != Some(p@) by {
                        assert(views@[k]@ != p@);
                    }
                }
            }
            if !seen {
                acc.push((i, 1u8));
                views.push(copy_path(&p));
                proof {
                    assert forall|k: int| 0 <= k < acc@.len() implies folder_of(fs, #[trigger] acc@[k])
                        == Some(views@[k]@) by {
                        if k < a0.len() {
                            assert(acc@[k] == a0[k]);
                        }
                    }
                }
            }
            let ghost a1 = acc@;
            assert(a1 == add_folder(fs, a0, i as int, 1));
            let mut q = copy_path(&p);
            if to_parent(&mut q) {
                let seen2 = is_listed(&views, &q);
                proof {
                    assert(ancestor(fs[i as int], 2) == Some(q@));
                    if seen2 {
                        let k = choose|k: int| 0 <= k < views@.len() && #[trigger] views@[k]@ == q@;
                        assert(folder_of(fs, acc@[k]) == Some(q@));
                    } else {
                        assert forall|k: int| 0 <= k < acc@.len() implies folder_of(
                            fs,
                            #[trigger] acc@[k],
                        ) != Some(q@) by {
                            assert(views@[k]@ != q@);
                        }
                    }
                }
                if !seen2 {
                    acc.push((i, 2u8));
                    views.push(q);
                    proof {
                        assert forall|k: int| 0 <= k < acc@.len() implies folder_of(
                            fs,
                            #[trigger] acc@[k],
                        ) == Some(views@[k]@) by {
                            if k < a1.len() {
                                assert(acc@[k] == a1[k]);
                            }
                        }
                    }
                }
                assert(acc@ == add_folder(fs, a1, i as int, 2));
            } else {
                assert(ancestor(fs[i as int], 2) is None);
            }
        } else {
            assert(ancestor(fs[i as int], 1) is None);
            assert(ancestor(fs[i as int], 2) is None);
        }
        i = i + 1;
    }
    acc
}

// ---------------------------------------------------------------------------
// Files that go with a video.
// ---------------------------------------------------------------------------

/// Extensions (lower case) of the files deleted together with a video.
pub open spec fn is_sidecar_ext(e: Seq<char>) -> bool {
    e == "srt"@ || e == "nfo"@ || e == "vtt"@
}

/// The file `name` goes with the video whose stem is `stem`, given its
/// extension in lower case: its name is the stem, or the stem followed by
/// a `.` and more, and it is a subtitle or NFO file.
pub open spec fn sidecar_given(name: Seq<char>, stem: Seq<char>, lower_ext: Seq<char>) -> bool {
    &&& stem.len() <= name.len()
    &&& name.subrange(0, stem.len() as int) == stem
    &&& is_sidecar_ext(lower_ext)
    &&& (name.len() == stem.len() || name[stem.len() as int] == '.')
}

/// The file `name` in the folder of the video at `video_path` goes with
/// it.
pub open spec fn is_sidecar(video_path: Seq<char>, name: Seq<char>) -> bool {
    match file_name(video_path) {
        Some(f) => match lower_ext_of(name) {
            Some(e) => sidecar_given(name, stem_of_name(f), e),
            None => false,
        },
        None => false,
    }
}

/// Whether a file goes with a video, given the video's stem and the file's
/// extension in lower case.
pub fn is_sidecar_given(name: &str, stem: &str, lower_ext: &str) -> (r: bool)
    ensures
        r == sidecar_given(name@, stem@, lower_ext@),
{
    let n = to_chars(name);
    let st = to_chars(stem);
    if st.len() > n.len() {
        return false;
    }
    let mut i: usize = 0;
    while i < st.len()
        invariant
            n@ == name@,
            st@ == stem@,
            st@.len() <= n@.len(),
            i <= st@.len(),
            forall|j: int| 0 <= j < i ==> n@[j] == st@[j],
        decreases st.len() - i,
    {
        if n[i] != st[i] {
            assert(n@.subrange(0, st@.len() as int)[i as int] != st@[i as int]);
            assert(n@.subrange(0, st@.len() as int) != st@);
            return false;
        }
        i = i + 1;
    }
    assert(n@.subrange(0, st@.len() as int) =~= st@);
    if !(str_eq(lower_ext, "srt") || str_eq(lower_ext, "nfo") || str_eq(lower_ext, "vtt")) {
        return false;
    }
    n.len() == st.len() || n[st.len()] == '.'
}

/// Whether the file `name`, in the folder of the video at `video_path`, is
/// deleted with the video.
pub fn is_sidecar_file(video_path: &str, name: &str) -> (r: bool)
    ensures
        r == is_sidecar(video_path@, name@),
{
    let p = path_parts_of(&to_chars(video_path));
    let f = match file_name_of(&p) {
        Some(f) => f,
        None => return false,
    };
    let stem = from_chars(&stem_of_name_exec(&f));
    match lower_extension(name) {
        Some(e) => is_sidecar_given(name, stem.as_str(), e.as_str()),
        None => false,
    }
}

} // verus!
