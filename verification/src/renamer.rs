//! Naming movies on disk: folder and file names made from templates with
//! `${title}`, `${year}`, `${resolution}` and `${codec}` placeholders.
use vstd::prelude::*;
use crate::text::{trim, trim_start, trim_end, is_ws, collapse_ws, ws_run, lemma_ws_run, ws_run_exec, trim_chars, collapse_ws_chars, to_chars, from_chars, replace_all, replaced, replace_str, decimal, decimal_string, push_range};
use crate::models::{Movie, Resolution, resolution_text};
use crate::parser::{extension_of, extension_exec};

verus! {

/// Characters that cannot stand in a file name on some system.
pub open spec fn is_forbidden(c: char) -> bool {
    c == '\\' || c == '/' || c == '*' || c == '?' || c == ':' || c == '"' || c == '<' || c == '>'
        || c == '|'
}

/// `s` without its forbidden characters.
pub open spec fn drop_forbidden(s: Seq<char>) -> Seq<char>
    decreases s.len(),
{
    if s.len() == 0 {
        s
    } else if is_forbidden(s.last()) {
        drop_forbidden(s.drop_last())
    } else {
        drop_forbidden(s.drop_last()).push(s.last())
    }
}

/// A name made safe for the file system: forbidden characters removed, then
/// trimmed.
pub open spec fn sanitized(s: Seq<char>) -> Seq<char> {
    trim(drop_forbidden(s))
}

/// Where the empty bracket pair (`[ ]` or `( )`, only whitespace inside)
/// that opens at `i` ends, one past its closer; -1 when none opens there.
pub open spec fn empty_pair_end(s: Seq<char>, i: int) -> int {
    let j = i + 1 + ws_run(s, i + 1);
    if 0 <= i < s.len() && (s[i] == '[' || s[i] == '(') && j < s.len() && ((s[i] == '[' && s[j]
        == ']') || (s[i] == '(' && s[j] == ')')) {
        j + 1
    } else {
        -1
    }
}

/// The part of `s` from `i` on with every empty bracket pair removed,
/// pairs found left to right.
pub open spec fn drop_empty_pairs_from(s: Seq<char>, i: int) -> Seq<char>
    decreases s.len() - i,
{
    if i < 0 || i >= s.len() {
        Seq::<char>::empty()
    } else if empty_pair_end(s, i) > i {
        drop_empty_pairs_from(s, empty_pair_end(s, i))
    } else {
        seq![s[i]] + drop_empty_pairs_from(s, i + 1)
    }
}

/// A generated name tidied: brackets left empty by a missing value
/// removed, whitespace runs made one space, ends trimmed.
pub open spec fn cleaned(s: Seq<char>) -> Seq<char> {
    trim(collapse_ws(drop_empty_pairs_from(s, 0)))
}

pub open spec fn year_text(y: Option<i32>) -> Seq<char> {
    match y {
        Some(v) => decimal(v as int),
        None => Seq::<char>::empty(),
    }
}

pub open spec fn resolution_name(r: Option<Resolution>) -> Seq<char> {
    match r {
        Some(x) => resolution_text(x),
        None => Seq::<char>::empty(),
    }
}

/// The folder name a template gives for a title and year.
pub open spec fn folder_name_for(template: Seq<char>, title: Seq<char>, year: Option<i32>) -> Seq<
    char,
> {
    cleaned(
        replace_all(
            replace_all(template, "${title}"@, sanitized(title)),
            "${year}"@,
            year_text(year),
        ),
    )
}

/// The file name, without extension, a template gives.
pub open spec fn file_stem_for(
    template: Seq<char>,
    title: Seq<char>,
    year: Option<i32>,
    res: Option<Resolution>,
    codec: Seq<char>,
) -> Seq<char> {
    cleaned(
        replace_all(
            replace_all(
                replace_all(
                    replace_all(template, "${title}"@, sanitized(title)),
                    "${year}"@,
                    year_text(year),
                ),
                "${resolution}"@,
                resolution_name(res),
            ),
            "${codec}"@,
            codec,
        ),
    )
}

/// The extension a renamed file keeps: that of the original, or `mkv`.
pub open spec fn kept_extension(original: Seq<char>) -> Seq<char> {
    match extension_of(original) {
        Some(e) => e,
        None => "mkv"@,
    }
}

/// Templates for the folder and the file name of a movie.
pub struct Renamer {
    pub folder_template: String,
    pub file_template: String,
}

fn drop_forbidden_chars(s: &Vec<char>) -> (r: Vec<char>)
    ensures
        r@ == drop_forbidden(s@),
{
    let mut out: Vec<char> = Vec::new();
    let mut i: usize = 0;
    while i < s.len()
        invariant
            i <= s.len(),
            out@ == drop_forbidden(s@.subrange(0, i as int)),
        decreases s.len() - i,
    {
        let c = s[i];
        assert(s@.subrange(0, i + 1).drop_last() =~= s@.subrange(0, i as int));
        if !(c == '\\' || c == '/' || c == '*' || c == '?' || c == ':' || c == '"' || c == '<' || c
            == '>' || c == '|') {
            out.push(c);
        }
        i = i + 1;
    }
    assert(s@.subrange(0, s.len() as int) =~= s@);
    out
}

fn empty_pair_end_exec(s: &Vec<char>, i: usize) -> (r: usize)
    requires
        i < s.len(),
    ensures
        r == 0 <==> empty_pair_end(s@, i as int) == -1,
        r != 0 ==> r == empty_pair_end(s@, i as int),
        r != 0 ==> i < r <= s.len(),
{
    let c = s[i];
    if c != '[' && c != '(' {
        return 0;
    }
    let j = i + 1 + ws_run_exec(s, i + 1);
    if j < s.len() && ((c == '[' && s[j] == ']') || (c == '(' && s[j] == ')')) {
        j + 1
    } else {
        0
    }
}

fn drop_empty_pairs(s: &Vec<char>) -> (r: Vec<char>)
    ensures
        r@ == drop_empty_pairs_from(s@, 0),
{
    let n = s.len();
    let mut out: Vec<char> = Vec::new();
    let mut i: usize = 0;
    while i < n
        invariant
            i <= n == s@.len(),
            drop_empty_pairs_from(s@, 0) == out@ + drop_empty_pairs_from(s@, i as int),
        decreases n - i,
    {
        let e = empty_pair_end_exec(s, i);
        if e != 0 {
            i = e;
        } else {
            out.push(s[i]);
            assert(out@ + drop_empty_pairs_from(s@, i + 1) =~= out@.drop_last() + (seq![s@[i as int]]
                + drop_empty_pairs_from(s@, i + 1)));
            i = i + 1;
        }
    }
    assert(out@ + drop_empty_pairs_from(s@, n as int) =~= out@);
    out
}

fn cleaned_chars(s: &Vec<char>) -> (r: Vec<char>)
    ensures
        r@ == cleaned(s@),
{
    let a = drop_empty_pairs(s);
    let b = collapse_ws_chars(&a);
    trim_chars(&b)
}

impl Renamer {
    /// Renamer with the given templates; `${title} (${year})` for folders
    /// and `${title} (${year}) [${resolution}]` for files where none is given.
    pub fn new(folder_template: Option<String>, file_template: Option<String>) -> (r: Self)
        ensures
            r.folder_template@ == (match folder_template {
                Some(t) => t@,
                None => "${title} (${year})"@,
            }),
            r.file_template@ == (match file_template {
                Some(t) => t@,
                None => "${title} (${year}) [${resolution}]"@,
            }),
    {
        let folder = match folder_template {
            Some(t) => t,
            None => String::from_str("${title} (${year})"),
        };
        let file = match file_template {
            Some(t) => t,
            None => String::from_str("${title} (${year}) [${resolution}]"),
        };
        Renamer { folder_template: folder, file_template: file }
    }

    /// `name` without the characters `\ / * ? : " < > |`, trimmed.
    pub fn sanitize(&self, name: &str) -> (r: String)
        ensures
            r@ == sanitized(name@),
    {
        let v = to_chars(name);
        let d = drop_forbidden_chars(&v);
        let t = trim_chars(&d);
        from_chars(&t)
    }

    /// The name of a resolution, empty for none.
    pub fn resolution_to_name(&self, res: Option<Resolution>) -> (r: String)
        ensures
            r@ == resolution_name(res),
    {
        match res {
            Some(x) => String::from_str(x.as_str()),
            None => String::new(),
        }
    }

    /// A generated name tidied: empty `[ ]` and `( )` removed, whitespace
    /// runs made one space, ends trimmed.
    pub fn clean_placeholders(&self, name: String) -> (r: String)
        ensures
            r@ == cleaned(name@),
    {
        let v = to_chars(name.as_str());
        let c = cleaned_chars(&v);
        from_chars(&c)
    }

    /// The folder name and the file name (with extension) under which
    /// `movie` is stored, for the file now at `original_path`.
    pub fn generate_paths(
        &self,
        movie: &Movie,
        original_path: &str,
        resolution: Option<Resolution>,
        codec: Option<&str>,
    ) -> (r: (String, String))
        ensures
            r.0@ == folder_name_for(self.folder_template@, movie.title@, movie.year),
            r.1@ == file_stem_for(
                self.file_template@,
                movie.title@,
                movie.year,
                resolution,
                match codec {
                    Some(c) => c@,
                    None => Seq::<char>::empty(),
                },
            ) + "."@ + kept_extension(original_path@),
    {
        let title = self.sanitize(movie.title.as_str());
        let year = match movie.year {
            Some(y) => decimal_string(y as i64),
            None => String::new(),
        };
        let res_name = self.resolution_to_name(resolution);
        let cod = match codec {
            Some(c) => c,
            None => "",
        };
        proof {
            reveal_strlit("${title}");
            reveal_strlit("${year}");
            reveal_strlit("${resolution}");
            reveal_strlit("${codec}");
            reveal_strlit("");
        }
        assert(cod@ =~= match codec {
            Some(c) => c@,
            None => Seq::<char>::empty(),
        });
        let f1 = replace_str(self.folder_template.as_str(), "${title}", title.as_str());
        let f2 = replace_str(f1.as_str(), "${year}", year.as_str());
        let g1 = replace_str(self.file_template.as_str(), "${title}", title.as_str());
        let g2 = replace_str(g1.as_str(), "${year}", year.as_str());
        let g3 = replace_str(g2.as_str(), "${resolution}", res_name.as_str());
        let g4 = replace_str(g3.as_str(), "${codec}", cod);
        let folder_name = self.clean_placeholders(f2);
        let file_stem = self.clean_placeholders(g4);
        let path_chars = to_chars(original_path);
        let mut out = to_chars(file_stem.as_str());
        out.push('.');
        match extension_exec(&path_chars) {
            Some(e) => {
                push_range(&mut out, &e, 0, e.len());
                assert(e@.subrange(0, e.len() as int) =~= e@);
            },
            None => {
                let m = to_chars("mkv");
                push_range(&mut out, &m, 0, m.len());
                assert(m@.subrange(0, m.len() as int) =~= m@);
            },
        }
        assert(out@ =~= file_stem@ + "."@ + kept_extension(original_path@)) by {
            reveal_strlit(".");
        }
        (folder_name, from_chars(&out))
    }
}

/// The new name of a file beside a renamed movie: files whose names start
/// with the movie's old stem follow it, every occurrence of the old stem
/// replaced by the new one; other files stay.
pub open spec fn companion(name: Seq<char>, old_stem: Seq<char>, new_stem: Seq<char>) -> Option<Seq<char>> {
    if old_stem.len() <= name.len() && name.subrange(0, old_stem.len() as int) == old_stem {
        Some(replaced(name, old_stem, new_stem))
    } else {
        None
    }
}

/// The name a file beside a renamed movie takes, if it follows the movie.
pub fn companion_file_name(file_name: &str, old_stem: &str, new_stem: &str) -> (r: Option<String>)
    ensures
        match r {
            Some(n) => companion(file_name@, old_stem@, new_stem@) == Some(n@),
            None => companion(file_name@, old_stem@, new_stem@) is None,
        },
{
    let f = to_chars(file_name);
    let o = to_chars(old_stem);
    if o.len() > f.len() {
        return None;
    }
    let mut i: usize = 0;
    while i < o.len()
        invariant
            f@ == file_name@,
            o@ == old_stem@,
            o@.len() <= f@.len(),
            i <= o@.len(),
            forall|j: int| 0 <= j < i ==> f@[j] == o@[j],
        decreases o.len() - i,
    {
        if f[i] != o[i] {
            assert(f@.subrange(0, o@.len() as int)[i as int] != o@[i as int]);
            assert(f@.subrange(0, o@.len() as int) != o@);
            return None;
        }
        i = i + 1;
    }
    assert(f@.subrange(0, o@.len() as int) =~= o@);
    Some(replace_str(file_name, old_stem, new_stem))
}


proof fn lemma_drop_forbidden_clean(s: Seq<char>)
    ensures
        forall|i: int| 0 <= i < drop_forbidden(s).len() ==> !is_forbidden(#[trigger] drop_forbidden(s)[i]),
    decreases s.len(),
{
    if s.len() > 0 {
        let t = s.drop_last();
        lemma_drop_forbidden_clean(t);
        if is_forbidden(s.last()) {
            assert(drop_forbidden(s) == drop_forbidden(t));
        } else {
            let d = drop_forbidden(t).push(s.last());
            assert(drop_forbidden(s) == d);
            assert forall|i: int| 0 <= i < d.len() implies !is_forbidden(#[trigger] d[i]) by {
                if i < d.len() - 1 {
                    assert(d[i] == drop_forbidden(t)[i]);
                }
            }
        }
    }
}

proof fn lemma_trim_start_within(s: Seq<char>, p: spec_fn(char) -> bool)
    requires
        forall|i: int| 0 <= i < s.len() ==> p(#[trigger] s[i]),
    ensures
        forall|i: int| 0 <= i < crate::text::trim_start(s).len() ==> p(#[trigger] crate::text::trim_start(s)[i]),
    decreases s.len(),
{
    if s.len() > 0 && crate::text::is_ws(s[0]) {
        assert forall|i: int| 0 <= i < s.drop_first().len() implies p(#[trigger] s.drop_first()[i]) by {
            assert(s.drop_first()[i] == s[i + 1]);
        }
        lemma_trim_start_within(s.drop_first(), p);
        assert(crate::text::trim_start(s) == crate::text::trim_start(s.drop_first()));
    } else {
        assert(crate::text::trim_start(s) == s);
    }
}

proof fn lemma_trim_end_within(s: Seq<char>, p: spec_fn(char) -> bool)
    requires
        forall|i: int| 0 <= i < s.len() ==> p(#[trigger] s[i]),
    ensures
        forall|i: int| 0 <= i < crate::text::trim_end(s).len() ==> p(#[trigger] crate::text::trim_end(s)[i]),
    decreases s.len(),
{
    if s.len() > 0 && crate::text::is_ws(s.last()) {
        assert forall|i: int| 0 <= i < s.drop_last().len() implies p(#[trigger] s.drop_last()[i]) by {
            assert(s.drop_last()[i] == s[i]);
        }
        lemma_trim_end_within(s.drop_last(), p);
        assert(crate::text::trim_end(s) == crate::text::trim_end(s.drop_last()));
    } else {
        assert(crate::text::trim_end(s) == s);
    }
}

/// A sanitized name holds none of the characters that some file system
/// forbids.
pub proof fn lemma_sanitized_is_safe(name: Seq<char>)
    ensures
        forall|i: int| 0 <= i < sanitized(name).len() ==> !is_forbidden(#[trigger] sanitized(name)[i]),
{
    let p = |c: char| !is_forbidden(c);
    lemma_drop_forbidden_clean(name);
    let d = drop_forbidden(name);
    assert forall|i: int| 0 <= i < d.len() implies p(#[trigger] d[i]) by {}
    lemma_trim_start_within(d, p);
    lemma_trim_end_within(crate::text::trim_start(d), p);
    assert forall|i: int| 0 <= i < sanitized(name).len() implies !is_forbidden(
        #[trigger] sanitized(name)[i],
    ) by {
        assert(p(sanitized(name)[i]));
    }
}

proof fn lemma_trim_start_shape(s: Seq<char>)
    ensures
        trim_start(s).len() == 0 || !is_ws(trim_start(s)[0]),
    decreases s.len(),
{
    if s.len() > 0 && is_ws(s[0]) {
        lemma_trim_start_shape(s.drop_first());
    }
}

proof fn lemma_trim_end_shape(s: Seq<char>)
    ensures
        trim_end(s).len() <= s.len(),
        trim_end(s) == s.subrange(0, trim_end(s).len() as int),
        trim_end(s).len() == 0 || !is_ws(trim_end(s).last()),
    decreases s.len(),
{
    if s.len() > 0 && is_ws(s.last()) {
        lemma_trim_end_shape(s.drop_last());
        assert(s.drop_last().subrange(0, trim_end(s).len() as int) =~= s.subrange(0, trim_end(s).len() as int));
    } else {
        assert(s.subrange(0, s.len() as int) =~= s);
    }
}

proof fn lemma_trim_settles(s: Seq<char>)
    ensures
        trim(trim(s)) == trim(s),
{
    let a = trim_start(s);
    let t = trim_end(a);
    lemma_trim_start_shape(s);
    lemma_trim_end_shape(a);
    if t.len() > 0 {
        assert(t[0] == a[0]);
    }
    assert(trim_start(t) == t);
    assert(trim_end(t) == t);
}

proof fn lemma_drop_forbidden_keeps_clean(s: Seq<char>)
    requires
        forall|i: int| 0 <= i < s.len() ==> !is_forbidden(#[trigger] s[i]),
    ensures
        drop_forbidden(s) == s,
    decreases s.len(),
{
    if s.len() > 0 {
        let t = s.drop_last();
        assert forall|i: int| 0 <= i < t.len() implies !is_forbidden(#[trigger] t[i]) by {
            assert(t[i] == s[i]);
        }
        lemma_drop_forbidden_keeps_clean(t);
        assert(!is_forbidden(s[s.len() - 1]));
        assert(t.push(s.last()) =~= s);
    }
}

/// A sanitized name has no surrounding whitespace, and sanitizing it
/// again leaves it as it is.
pub proof fn lemma_sanitize_settles(name: Seq<char>)
    ensures
        trim(sanitized(name)) == sanitized(name),
        sanitized(sanitized(name)) == sanitized(name),
{
    let d = drop_forbidden(name);
    lemma_trim_settles(d);
    lemma_sanitized_is_safe(name);
    lemma_drop_forbidden_keeps_clean(sanitized(name));
}

} // verus!
