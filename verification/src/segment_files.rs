//! Following the segments an encoder writes.  The encoder writes each
//! segment under a hidden name (a leading `.`) and reports on its error
//! output when it opens one; when the next segment of the same stream is
//! opened, the previous one is complete and is given its visible name.
//! This module reads those reports and says which files to finalise and
//! which segment index to publish.
use vstd::prelude::*;
use crate::text::{
    has_sub, has_sub_exec, occurs_at, occurs_at_exec, occurs_pred, first_from, lemma_first_from,
    lemma_first_from_is, digits_of, zero_pad, push_digits, push_str, to_chars, from_chars, slice_of,
    str_eq,
};
use crate::server::{parsed_usize, parse_usize};

verus! {

/// The first position at or after `from` where `pat` occurs in `s`, or
/// `s.len()`.
pub open spec fn find_from(s: Seq<char>, pat: Seq<char>, from: int) -> int {
    first_from(occurs_pred(s, pat), from, s.len() as int)
}

/// The second of the pieces that splitting `s` at each `pat` (not empty)
/// gives, as `str::split(pat).nth(1)` finds it.
pub open spec fn second_piece(s: Seq<char>, pat: Seq<char>) -> Option<Seq<char>> {
    let q1 = find_from(s, pat, 0);
    if q1 >= s.len() {
        None
    } else {
        let start = q1 + pat.len();
        Some(s.subrange(start, find_from(s, pat, start)))
    }
}

pub open spec fn char_pred(s: Seq<char>, c: char) -> spec_fn(int) -> bool {
    |j: int| s[j] == c
}

/// The text before the first `c` in `s` (all of `s` when there is none).
pub open spec fn before_char(s: Seq<char>, c: char) -> Seq<char> {
    s.subrange(0, first_from(char_pred(s, c), 0, s.len() as int))
}

/// The text between the first and the second `c` in `s`, when `s` holds a
/// `c`.
pub open spec fn after_char(s: Seq<char>, c: char) -> Option<Seq<char>> {
    let d1 = first_from(char_pred(s, c), 0, s.len() as int);
    if d1 >= s.len() {
        None
    } else {
        Some(s.subrange(d1 + 1, first_from(char_pred(s, c), d1 + 1, s.len() as int)))
    }
}

/// The segment that an encoder output line reports as opened, with the
/// stream it belongs to: `"hls"` for an HLS segment `seg_N.ts`, the
/// representation `R` for a DASH chunk `chunk-streamR-N.webm`.
pub open spec fn opened_segment(line: Seq<char>, is_dash: bool) -> Option<(Seq<char>, int)> {
    if !(has_sub(line, "Opening '"@) && has_sub(line, "' for writing"@)) {
        None
    } else if is_dash {
        if !has_sub(line, ".webm"@) {
            None
        } else {
            match second_piece(line, "chunk-stream"@) {
                None => None,
                Some(part) => match after_char(part, '-') {
                    None => None,
                    Some(seg) => match parsed_usize(before_char(seg, '.')) {
                        Some(i) => Some((before_char(part, '-'), i)),
                        None => None,
                    },
                },
            }
        }
    } else {
        if !has_sub(line, ".ts"@) {
            None
        } else {
            match second_piece(line, "seg_"@) {
                None => None,
                Some(p) => match parsed_usize(before_char(p, '.')) {
                    Some(i) => Some(("hls"@, i)),
                    None => None,
                },
            }
        }
    }
}

/// The visible name of segment `i` of stream `key`.
pub open spec fn segment_file(is_dash: bool, key: Seq<char>, i: int) -> Seq<char> {
    if is_dash {
        "chunk-stream"@ + key + "-"@ + zero_pad(digits_of(i as nat), 5) + ".webm"@
    } else {
        "seg_"@ + zero_pad(digits_of(i as nat), 3) + ".ts"@
    }
}

/// The hidden name under which a segment is written, and its visible name.
pub open spec fn finalize_names(is_dash: bool, key: Seq<char>, i: int) -> (Seq<char>, Seq<char>) {
    ("."@ + segment_file(is_dash, key, i), segment_file(is_dash, key, i))
}

fn find_text(s: &Vec<char>, pat: &Vec<char>, from: usize) -> (r: usize)
    requires
        from <= s@.len(),
    ensures
        r as int == find_from(s@, pat@, from as int),
        from <= r <= s@.len(),
{
    let mut j = from;
    while j < s.len() && !occurs_at_exec(s, j, pat)
        invariant
            from <= j <= s@.len(),
            forall|k: int| from <= k < j ==> !#[trigger] occurs_at(s@, k, pat@),
        decreases s.len() - j,
    {
        j = j + 1;
    }
    proof {
        let p = occurs_pred(s@, pat@);
        assert forall|k: int| from <= k < j implies !#[trigger] p(k) by {}
        if j < s@.len() {
            assert(p(j as int));
        }
        lemma_first_from_is(p, from as int, s@.len() as int, j as int);
    }
    j
}

fn find_char(s: &Vec<char>, c: char, from: usize) -> (r: usize)
    requires
        from <= s@.len(),
    ensures
        r as int == first_from(char_pred(s@, c), from as int, s@.len() as int),
        from <= r <= s@.len(),
{
    let mut j = from;
    while j < s.len() && s[j] != c
        invariant
            from <= j <= s@.len(),
            forall|k: int| from <= k < j ==> s@[k] != c,
        decreases s.len() - j,
    {
        j = j + 1;
    }
    proof {
        let p = char_pred(s@, c);
        assert forall|k: int| from <= k < j implies !#[trigger] p(k) by {}
        lemma_first_from_is(p, from as int, s@.len() as int, j as int);
    }
    j
}

fn second_piece_exec(s: &Vec<char>, pat: &str) -> (r: Option<Vec<char>>)
    requires
        pat@.len() > 0,
    ensures
        match r {
            Some(v) => second_piece(s@, pat@) == Some(v@),
            None => second_piece(s@, pat@) is None,
        },
{
    let p = to_chars(pat);
    let q1 = find_text(s, &p, 0);
    if q1 >= s.len() {
        return None;
    }
    proof {
        lemma_first_from(occurs_pred(s@, p@), 0, s@.len() as int);
        assert(occurs_at(s@, q1 as int, p@));
    }
    let start = q1 + p.len();
    let q2 = find_text(s, &p, start);
    Some(slice_of(s, start, q2))
}

fn before_char_exec(s: &Vec<char>, c: char) -> (r: Vec<char>)
    ensures
        r@ == before_char(s@, c),
{
    let d = find_char(s, c, 0);
    slice_of(s, 0, d)
}

fn after_char_exec(s: &Vec<char>, c: char) -> (r: Option<Vec<char>>)
    ensures
        match r {
            Some(v) => after_char(s@, c) == Some(v@),
            None => after_char(s@, c) is None,
        },
{
    let d1 = find_char(s, c, 0);
    if d1 >= s.len() {
        return None;
    }
    let d2 = find_char(s, c, d1 + 1);
    Some(slice_of(s, d1 + 1, d2))
}

fn contains_text(s: &Vec<char>, pat: &str) -> (r: bool)
    ensures
        r == has_sub(s@, pat@),
{
    has_sub_exec(s, &to_chars(pat))
}

/// The segment that an encoder output line reports as opened, and its
/// stream, if the line reports one.
pub fn parse_opened_segment(line: &str, is_dash: bool) -> (r: Option<(String, usize)>)
    ensures
        match r {
            Some((k, i)) => opened_segment(line@, is_dash) == Some((k@, i as int)),
            None => opened_segment(line@, is_dash) is None,
        },
{
    let l = to_chars(line);
    if !(contains_text(&l, "Opening '") && contains_text(&l, "' for writing")) {
        return None;
    }
    proof {
        reveal_strlit("chunk-stream");
        reveal_strlit("seg_");
    }
    if is_dash {
        if !contains_text(&l, ".webm") {
            return None;
        }
        let part = match second_piece_exec(&l, "chunk-stream") {
            Some(p) => p,
            None => return None,
        };
        let seg = match after_char_exec(&part, '-') {
            Some(x) => x,
            None => return None,
        };
        let num = before_char_exec(&seg, '.');
        match parse_usize(&num) {
            Some(i) => {
                let rep = before_char_exec(&part, '-');
                Some((from_chars(&rep), i))
            },
            None => None,
        }
    } else {
        if !contains_text(&l, ".ts") {
            return None;
        }
        let p = match second_piece_exec(&l, "seg_") {
            Some(p) => p,
            None => return None,
        };
        let num = before_char_exec(&p, '.');
        match parse_usize(&num) {
            Some(i) => Some((from_chars(&to_chars("hls")), i)),
            None => None,
        }
    }
}

fn push_padded(out: &mut Vec<char>, n: u64, w: usize)
    ensures
        final(out)@ == old(out)@ + zero_pad(digits_of(n as nat), w as int),
{
    let mut d: Vec<char> = Vec::new();
    push_digits(&mut d, n);
    assert(d@ =~= digits_of(n as nat));
    let mut k: usize = d.len();
    let ghost start = out@;
    while k < w
        invariant
            d.len() <= k <= w || (k == d.len() && k >= w),
            out@ == start + Seq::new((k - d.len()) as nat, |j: int| '0'),
        decreases w - k,
    {
        out.push('0');
        assert(out@ =~= start + Seq::new((k + 1 - d.len()) as nat, |j: int| '0'));
        k = k + 1;
    }
    let ghost zs = out@;
    let mut i: usize = 0;
    while i < d.len()
        invariant
            i <= d.len(),
            out@ == zs + d@.subrange(0, i as int),
        decreases d.len() - i,
    {
        out.push(d[i]);
        assert(out@ =~= zs + d@.subrange(0, i + 1));
        i = i + 1;
    }
    assert(d@.subrange(0, d.len() as int) =~= d@);
    assert(final(out)@ =~= old(out)@ + zero_pad(digits_of(n as nat), w as int));
}

/// The visible name of segment `i` of stream `key`.
pub fn segment_file_name(is_dash: bool, key: &str, i: usize) -> (r: String)
    ensures
        r@ == segment_file(is_dash, key@, i as int),
{
    let mut v: Vec<char> = Vec::new();
    if is_dash {
        push_str(&mut v, "chunk-stream");
        push_str(&mut v, key);
        push_str(&mut v, "-");
        push_padded(&mut v, i as u64, 5);
        push_str(&mut v, ".webm");
    } else {
        push_str(&mut v, "seg_");
        push_padded(&mut v, i as u64, 3);
        push_str(&mut v, ".ts");
    }
    from_chars(&v)
}

fn names_for(is_dash: bool, key: &str, i: usize) -> (r: (String, String))
    ensures
        (r.0@, r.1@) == finalize_names(is_dash, key@, i as int),
{
    let name = segment_file_name(is_dash, key, i);
    let mut h = to_chars(".");
    push_str(&mut h, name.as_str());
    (from_chars(&h), name)
}

/// The last segment opened of each stream, in the order the streams first
/// appeared.
pub open spec fn entries(v: Seq<(String, usize)>) -> Seq<(Seq<char>, usize)> {
    v.map_values(|e: (String, usize)| (e.0@, e.1))
}

/// Where stream `key` stands among `e` (the last such place), or -1.
pub open spec fn key_index(e: Seq<(Seq<char>, usize)>, key: Seq<char>) -> int
    decreases e.len(),
{
    if e.len() == 0 {
        -1
    } else if e.last().0 == key {
        e.len() - 1
    } else {
        key_index(e.drop_last(), key)
    }
}

/// `e` once segment `i` of stream `key` has been opened.
pub open spec fn store(e: Seq<(Seq<char>, usize)>, key: Seq<char>, i: usize) -> Seq<(Seq<char>, usize)> {
    let k = key_index(e, key);
    if k >= 0 {
        e.update(k, (key, i))
    } else {
        e.push((key, i))
    }
}

pub proof fn lemma_key_index(e: Seq<(Seq<char>, usize)>, key: Seq<char>)
    ensures
        -1 <= key_index(e, key) < e.len(),
        key_index(e, key) >= 0 ==> e[key_index(e, key)].0 == key,
        forall|j: int| key_index(e, key) < j < e.len() ==> #[trigger] e[j].0 != key,
    decreases e.len(),
{
    if e.len() > 0 && e.last().0 != key {
        lemma_key_index(e.drop_last(), key);
        assert forall|j: int| key_index(e, key) < j < e.len() implies #[trigger] e[j].0 != key by {
            if j < e.len() - 1 {
                assert(e[j] == e.drop_last()[j]);
            }
        }
    }
}

/// What an output line asks for: the complete segment to give its visible
/// name (hidden name, visible name), if any, and the index to publish.
pub struct SegmentUpdate {
    pub finalize: Option<(String, String)>,
    pub published: usize,
}

/// The segments opened so far by one encoder run.
pub struct SegmentTracker {
    pub is_dash: bool,
    pub last: Vec<(String, usize)>,
}

impl SegmentTracker {
    /// A run that has opened no segment yet.
    pub fn new(is_dash: bool) -> (r: Self)
        ensures
            r.is_dash == is_dash,
            r.last@.len() == 0,
    {
        SegmentTracker { is_dash, last: Vec::new() }
    }

    /// Reads one line of the encoder's output.  When it reports a segment
    /// opened, the previous segment of the same stream (if any) is to be
    /// finalised, and the new index is published.
    pub fn on_line(&mut self, line: &str) -> (r: Option<SegmentUpdate>)
        ensures
            final(self).is_dash == old(self).is_dash,
            match opened_segment(line@, old(self).is_dash) {
                None => r is None && entries(final(self).last@) == entries(old(self).last@),
                Some((key, i)) => {
                    let k = key_index(entries(old(self).last@), key);
                    &&& r matches Some(u)
                    &&& u.published == i
                    &&& match u.finalize {
                        Some(f) => k >= 0 && (f.0@, f.1@) == finalize_names(
                            old(self).is_dash,
                            key,
                            entries(old(self).last@)[k].1 as int,
                        ),
                        None => k < 0,
                    }
                    &&& entries(final(self).last@) == store(entries(old(self).last@), key, i as usize)
                },
            },
    {
        let (key, idx) = match parse_opened_segment(line, self.is_dash) {
            Some(p) => p,
            None => return None,
        };
        let ghost e = entries(self.last@);
        let n = self.last.len();
        let mut j = n;
        proof {
            assert(e.subrange(0, n as int) =~= e);
        }
        while j > 0 && !str_eq(self.last[j - 1].0.as_str(), key.as_str())
            invariant
                j <= n == self.last@.len() == e.len(),
                e == entries(self.last@),
                key_index(e, key@) == key_index(e.subrange(0, j as int), key@),
            decreases j,
        {
            assert(e.subrange(0, j as int).drop_last() =~= e.subrange(0, j - 1));
            j = j - 1;
        }
        proof {
            if j > 0 {
                assert(e.subrange(0, j as int).last() == e[j - 1]);
            }
        }
        if j > 0 {
            let prev = self.last[j - 1].1;
            let names = names_for(self.is_dash, key.as_str(), prev);
            let ghost kv = key@;
            self.last.set(j - 1, (key, idx));
            proof {
                assert(entries(self.last@) =~= e.update(j - 1, (kv, idx)));
            }
            Some(SegmentUpdate { finalize: Some(names), published: idx })
        } else {
            let ghost kv = key@;
            self.last.push((key, idx));
            proof {
                assert(entries(self.last@) =~= e.push((kv, idx)));
            }
            Some(SegmentUpdate { finalize: None, published: idx })
        }
    }

    /// The segments to finalise when the encoder exits: the last one of
    /// each stream, as (hidden name, visible name).
    pub fn pending(&self) -> (r: Vec<(String, String)>)
        ensures
            r@.len() == self.last@.len(),
            forall|k: int|
                0 <= k < r@.len() ==> (#[trigger] r@[k].0@, r@[k].1@) == finalize_names(
                    self.is_dash,
                    self.last@[k].0@,
                    self.last@[k].1 as int,
                ),
    {
        let mut out: Vec<(String, String)> = Vec::new();
        let mut k: usize = 0;
        while k < self.last.len()
            invariant
                k <= self.last@.len(),
                out@.len() == k,
                forall|t: int|
                    0 <= t < k ==> (#[trigger] out@[t].0@, out@[t].1@) == finalize_names(
                        self.is_dash,
                        self.last@[t].0@,
                        self.last@[t].1 as int,
                    ),
            decreases self.last.len() - k,
        {
            out.push(names_for(self.is_dash, self.last[k].0.as_str(), self.last[k].1));
            k = k + 1;
        }
        out
    }
}

/// Every stream is followed once: however many segments are opened, no
/// stream stands twice among the last segments.
pub proof fn lemma_streams_stay_distinct(e: Seq<(Seq<char>, usize)>, key: Seq<char>, i: usize)
    requires
        forall|a: int, b: int| 0 <= a < b < e.len() ==> e[a].0 != e[b].0,
    ensures
        forall|a: int, b: int|
            0 <= a < b < store(e, key, i).len() ==> store(e, key, i)[a].0 != store(e, key, i)[b].0,
        key_index(store(e, key, i), key) >= 0,
        store(e, key, i)[key_index(store(e, key, i), key)] == (key, i),
{
    lemma_key_index(e, key);
    let s = store(e, key, i);
    let k = key_index(e, key);
    if k < 0 {
        assert forall|j: int| 0 <= j < e.len() implies #[trigger] e[j].0 != key by {}
    } else {
        assert forall|j: int| 0 <= j < e.len() && j != k implies #[trigger] e[j].0 != key by {
            if j < k {
                assert(e[j].0 != e[k].0);
            }
        }
    }
    lemma_key_index(s, key);
    let ks = key_index(s, key);
    if k < 0 {
        assert(s[e.len() as int].0 == key);
        if ks < e.len() {
            assert(false);
        }
    } else {
        assert(s[k].0 == key);
        if ks > k {
            assert(s[ks] == e[ks]);
        }
        if ks < k {
            assert(false);
        }
    }
}

} // verus!
