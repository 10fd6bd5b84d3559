//! Character-level text model shared by the grammars of this crate.
//!
//! Strings are handled as sequences of `char`.  Whitespace is the Unicode
//! `White_Space` set (what `str::trim` removes), digits are ASCII digits and
//! letters are compared without regard to ASCII case.
use vstd::prelude::*;

verus! {

/// `String::push` appends one character at the end of the string.
pub assume_specification[ String::push ](s: &mut String, ch: char)
    ensures
        final(s)@ == old(s)@.push(ch),
;

/// Whether `char::is_alphanumeric` holds of `c` (the Unicode `Alphabetic`
/// or `Numeric` properties).
pub uninterp spec fn unicode_alphanumeric(c: char) -> bool;

/// Calls `char::is_alphanumeric`; the contract only names its result.
#[verifier::external_body]
pub(crate) fn char_is_alphanumeric(c: char) -> (r: bool)
    ensures
        r == unicode_alphanumeric(c),
{
    c.is_alphanumeric()
}

/// Unicode `White_Space`.
pub open spec fn is_ws(c: char) -> bool {
    let u = c as u32;
    ||| 0x9 <= u <= 0xd
    ||| u == 0x20
    ||| u == 0x85
    ||| u == 0xa0
    ||| u == 0x1680
    ||| 0x2000 <= u <= 0x200a
    ||| u == 0x2028
    ||| u == 0x2029
    ||| u == 0x202f
    ||| u == 0x205f
    ||| u == 0x3000
}

pub fn is_ws_exec(c: char) -> (r: bool)
    ensures
        r == is_ws(c),
{
    let u = c as u32;
    (0x9 <= u && u <= 0xd) || u == 0x20 || u == 0x85 || u == 0xa0 || u == 0x1680 || (0x2000 <= u
        && u <= 0x200a) || u == 0x2028 || u == 0x2029 || u == 0x202f || u == 0x205f || u == 0x3000
}

pub open spec fn is_digit(c: char) -> bool {
    '0' as u32 <= c as u32 <= '9' as u32
}

pub fn is_digit_exec(c: char) -> (r: bool)
    ensures
        r == is_digit(c),
{
    let u = c as u32;
    48 <= u && u <= 57
}

pub open spec fn is_ascii_alpha(c: char) -> bool {
    ||| 'a' as u32 <= c as u32 <= 'z' as u32
    ||| 'A' as u32 <= c as u32 <= 'Z' as u32
}

/// A character that counts as part of a word for word boundaries: ASCII
/// letters and digits, `_`, and non-ASCII alphanumeric characters.
pub open spec fn is_word(c: char) -> bool {
    ||| is_ascii_alpha(c)
    ||| is_digit(c)
    ||| c == '_'
    ||| (c as u32 >= 128 && unicode_alphanumeric(c))
}

pub fn is_word_exec(c: char) -> (r: bool)
    ensures
        r == is_word(c),
{
    let u = c as u32;
    if (97 <= u && u <= 122) || (65 <= u && u <= 90) || (48 <= u && u <= 57) || u == 95 {
        true
    } else if u >= 128 {
        char_is_alphanumeric(c)
    } else {
        false
    }
}

/// The code of `c` with ASCII upper-case letters mapped to lower case.
pub open spec fn fold(c: char) -> int {
    if 'A' as u32 <= c as u32 <= 'Z' as u32 {
        c as u32 + 32
    } else {
        c as u32 as int
    }
}

pub fn fold_exec(c: char) -> (r: u32)
    ensures
        r == fold(c),
{
    let u = c as u32;
    if 65 <= u && u <= 90 {
        u + 32
    } else {
        u
    }
}

/// `a` and `b` are equal up to ASCII case.
pub open spec fn ci_eq(a: char, b: char) -> bool {
    fold(a) == fold(b)
}

/// `t` occurs at position `q` of `s`, up to ASCII case.
pub open spec fn ci_at(s: Seq<char>, q: int, t: Seq<char>) -> bool {
    &&& 0 <= q
    &&& q + t.len() <= s.len()
    &&& forall|i: int| 0 <= i < t.len() ==> ci_eq(#[trigger] s[q + i], t[i])
}

pub fn ci_at_exec(s: &Vec<char>, q: usize, t: &str) -> (r: bool)
    ensures
        r == ci_at(s@, q as int, t@),
{
    let n = t.unicode_len();
    if n > s.len() || q > s.len() - n {
        return false;
    }
    let mut i: usize = 0;
    while i < n
        invariant
            n == t@.len(),
            q + n <= s.len(),
            i <= n,
            forall|j: int| 0 <= j < i ==> ci_eq(#[trigger] s@[q + j], t@[j]),
        decreases n - i,
    {
        let a = fold_exec(s[q + i]);
        let b = fold_exec(t.get_char(i));
        if a != b {
            assert(!ci_eq(s@[q + i as int], t@[i as int]));
            return false;
        }
        i = i + 1;
    }
    true
}

/// No word character ends right before position `q`.
pub open spec fn boundary_before(s: Seq<char>, q: int) -> bool {
    q <= 0 || !is_word(s[q - 1])
}

/// No word character starts at position `e`.
pub open spec fn boundary_after(s: Seq<char>, e: int) -> bool {
    e >= s.len() || !is_word(s[e])
}

pub fn boundary_before_exec(s: &Vec<char>, q: usize) -> (r: bool)
    requires
        q <= s.len(),
    ensures
        r == boundary_before(s@, q as int),
{
    q == 0 || !is_word_exec(s[q - 1])
}

pub fn boundary_after_exec(s: &Vec<char>, e: usize) -> (r: bool)
    ensures
        r == boundary_after(s@, e as int),
{
    e >= s.len() || !is_word_exec(s[e])
}

/// Number of ASCII digits in the run that starts at position `i`.
pub open spec fn digit_run(s: Seq<char>, i: int) -> nat
    decreases s.len() - i,
{
    if 0 <= i < s.len() && is_digit(s[i]) {
        1 + digit_run(s, i + 1)
    } else {
        0
    }
}

/// Number of whitespace characters in the run that starts at position `i`.
pub open spec fn ws_run(s: Seq<char>, i: int) -> nat
    decreases s.len() - i,
{
    if 0 <= i < s.len() && is_ws(s[i]) {
        1 + ws_run(s, i + 1)
    } else {
        0
    }
}

pub proof fn lemma_digit_run(s: Seq<char>, i: int)
    requires
        0 <= i <= s.len(),
    ensures
        i + digit_run(s, i) <= s.len(),
        forall|j: int| i <= j < i + digit_run(s, i) ==> is_digit(#[trigger] s[j]),
        i + digit_run(s, i) < s.len() ==> !is_digit(s[i + digit_run(s, i)]),
    decreases s.len() - i,
{
    if i < s.len() && is_digit(s[i]) {
        lemma_digit_run(s, i + 1);
    }
}

pub proof fn lemma_ws_run(s: Seq<char>, i: int)
    requires
        0 <= i <= s.len(),
    ensures
        i + ws_run(s, i) <= s.len(),
        forall|j: int| i <= j < i + ws_run(s, i) ==> is_ws(#[trigger] s[j]),
        i + ws_run(s, i) < s.len() ==> !is_ws(s[i + ws_run(s, i)]),
    decreases s.len() - i,
{
    if i < s.len() && is_ws(s[i]) {
        lemma_ws_run(s, i + 1);
    }
}

pub fn digit_run_exec(s: &Vec<char>, i: usize) -> (r: usize)
    requires
        i <= s.len(),
    ensures
        r == digit_run(s@, i as int),
        i + r <= s.len(),
{
    let mut j = i;
    while j < s.len() && is_digit_exec(s[j])
        invariant
            i <= j <= s.len(),
            digit_run(s@, i as int) == (j - i) + digit_run(s@, j as int),
        decreases s.len() - j,
    {
        j = j + 1;
    }
    j - i
}

pub fn ws_run_exec(s: &Vec<char>, i: usize) -> (r: usize)
    requires
        i <= s.len(),
    ensures
        r == ws_run(s@, i as int),
        i + r <= s.len(),
{
    let mut j = i;
    while j < s.len() && is_ws_exec(s[j])
        invariant
            i <= j <= s.len(),
            ws_run(s@, i as int) == (j - i) + ws_run(s@, j as int),
        decreases s.len() - j,
    {
        j = j + 1;
    }
    j - i
}


/// The least `j` in `[i, n)` with `p(j)`, or `n` when there is none.
pub open spec fn first_from(p: spec_fn(int) -> bool, i: int, n: int) -> int
    decreases n - i,
{
    if i >= n {
        n
    } else if p(i) {
        i
    } else {
        first_from(p, i + 1, n)
    }
}

pub proof fn lemma_first_from(p: spec_fn(int) -> bool, i: int, n: int)
    requires
        i <= n,
    ensures
        i <= first_from(p, i, n) <= n,
        first_from(p, i, n) < n ==> p(first_from(p, i, n)),
        forall|j: int| i <= j < first_from(p, i, n) ==> !#[trigger] p(j),
    decreases n - i,
{
    if i < n && !p(i) {
        lemma_first_from(p, i + 1, n);
    }
}

pub proof fn lemma_first_from_is(p: spec_fn(int) -> bool, i: int, n: int, r: int)
    requires
        i <= r <= n,
        r < n ==> p(r),
        forall|j: int| i <= j < r ==> !#[trigger] p(j),
    ensures
        first_from(p, i, n) == r,
    decreases n - i,
{
    if i < r {
        assert(!p(i));
        lemma_first_from_is(p, i + 1, n, r);
    }
}

/// `s` without its leading whitespace.
pub open spec fn trim_start(s: Seq<char>) -> Seq<char>
    decreases s.len(),
{
    if s.len() > 0 && is_ws(s[0]) {
        trim_start(s.drop_first())
    } else {
        s
    }
}

/// `s` without its trailing whitespace.
pub open spec fn trim_end(s: Seq<char>) -> Seq<char>
    decreases s.len(),
{
    if s.len() > 0 && is_ws(s.last()) {
        trim_end(s.drop_last())
    } else {
        s
    }
}

/// `s` without leading and trailing whitespace, as `str::trim` gives it.
pub open spec fn trim(s: Seq<char>) -> Seq<char> {
    trim_end(trim_start(s))
}

/// Every maximal run of whitespace replaced by one space; `prev_ws` says
/// whether the text before `s` ended in such a run.
pub open spec fn collapse_from(s: Seq<char>, prev_ws: bool) -> Seq<char>
    decreases s.len(),
{
    if s.len() == 0 {
        Seq::<char>::empty()
    } else if is_ws(s[0]) {
        if prev_ws {
            collapse_from(s.drop_first(), true)
        } else {
            seq![' '] + collapse_from(s.drop_first(), true)
        }
    } else {
        seq![s[0]] + collapse_from(s.drop_first(), false)
    }
}

/// Every maximal run of whitespace replaced by one space.
pub open spec fn collapse_ws(s: Seq<char>) -> Seq<char> {
    collapse_from(s, false)
}

/// `collapse_ws` of `trim` of `s`, trimmed: the normal form of a title.
pub open spec fn squash(s: Seq<char>) -> Seq<char> {
    trim(collapse_ws(trim(s)))
}

/// Positions `a..b` of `v`.
pub fn slice_of(v: &Vec<char>, a: usize, b: usize) -> (r: Vec<char>)
    requires
        a <= b <= v.len(),
    ensures
        r@ == v@.subrange(a as int, b as int),
{
    let mut r: Vec<char> = Vec::new();
    let mut i = a;
    while i < b
        invariant
            a <= i <= b <= v.len(),
            r@ == v@.subrange(a as int, i as int),
        decreases b - i,
    {
        r.push(v[i]);
        i = i + 1;
    }
    r
}

/// Appends positions `a..b` of `v` to `out`.
pub fn push_range(out: &mut Vec<char>, v: &Vec<char>, a: usize, b: usize)
    requires
        a <= b <= v.len(),
    ensures
        final(out)@ == old(out)@ + v@.subrange(a as int, b as int),
{
    let mut i = a;
    while i < b
        invariant
            a <= i <= b <= v.len(),
            out@ == old(out)@ + v@.subrange(a as int, i as int),
        decreases b - i,
    {
        out.push(v[i]);
        i = i + 1;
    }
}

/// Appends the characters of `t` to `out`.
pub fn push_str(out: &mut Vec<char>, t: &str)
    ensures
        final(out)@ == old(out)@ + t@,
{
    let n = t.unicode_len();
    let mut i: usize = 0;
    while i < n
        invariant
            n == t@.len(),
            i <= n,
            out@ == old(out)@ + t@.subrange(0, i as int),
        decreases n - i,
    {
        out.push(t.get_char(i));
        i = i + 1;
    }
    assert(t@.subrange(0, n as int) =~= t@);
}

pub fn trim_chars(s: &Vec<char>) -> (r: Vec<char>)
    ensures
        r@ == trim(s@),
{
    let n = s.len();
    let mut i: usize = 0;
    assert(s@.subrange(0, n as int) =~= s@);
    while i < n && is_ws_exec(s[i])
        invariant
            i <= n == s@.len(),
            trim_start(s@) == trim_start(s@.subrange(i as int, n as int)),
        decreases n - i,
    {
        assert(s@.subrange(i as int, n as int).drop_first() =~= s@.subrange(i + 1, n as int));
        i = i + 1;
    }
    let mut j = n;
    while j > i && is_ws_exec(s[j - 1])
        invariant
            i <= j <= n == s@.len(),
            trim(s@) == trim_end(s@.subrange(i as int, j as int)),
        decreases j,
    {
        assert(s@.subrange(i as int, j as int).drop_last() =~= s@.subrange(i as int, j - 1));
        j = j - 1;
    }
    slice_of(s, i, j)
}


pub fn trim_end_chars(s: &Vec<char>) -> (r: Vec<char>)
    ensures
        r@ == trim_end(s@),
{
    let n = s.len();
    let mut j = n;
    assert(s@.subrange(0, n as int) =~= s@);
    while j > 0 && is_ws_exec(s[j - 1])
        invariant
            j <= n == s@.len(),
            trim_end(s@) == trim_end(s@.subrange(0, j as int)),
        decreases j,
    {
        assert(s@.subrange(0, j as int).drop_last() =~= s@.subrange(0, j - 1));
        j = j - 1;
    }
    slice_of(s, 0, j)
}

pub fn collapse_ws_chars(s: &Vec<char>) -> (r: Vec<char>)
    ensures
        r@ == collapse_ws(s@),
{
    let n = s.len();
    let mut out: Vec<char> = Vec::new();
    let mut prev = false;
    let mut i: usize = 0;
    assert(s@.subrange(0, n as int) =~= s@);
    while i < n
        invariant
            i <= n == s@.len(),
            collapse_ws(s@) == out@ + collapse_from(s@.subrange(i as int, n as int), prev),
        decreases n - i,
    {
        let c = s[i];
        let ghost rest = s@.subrange(i as int, n as int);
        assert(rest.drop_first() =~= s@.subrange(i + 1, n as int));
        if is_ws_exec(c) {
            if !prev {
                out.push(' ');
                assert(out@ + collapse_from(s@.subrange(i + 1, n as int), true) =~= (out@.drop_last()
                    + (seq![' '] + collapse_from(s@.subrange(i + 1, n as int), true))));
            }
            prev = true;
        } else {
            out.push(c);
            assert(out@ + collapse_from(s@.subrange(i + 1, n as int), false) =~= (out@.drop_last()
                + (seq![c] + collapse_from(s@.subrange(i + 1, n as int), false))));
            prev = false;
        }
        i = i + 1;
    }
    assert(out@ + collapse_from(s@.subrange(n as int, n as int), prev) =~= out@);
    out
}

/// The normal form of a title: trimmed, runs of whitespace made one space.
pub fn squash_chars(s: &Vec<char>) -> (r: Vec<char>)
    ensures
        r@ == squash(s@),
{
    let a = trim_chars(s);
    let b = collapse_ws_chars(&a);
    trim_chars(&b)
}

/// `s` with `.` and `_` replaced by spaces.
pub open spec fn dots_to_spaces(s: Seq<char>) -> Seq<char> {
    s.map_values(|c: char| if c == '.' || c == '_' { ' ' } else { c })
}

pub fn dots_to_spaces_chars(s: &Vec<char>) -> (r: Vec<char>)
    ensures
        r@ == dots_to_spaces(s@),
{
    let mut out: Vec<char> = Vec::new();
    let mut i: usize = 0;
    while i < s.len()
        invariant
            i <= s.len(),
            out@ == dots_to_spaces(s@.subrange(0, i as int)),
        decreases s.len() - i,
    {
        let c = s[i];
        out.push(if c == '.' || c == '_' { ' ' } else { c });
        assert(dots_to_spaces(s@.subrange(0, i + 1)) =~= dots_to_spaces(s@.subrange(0, i as int)).push(
            if c == '.' || c == '_' { ' ' } else { c }));
        i = i + 1;
    }
    assert(s@.subrange(0, s.len() as int) =~= s@);
    out
}


/// The ASCII digit for `d` (`0 <= d < 10`).
pub open spec fn digit_char(d: int) -> char {
    ((48 + d) as u8) as char
}

/// Decimal digits of `n`, most significant first, without leading zeros.
pub open spec fn digits_of(n: nat) -> Seq<char>
    decreases n,
{
    if n < 10 {
        seq![digit_char(n as int)]
    } else {
        digits_of(n / 10).push(digit_char((n % 10) as int))
    }
}

/// `i` written in decimal, as `i.to_string()` and `{}` write integers.
pub open spec fn decimal(i: int) -> Seq<char> {
    if i < 0 {
        seq!['-'] + digits_of((-i) as nat)
    } else {
        digits_of(i as nat)
    }
}

/// `w - d.len()` zeros (none when `d` is at least `w` long) followed by `d`.
pub open spec fn zero_pad(d: Seq<char>, w: int) -> Seq<char> {
    Seq::new(if w > d.len() { (w - d.len()) as nat } else { 0 }, |k: int| '0') + d
}

/// `i` written in decimal with zeros after the sign up to width `w`, as
/// `{:0w}` writes integers.
pub open spec fn decimal_padded(i: int, w: int) -> Seq<char> {
    if i < 0 {
        seq!['-'] + zero_pad(digits_of((-i) as nat), w - 1)
    } else {
        zero_pad(digits_of(i as nat), w)
    }
}

pub proof fn lemma_digits_of_len(n: nat)
    ensures
        n < 10 ==> digits_of(n).len() == 1,
        digits_of(n).len() >= 1,
    decreases n,
{
    if n >= 10 {
        lemma_digits_of_len(n / 10);
    }
}

pub fn push_digits(out: &mut Vec<char>, n: u64)
    ensures
        final(out)@ == old(out)@ + digits_of(n as nat),
    decreases n,
{
    if n >= 10 {
        push_digits(out, n / 10);
    }
    let d = (n % 10) as u8;
    out.push((48u8 + d) as char);
    proof {
        if n >= 10 {
            assert(digits_of(n as nat) == digits_of((n / 10) as nat).push(digit_char((n % 10) as int)));
        }
    }
}

fn magnitude(i: i64) -> (m: u64)
    ensures
        m as int == if i < 0 { -i } else { i as int },
{
    if i < 0 {
        let j = i as i128;
        (0i128 - j) as u64
    } else {
        i as u64
    }
}

/// Appends `i` in decimal to `out`.
pub fn push_decimal(out: &mut Vec<char>, i: i64)
    ensures
        final(out)@ == old(out)@ + decimal(i as int),
{
    if i < 0 {
        out.push('-');
    }
    let ghost mid = out@;
    push_digits(out, magnitude(i));
    proof {
        if i < 0 {
            assert(out@ =~= old(out)@ + decimal(i as int));
        }
    }
}

/// Appends `i` in decimal, zero-padded after the sign to width `w`.
pub fn push_decimal_padded(out: &mut Vec<char>, i: i64, w: usize)
    ensures
        final(out)@ == old(out)@ + decimal_padded(i as int, w as int),
{
    let mut d: Vec<char> = Vec::new();
    let m = magnitude(i);
    push_digits(&mut d, m);
    assert(d@ =~= digits_of(m as nat));
    let target: usize = if i < 0 {
        if w > 0 { w - 1 } else { 0 }
    } else {
        w
    };
    if i < 0 {
        out.push('-');
    }
    let ghost before = out@;
    let mut k: usize = d.len();
    while k < target
        invariant
            d.len() <= k <= target || (k == d.len() && target <= d.len()),
            out@ == before + Seq::new((k - d.len()) as nat, |j: int| '0'),
        decreases target - k,
    {
        out.push('0');
        assert(out@ =~= before + Seq::new((k + 1 - d.len()) as nat, |j: int| '0'));
        k = k + 1;
    }
    let ghost zeros = out@;
    push_range(out, &d, 0, d.len());
    proof {
        assert(d@.subrange(0, d@.len() as int) =~= d@);
        let dd = digits_of(m as nat);
        if i < 0 {
            assert(zero_pad(dd, w - 1) =~= Seq::new(
                if w - 1 > dd.len() { (w - 1 - dd.len()) as nat } else { 0 },
                |j: int| '0',
            ) + dd);
            assert(out@ =~= old(out)@ + decimal_padded(i as int, w as int));
        } else {
            assert(out@ =~= old(out)@ + decimal_padded(i as int, w as int));
        }
    }
}

/// `i` in decimal.
pub fn decimal_string(i: i64) -> (r: String)
    ensures
        r@ == decimal(i as int),
{
    let mut v: Vec<char> = Vec::new();
    push_decimal(&mut v, i);
    assert(v@ =~= decimal(i as int));
    from_chars(&v)
}


/// `n` in decimal.
pub fn decimal_string_u64(n: u64) -> (r: String)
    ensures
        r@ == decimal(n as int),
{
    let mut v: Vec<char> = Vec::new();
    push_digits(&mut v, n);
    assert(v@ =~= decimal(n as int));
    from_chars(&v)
}

/// Whether two strings hold the same characters.
pub fn str_eq(a: &str, b: &str) -> (r: bool)
    ensures
        r == (a@ == b@),
{
    let n = a.unicode_len();
    if n != b.unicode_len() {
        return false;
    }
    let mut i: usize = 0;
    while i < n
        invariant
            n == a@.len() == b@.len(),
            i <= n,
            forall|j: int| 0 <= j < i ==> a@[j] == b@[j],
        decreases n - i,
    {
        if a.get_char(i) != b.get_char(i) {
            return false;
        }
        i = i + 1;
    }
    assert(a@ =~= b@);
    true
}

/// `s` equals `t` regardless of ASCII case.
pub open spec fn ci_is(s: Seq<char>, t: Seq<char>) -> bool {
    s.len() == t.len() && ci_at(s, 0, t)
}

/// Whether `s` equals `t` regardless of ASCII case.
pub fn ci_is_exec(s: &str, t: &str) -> (r: bool)
    ensures
        r == ci_is(s@, t@),
{
    let v = to_chars(s);
    v.len() == t.unicode_len() && ci_at_exec(&v, 0, t)
}

/// The texts of a sequence of strings.
pub open spec fn strs(v: Seq<String>) -> Seq<Seq<char>> {
    v.map_values(|x: String| x@)
}

/// Whether `v` holds a string equal to `t`.
pub fn contains_str(v: &[String], t: &str) -> (r: bool)
    ensures
        r == strs(v@).contains(t@),
{
    let mut i: usize = 0;
    while i < v.len()
        invariant
            i <= v.len(),
            forall|j: int| 0 <= j < i ==> v@[j]@ != t@,
        decreases v.len() - i,
    {
        if str_eq(v[i].as_str(), t) {
            assert(strs(v@)[i as int] == t@);
            return true;
        }
        i = i + 1;
    }
    assert(!strs(v@).contains(t@)) by {
        assert forall|j: int| 0 <= j < v@.len() implies #[trigger] strs(v@)[j] != t@ by {}
    }
    false
}

/// `pat` occurs at position `i` of `s`.
pub open spec fn occurs_at(s: Seq<char>, i: int, pat: Seq<char>) -> bool {
    0 <= i && i + pat.len() <= s.len() && s.subrange(i, i + pat.len()) == pat
}

pub open spec fn occurs_pred(s: Seq<char>, pat: Seq<char>) -> spec_fn(int) -> bool {
    |j: int| occurs_at(s, j, pat)
}

/// The part of `s` from `i` on with every occurrence of `pat` replaced by
/// `rep`, occurrences found left to right without overlap.
pub open spec fn replace_from(s: Seq<char>, pat: Seq<char>, rep: Seq<char>, i: int) -> Seq<char>
    decreases s.len() - i,
{
    if i < 0 || i >= s.len() || pat.len() == 0 {
        if 0 <= i < s.len() {
            s.subrange(i, s.len() as int)
        } else {
            Seq::<char>::empty()
        }
    } else {
        let q = first_from(occurs_pred(s, pat), i, s.len() as int);
        if q >= s.len() {
            s.subrange(i, s.len() as int)
        } else {
            proof {
                lemma_first_from(occurs_pred(s, pat), i, s.len() as int);
            }
            s.subrange(i, q) + rep + replace_from(s, pat, rep, q + pat.len())
        }
    }
}

/// `s` with every occurrence of `pat` replaced by `rep`, as `str::replace`
/// does for a non-empty pattern.
pub open spec fn replace_all(s: Seq<char>, pat: Seq<char>, rep: Seq<char>) -> Seq<char> {
    replace_from(s, pat, rep, 0)
}

pub fn occurs_at_exec(s: &Vec<char>, i: usize, pat: &Vec<char>) -> (r: bool)
    ensures
        r == occurs_at(s@, i as int, pat@),
{
    if pat.len() > s.len() || i > s.len() - pat.len() {
        return false;
    }
    let mut k: usize = 0;
    while k < pat.len()
        invariant
            k <= pat.len(),
            i + pat.len() <= s.len(),
            forall|j: int| 0 <= j < k ==> s@[i + j] == pat@[j],
        decreases pat.len() - k,
    {
        if s[i + k] != pat[k] {
            assert(s@.subrange(i as int, i + pat.len())[k as int] != pat@[k as int]);
            return false;
        }
        k = k + 1;
    }
    assert(s@.subrange(i as int, i + pat.len()) =~= pat@);
    true
}

/// `pat` occurs somewhere in `s`.
pub open spec fn has_sub(s: Seq<char>, pat: Seq<char>) -> bool {
    exists|i: int| occurs_at(s, i, pat)
}

/// Whether `pat` occurs in `s`.
pub fn has_sub_exec(s: &Vec<char>, pat: &Vec<char>) -> (r: bool)
    ensures
        r == has_sub(s@, pat@),
{
    if pat.len() == 0 {
        assert(occurs_at(s@, 0, pat@)) by {
            assert(s@.subrange(0, 0) =~= pat@);
        }
        return true;
    }
    let mut i: usize = 0;
    while i < s.len()
        invariant
            i <= s.len(),
            forall|j: int| 0 <= j < i ==> !#[trigger] occurs_at(s@, j, pat@),
        decreases s.len() - i,
    {
        if occurs_at_exec(s, i, pat) {
            return true;
        }
        i = i + 1;
    }
    assert forall|j: int| !#[trigger] occurs_at(s@, j, pat@) by {
        if 0 <= j < i {
        } else {
            assert(!occurs_at(s@, j, pat@));
        }
    }
    false
}

/// `s` with every occurrence of `pat` replaced by `rep`.
pub fn replace_all_chars(s: &Vec<char>, pat: &Vec<char>, rep: &Vec<char>) -> (r: Vec<char>)
    ensures
        r@ == replace_all(s@, pat@, rep@),
{
    let n = s.len();
    let mut out: Vec<char> = Vec::new();
    if pat.len() == 0 {
        push_range(&mut out, s, 0, n);
        return out;
    }
    let mut i: usize = 0;
    while i < n
        invariant
            i <= n == s@.len(),
            pat@.len() > 0,
            replace_all(s@, pat@, rep@) == out@ + replace_from(s@, pat@, rep@, i as int),
        decreases n - i,
    {
        let mut q = i;
        while q < n && !occurs_at_exec(s, q, pat)
            invariant
                i <= q <= n,
                forall|j: int| i <= j < q ==> !#[trigger] occurs_at(s@, j, pat@),
            decreases n - q,
        {
            q = q + 1;
        }
        proof {
            let p = occurs_pred(s@, pat@);
            assert forall|j: int| i <= j < q implies !#[trigger] p(j) by {}
            if q < n {
                assert(p(q as int));
            }
            lemma_first_from_is(p, i as int, n as int, q as int);
        }
        if q >= n {
            push_range(&mut out, s, i, n);
            i = n;
        } else {
            push_range(&mut out, s, i, q);
            push_range(&mut out, rep, 0, rep.len());
            assert(rep@.subrange(0, rep.len() as int) =~= rep@);
            i = q + pat.len();
        }
    }
    assert(replace_from(s@, pat@, rep@, n as int) =~= Seq::<char>::empty());
    out
}

/// `s` with `rep` before each character and at its end, as `str::replace`
/// does for an empty pattern.
pub open spec fn interleave(s: Seq<char>, rep: Seq<char>) -> Seq<char>
    decreases s.len(),
{
    if s.len() == 0 {
        rep
    } else {
        interleave(s.drop_last(), rep) + seq![s.last()] + rep
    }
}

/// `s` with every occurrence of `pat` replaced by `rep`, as `str::replace`
/// does.
pub open spec fn replaced(s: Seq<char>, pat: Seq<char>, rep: Seq<char>) -> Seq<char> {
    if pat.len() == 0 {
        interleave(s, rep)
    } else {
        replace_all(s, pat, rep)
    }
}

fn interleave_chars(s: &Vec<char>, rep: &Vec<char>) -> (r: Vec<char>)
    ensures
        r@ == interleave(s@, rep@),
{
    let mut out: Vec<char> = Vec::new();
    push_range(&mut out, rep, 0, rep.len());
    assert(rep@.subrange(0, rep.len() as int) =~= rep@);
    let mut i: usize = 0;
    while i < s.len()
        invariant
            i <= s.len(),
            out@ == interleave(s@.subrange(0, i as int), rep@),
        decreases s.len() - i,
    {
        out.push(s[i]);
        push_range(&mut out, rep, 0, rep.len());
        assert(s@.subrange(0, i + 1).drop_last() =~= s@.subrange(0, i as int));
        assert(out@ =~= interleave(s@.subrange(0, i + 1), rep@));
        i = i + 1;
    }
    assert(s@.subrange(0, s.len() as int) =~= s@);
    out
}

/// `s` with every occurrence of `pat` replaced by `rep`, as `str::replace` does.
pub fn replace_str(s: &str, pat: &str, rep: &str) -> (r: String)
    ensures
        r@ == replaced(s@, pat@, rep@),
{
    let a = to_chars(s);
    let b = to_chars(pat);
    let c = to_chars(rep);
    if b.len() == 0 {
        return from_chars(&interleave_chars(&a, &c));
    }
    let d = replace_all_chars(&a, &b, &c);
    from_chars(&d)
}

/// The characters of `s`, in order.
pub fn to_chars(s: &str) -> (v: Vec<char>)
    ensures
        v@ == s@,
{
    let mut v: Vec<char> = Vec::new();
    for c in it: s.chars()
        invariant
            v@ == it.seq().subrange(0, it.index() as int),
            it.seq() == s@,
    {
        v.push(c);
    }
    v
}

/// A `String` holding the characters of `v`, in order.
pub fn from_chars(v: &[char]) -> (s: String)
    ensures
        s@ == v@,
{
    let mut s = String::new();
    let mut i: usize = 0;
    while i < v.len()
        invariant
            i <= v.len(),
            s@ == v@.subrange(0, i as int),
        decreases v.len() - i,
    {
        s.push(v[i]);
        i = i + 1;
    }
    s
}

} // verus!
