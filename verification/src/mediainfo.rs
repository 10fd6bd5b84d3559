//! What a probe of a media file tells: its streams, picture size, codecs,
//! duration and size.
use vstd::prelude::*;
use crate::text::{is_digit, is_digit_exec, str_eq, to_chars};
use crate::parser::{num_value, lemma_num_value_prefix, lemma_num_value_bound};
use crate::scan::{parsed_i32, parse_i32, opt_i32, all_digits_from};

verus! {

/// One stream of a probed file.
#[derive(Clone, Debug)]
pub struct MediaStreamInfo {
    pub index: i32,
    pub stream_type: String,
    pub codec: String,
    pub language: Option<String>,
    pub title: Option<String>,
    pub channels: Option<i32>,
}

/// The technical description of a media file.
#[derive(Clone, Debug)]
pub struct MediaDetails {
    pub width: i32,
    pub height: i32,
    pub video_codec: String,
    pub audio_codec: String,
    pub audio_channels: i32,
    pub size_bytes: i64,
    pub duration_secs: i32,
    pub rotation: i32,
    pub bit_depth: i32,
    pub streams: Vec<MediaStreamInfo>,
}

impl Default for MediaDetails {
    /// The description of a file that could not be probed: no picture, no
    /// streams, codecs `unknown`.
    fn default() -> (r: Self)
        ensures
            r.width == 0,
            r.height == 0,
            r.video_codec@ == "unknown"@,
            r.audio_codec@ == "unknown"@,
            r.audio_channels == 0,
            r.size_bytes == 0,
            r.duration_secs == 0,
            r.rotation == 0,
            r.bit_depth == 0,
            r.streams@.len() == 0,
    {
        MediaDetails {
            width: 0,
            height: 0,
            video_codec: String::from_str("unknown"),
            audio_codec: String::from_str("unknown"),
            audio_channels: 0,
            size_bytes: 0,
            duration_secs: 0,
            rotation: 0,
            bit_depth: 0,
            streams: Vec::new(),
        }
    }
}

/// A JSON value as the probe prints it.  A number is held as the `i64` it
/// is equal to, none when it is not an integer of that range.
pub enum JsonValue {
    Null,
    Bool(bool),
    Number(Option<i64>),
    Str(String),
    Array(Vec<JsonValue>),
    Object(Vec<(String, JsonValue)>),
}

/// Why a probe's output gives no description.
#[derive(Clone, Copy, PartialEq, Eq, Structural, Debug)]
pub enum MediaInfoError {
    /// The output has no `streams` array.
    NoStreams,
    /// No stream is a video stream.
    NoVideoStream,
}

pub open spec fn lookup(m: Seq<(String, JsonValue)>, key: Seq<char>, i: int) -> Option<JsonValue>
    decreases m.len() - i,
{
    if i < 0 || i >= m.len() {
        None
    } else if m[i].0@ == key {
        Some(m[i].1)
    } else {
        lookup(m, key, i + 1)
    }
}

/// The member `key` of an object (none when `v` is no object or lacks it).
pub open spec fn member(v: Option<JsonValue>, key: Seq<char>) -> Option<JsonValue> {
    match v {
        Some(JsonValue::Object(m)) => lookup(m@, key, 0),
        _ => None,
    }
}

pub open spec fn as_text(v: Option<JsonValue>) -> Option<Seq<char>> {
    match v {
        Some(JsonValue::Str(s)) => Some(s@),
        _ => None,
    }
}

pub open spec fn as_int(v: Option<JsonValue>) -> Option<i64> {
    match v {
        Some(JsonValue::Number(n)) => n,
        _ => None,
    }
}

pub open spec fn as_list(v: Option<JsonValue>) -> Option<Seq<JsonValue>> {
    match v {
        Some(JsonValue::Array(a)) => Some(a@),
        _ => None,
    }
}

pub open spec fn text_or(o: Option<Seq<char>>, d: Seq<char>) -> Seq<char> {
    match o {
        Some(t) => t,
        None => d,
    }
}

/// A value read as text where the text is an `i32`, or as a number.
pub open spec fn int_field(v: Option<JsonValue>, text_first: bool) -> Option<int> {
    let t = match as_text(v) {
        Some(s) => parsed_i32(s),
        None => None,
    };
    let n = match as_int(v) {
        Some(x) => Some((x as i32) as int),
        None => None,
    };
    if text_first {
        if as_text(v) is Some {
            t
        } else {
            n
        }
    } else {
        if as_int(v) is Some {
            n
        } else {
            t
        }
    }
}

pub open spec fn stream_info(st: JsonValue) -> (int, Seq<char>, Seq<char>, Option<Seq<char>>, Option<Seq<char>>, Option<int>) {
    let s = Some(st);
    (
        match as_int(member(s, "index"@)) {
            Some(x) => (x as i32) as int,
            None => 0,
        },
        text_or(as_text(member(s, "codec_type"@)), "unknown"@),
        text_or(as_text(member(s, "codec_name"@)), "unknown"@),
        as_text(member(member(s, "tags"@), "language"@)),
        as_text(member(member(s, "tags"@), "title"@)),
        match as_int(member(s, "channels"@)) {
            Some(x) => Some((x as i32) as int),
            None => None,
        },
    )
}

pub open spec fn info_view(i: MediaStreamInfo) -> (int, Seq<char>, Seq<char>, Option<Seq<char>>, Option<Seq<char>>, Option<int>) {
    (
        i.index as int,
        i.stream_type@,
        i.codec@,
        match i.language {
            Some(t) => Some(t@),
            None => None,
        },
        match i.title {
            Some(t) => Some(t@),
            None => None,
        },
        opt_i32(i.channels),
    )
}

/// Index of the first stream of type `kind` among `streams`, or
/// `streams.len()`.
pub open spec fn first_of_type(streams: Seq<JsonValue>, kind: Seq<char>, i: int) -> int
    decreases streams.len() - i,
{
    if i < 0 || i >= streams.len() {
        streams.len() as int
    } else if text_or(as_text(member(Some(streams[i]), "codec_type"@)), "unknown"@) == kind {
        i
    } else {
        first_of_type(streams, kind, i + 1)
    }
}

/// The rotation a "Display Matrix" side-data list gives: the last such
/// entry whose rotation reads as a number wins; `r` before any.
pub open spec fn side_rotation(list: Seq<JsonValue>, n: int, r: int) -> int
    decreases n,
{
    if n <= 0 || n > list.len() {
        r
    } else {
        let prev = side_rotation(list, n - 1, r);
        let d = Some(list[n - 1]);
        if as_text(member(d, "side_data_type"@)) == Some("Display Matrix"@) {
            match int_field(member(d, "rotation"@), false) {
                Some(v) => v,
                None => prev,
            }
        } else {
            prev
        }
    }
}

/// The rotation of a video stream: its `rotate` tag (text or number), else
/// its display matrix; 0 when neither says.
pub open spec fn video_rotation(video: JsonValue) -> int {
    let tag = int_field(member(member(Some(video), "tags"@), "rotate"@), true);
    let r0 = match tag {
        Some(v) => v,
        None => 0,
    };
    if r0 == 0 {
        match as_list(member(Some(video), "side_data_list"@)) {
            Some(l) => side_rotation(l, l.len() as int, 0),
            None => 0,
        }
    } else {
        r0
    }
}

/// The bit depth of a video stream: `bits_per_raw_sample`, else
/// `bits_per_sample`; 0 when neither says.
pub open spec fn video_bit_depth(video: JsonValue) -> int {
    let b0 = match int_field(member(Some(video), "bits_per_raw_sample"@), true) {
        Some(v) => v,
        None => 0,
    };
    if b0 == 0 {
        match int_field(member(Some(video), "bits_per_sample"@), false) {
            Some(v) => v,
            None => 0,
        }
    } else {
        b0
    }
}

/// The `i64` that `s` writes (optional sign, ASCII digits, in range).
pub open spec fn parsed_i64(s: Seq<char>) -> Option<int> {
    let a: int = if s.len() > 0 && (s[0] == '-' || s[0] == '+') {
        1
    } else {
        0
    };
    if a >= s.len() || !all_digits_from(s, a) {
        None
    } else {
        let v = num_value(s.subrange(a, s.len() as int));
        let val = if s[0] == '-' {
            -v
        } else {
            v
        };
        if i64::MIN <= val <= i64::MAX {
            Some(val)
        } else {
            None
        }
    }
}

/// Ten to the power `k`.
pub open spec fn pow10(k: nat) -> int
    decreases k,
{
    if k == 0 {
        1
    } else {
        10 * pow10((k - 1) as nat)
    }
}

/// 1 when `s` starts with a sign, else 0.
pub open spec fn sign_len(s: Seq<char>) -> int {
    if s.len() > 0 && (s[0] == '-' || s[0] == '+') {
        1
    } else {
        0
    }
}

/// The digits before the point.
pub open spec fn int_digit_count(s: Seq<char>) -> int {
    crate::text::digit_run(s, sign_len(s)) as int
}

/// Whether a point follows those digits.
pub open spec fn has_point(s: Seq<char>) -> bool {
    let rest = sign_len(s) + int_digit_count(s);
    rest < s.len() && s[rest] == '.'
}

/// The digits after the point.
pub open spec fn frac_digit_count(s: Seq<char>) -> int {
    if has_point(s) {
        crate::text::digit_run(s, sign_len(s) + int_digit_count(s) + 1) as int
    } else {
        0
    }
}

/// Where the digits (and point) of the number end.
pub open spec fn mantissa_end(s: Seq<char>) -> int {
    let rest = sign_len(s) + int_digit_count(s);
    if has_point(s) {
        rest + 1 + frac_digit_count(s)
    } else {
        rest
    }
}

/// All the digits of the number, those after the point last.
pub open spec fn mantissa_digits(s: Seq<char>) -> Seq<char> {
    let a = sign_len(s);
    let rest = a + int_digit_count(s);
    s.subrange(a, rest) + if has_point(s) {
        s.subrange(rest + 1, rest + 1 + frac_digit_count(s))
    } else {
        Seq::<char>::empty()
    }
}

/// The power of ten after the digits: 0 when there is none, the value of
/// `e` or `E`, an optional sign and at least one digit ending the text;
/// none when something else follows the digits.
pub open spec fn exponent_of(s: Seq<char>) -> Option<int> {
    let m = mantissa_end(s);
    if m == s.len() {
        Some(0)
    } else if s[m] == 'e' || s[m] == 'E' {
        let b = m + 1;
        let sb: int = if b < s.len() && (s[b] == '+' || s[b] == '-') {
            1
        } else {
            0
        };
        let ed = crate::text::digit_run(s, b + sb) as int;
        if ed >= 1 && b + sb + ed == s.len() {
            let v = num_value(s.subrange(b + sb, s.len() as int));
            Some(if sb == 1 && s[b] == '-' { -v } else { v })
        } else {
            None
        }
    } else {
        None
    }
}

/// The whole part of the number with digits `d` whose point stands after
/// the first `p` of them (before them when `p` is negative, after as many
/// zeros as needed when `p` is beyond them).
pub open spec fn whole_part(d: Seq<char>, p: int) -> int {
    if p <= 0 {
        0
    } else if p <= d.len() {
        num_value(d.subrange(0, p))
    } else {
        num_value(d) * pow10((p - d.len()) as nat)
    }
}

/// A whole number of magnitude `v`, negative when `neg`, brought into the
/// `i32` range by saturation.
pub open spec fn saturated_i32(neg: bool, v: int) -> int {
    if neg {
        if v >= 0x8000_0000 { i32::MIN as int } else { -v }
    } else {
        if v > i32::MAX { i32::MAX as int } else { v }
    }
}

/// The text after the sign reads, in any ASCII case, `inf` or `infinity`.
pub open spec fn infinite_text(s: Seq<char>) -> bool {
    let a = sign_len(s);
    (s.len() == a + 3 && crate::text::ci_at(s, a, "inf"@))
        || (s.len() == a + 8 && crate::text::ci_at(s, a, "infinity"@))
}

/// The text after the sign reads `nan`, in any ASCII case.
pub open spec fn nan_text(s: Seq<char>) -> bool {
    let a = sign_len(s);
    s.len() == a + 3 && crate::text::ci_at(s, a, "nan"@)
}

/// Whole seconds of a duration text read as a floating-point number
/// (`[+-]digits[.digits][(e|E)[+-]digits]`, at least one digit before the
/// exponent, or `inf`, `infinity`, `nan`): the number cut to its whole
/// part toward zero and saturated to the `i32` range, infinities to its
/// ends and `nan` to 0; none for any other text.  The number is taken
/// exactly, where a binary float may round a long decimal.
pub open spec fn whole_seconds(s: Seq<char>) -> Option<int> {
    let a = sign_len(s);
    let neg = a == 1 && s[0] == '-';
    if infinite_text(s) {
        Some(if neg { i32::MIN as int } else { i32::MAX as int })
    } else if nan_text(s) {
        Some(0)
    } else if int_digit_count(s) + frac_digit_count(s) == 0 {
        None
    } else {
        match exponent_of(s) {
            None => None,
            Some(e) => Some(saturated_i32(neg, whole_part(mantissa_digits(s), int_digit_count(s) + e))),
        }
    }
}

/// The description of a file that the probe's JSON output `json` gives.
pub open spec fn details_of(json: JsonValue) -> Result<(int, int, Seq<char>, Seq<char>, int, int, int, int, int), MediaInfoError> {
    let j = Some(json);
    match as_list(member(j, "streams"@)) {
        None => Err(MediaInfoError::NoStreams),
        Some(streams) => {
            let vi = first_of_type(streams, "video"@, 0);
            let ai = first_of_type(streams, "audio"@, 0);
            if vi >= streams.len() {
                Err(MediaInfoError::NoVideoStream)
            } else {
                let v = Some(streams[vi]);
                let width = match as_int(member(v, "width"@)) {
                    Some(x) => (x as i32) as int,
                    None => 0,
                };
                let height = match as_int(member(v, "height"@)) {
                    Some(x) => (x as i32) as int,
                    None => 0,
                };
                let audio_codec = if ai < streams.len() {
                    text_or(as_text(member(Some(streams[ai]), "codec_name"@)), "unknown"@)
                } else {
                    "none"@
                };
                let audio_channels = if ai < streams.len() {
                    match as_int(member(Some(streams[ai]), "channels"@)) {
                        Some(x) => (x as i32) as int,
                        None => 0,
                    }
                } else {
                    0
                };
                let size = match as_text(member(member(j, "format"@), "size"@)) {
                    Some(t) => match parsed_i64(t) {
                        Some(x) => x,
                        None => 0,
                    },
                    None => 0,
                };
                let duration = match as_text(member(member(j, "format"@), "duration"@)) {
                    Some(t) => match whole_seconds(t) {
                        Some(x) => x,
                        None => 0,
                    },
                    None => 0,
                };
                Ok(
                    (
                        width,
                        height,
                        text_or(as_text(member(v, "codec_name"@)), "unknown"@),
                        audio_codec,
                        audio_channels,
                        size,
                        duration,
                        video_rotation(streams[vi]),
                        video_bit_depth(streams[vi]),
                    ),
                )
            }
        },
    }
}

pub open spec fn details_view(d: MediaDetails) -> (int, int, Seq<char>, Seq<char>, int, int, int, int, int) {
    (
        d.width as int,
        d.height as int,
        d.video_codec@,
        d.audio_codec@,
        d.audio_channels as int,
        d.size_bytes as int,
        d.duration_secs as int,
        d.rotation as int,
        d.bit_depth as int,
    )
}

pub open spec fn opt_ref(o: Option<&JsonValue>) -> Option<JsonValue> {
    match o {
        Some(v) => Some(*v),
        None => None,
    }
}

fn lookup_exec<'a>(m: &'a Vec<(String, JsonValue)>, key: &str) -> (r: Option<&'a JsonValue>)
    ensures
        opt_ref(r) == lookup(m@, key@, 0),
{
    let mut i: usize = 0;
    while i < m.len()
        invariant
            i <= m.len(),
            lookup(m@, key@, 0) == lookup(m@, key@, i as int),
        decreases m.len() - i,
    {
        if str_eq(m[i].0.as_str(), key) {
            return Some(&m[i].1);
        }
        i = i + 1;
    }
    None
}

fn member_exec<'a>(v: Option<&'a JsonValue>, key: &str) -> (r: Option<&'a JsonValue>)
    ensures
        opt_ref(r) == member(opt_ref(v), key@),
{
    match v {
        Some(JsonValue::Object(m)) => lookup_exec(m, key),
        _ => None,
    }
}

fn as_text_exec<'a>(v: Option<&'a JsonValue>) -> (r: Option<&'a str>)
    ensures
        match r {
            Some(t) => as_text(opt_ref(v)) == Some(t@),
            None => as_text(opt_ref(v)) is None,
        },
{
    match v {
        Some(JsonValue::Str(s)) => Some(s.as_str()),
        _ => None,
    }
}

fn as_int_exec(v: Option<&JsonValue>) -> (r: Option<i64>)
    ensures
        r == as_int(opt_ref(v)),
{
    match v {
        Some(JsonValue::Number(n)) => *n,
        _ => None,
    }
}

fn as_list_exec<'a>(v: Option<&'a JsonValue>) -> (r: Option<&'a Vec<JsonValue>>)
    ensures
        match r {
            Some(l) => as_list(opt_ref(v)) == Some(l@),
            None => as_list(opt_ref(v)) is None,
        },
{
    match v {
        Some(JsonValue::Array(a)) => Some(a),
        _ => None,
    }
}

fn text_or_exec(o: Option<&str>, d: &str) -> (r: String)
    ensures
        r@ == match o {
            Some(t) => t@,
            None => d@,
        },
{
    match o {
        Some(t) => String::from_str(t),
        None => String::from_str(d),
    }
}

fn to_i32(x: i64) -> (r: i32)
    ensures
        r == x as i32,
{
    #[verifier::truncate]
    (x as i32)
}

fn int_field_exec(v: Option<&JsonValue>, text_first: bool) -> (r: Option<i32>)
    ensures
        opt_i32(r) == int_field(opt_ref(v), text_first),
{
    let t = match as_text_exec(v) {
        Some(s) => Some(parse_i32(&to_chars(s))),
        None => None,
    };
    let n = match as_int_exec(v) {
        Some(x) => Some(to_i32(x)),
        None => None,
    };
    if text_first {
        match t {
            Some(p) => p,
            None => n,
        }
    } else {
        match n {
            Some(x) => Some(x),
            None => match t {
                Some(p) => p,
                None => None,
            },
        }
    }
}

fn stream_info_exec(st: &JsonValue) -> (r: MediaStreamInfo)
    ensures
        info_view(r) == stream_info(*st),
{
    let s = Some(st);
    let index = match as_int_exec(member_exec(s, "index")) {
        Some(x) => to_i32(x),
        None => 0,
    };
    let stream_type = text_or_exec(as_text_exec(member_exec(s, "codec_type")), "unknown");
    let codec = text_or_exec(as_text_exec(member_exec(s, "codec_name")), "unknown");
    let tags = member_exec(s, "tags");
    let language = match as_text_exec(member_exec(tags, "language")) {
        Some(t) => Some(String::from_str(t)),
        None => None,
    };
    let title = match as_text_exec(member_exec(tags, "title")) {
        Some(t) => Some(String::from_str(t)),
        None => None,
    };
    let channels = match as_int_exec(member_exec(s, "channels")) {
        Some(x) => Some(to_i32(x)),
        None => None,
    };
    MediaStreamInfo { index, stream_type, codec, language, title, channels }
}

fn first_of_type_exec(streams: &Vec<JsonValue>, kind: &str) -> (r: usize)
    ensures
        r as int == first_of_type(streams@, kind@, 0),
        r <= streams.len(),
{
    let mut i: usize = 0;
    while i < streams.len()
        invariant
            i <= streams.len(),
            first_of_type(streams@, kind@, 0) == first_of_type(streams@, kind@, i as int),
        decreases streams.len() - i,
    {
        let t = text_or_exec(as_text_exec(member_exec(Some(&streams[i]), "codec_type")), "unknown");
        if str_eq(t.as_str(), kind) {
            return i;
        }
        i = i + 1;
    }
    i
}

fn video_rotation_exec(video: &JsonValue) -> (r: i32)
    ensures
        r as int == video_rotation(*video),
{
    let v = Some(video);
    let r0 = match int_field_exec(member_exec(member_exec(v, "tags"), "rotate"), true) {
        Some(x) => x,
        None => 0,
    };
    if r0 != 0 {
        return r0;
    }
    match as_list_exec(member_exec(v, "side_data_list")) {
        Some(l) => {
            let mut rot: i32 = 0;
            let mut i: usize = 0;
            while i < l.len()
                invariant
                    i <= l.len(),
                    rot as int == side_rotation(l@, i as int, 0),
                decreases l.len() - i,
            {
                let d = Some(&l[i]);
                let is_matrix = match as_text_exec(member_exec(d, "side_data_type")) {
                    Some(t) => str_eq(t, "Display Matrix"),
                    None => false,
                };
                if is_matrix {
                    match int_field_exec(member_exec(d, "rotation"), false) {
                        Some(x) => {
                            rot = x;
                        },
                        None => {},
                    }
                }
                i = i + 1;
            }
            rot
        },
        None => 0,
    }
}

fn video_bit_depth_exec(video: &JsonValue) -> (r: i32)
    ensures
        r as int == video_bit_depth(*video),
{
    let v = Some(video);
    let b0 = match int_field_exec(member_exec(v, "bits_per_raw_sample"), true) {
        Some(x) => x,
        None => 0,
    };
    if b0 != 0 {
        return b0;
    }
    match int_field_exec(member_exec(v, "bits_per_sample"), false) {
        Some(x) => x,
        None => 0,
    }
}

pub open spec fn opt_i64(o: Option<i64>) -> Option<int> {
    match o {
        Some(v) => Some(v as int),
        None => None,
    }
}

/// Reads an `i64` as `str::parse` does.
pub fn parse_i64(s: &Vec<char>) -> (r: Option<i64>)
    ensures
        opt_i64(r) == parsed_i64(s@),
{
    let n = s.len();
    if n == 0 {
        return None;
    }
    let neg = s[0] == '-';
    let a: usize = if s[0] == '-' || s[0] == '+' {
        1
    } else {
        0
    };
    if a >= n {
        return None;
    }
    let mut i = a;
    while i < n
        invariant
            a <= i <= n == s@.len(),
            a as int == (if s@.len() > 0 && (s@[0] == '-' || s@[0] == '+') {
                1int
            } else {
                0int
            }),
            forall|j: int| a <= j < i ==> is_digit(#[trigger] s@[j]),
        decreases n - i,
    {
        if !is_digit_exec(s[i]) {
            assert(!is_digit(s@[i as int]));
            assert(!all_digits_from(s@, a as int));
            return None;
        }
        i = i + 1;
    }
    assert(all_digits_from(s@, a as int));
    let mut v: i128 = 0;
    i = a;
    while i < n
        invariant
            a <= i <= n == s@.len(),
            a < n,
            a as int == (if s@.len() > 0 && (s@[0] == '-' || s@[0] == '+') {
                1int
            } else {
                0int
            }),
            neg == (s@[0] == '-'),
            all_digits_from(s@, a as int),
            v as int == num_value(s@.subrange(a as int, i as int)),
            0 <= v <= 0x8000_0000_0000_0000,
        decreases n - i,
    {
        assert(s@.subrange(a as int, i + 1).drop_last() =~= s@.subrange(a as int, i as int));
        assert(is_digit(s@[i as int]));
        let d = (s[i] as u32 - 48) as i128;
        let w = v * 10 + d;
        assert(w as int == num_value(s@.subrange(a as int, i + 1)));
        if w > 0x8000_0000_0000_0000 {
            proof {
                let full = s@.subrange(a as int, n as int);
                assert(full.subrange(0, i + 1 - a) =~= s@.subrange(a as int, i + 1));
                assert forall|j: int| 0 <= j < full.len() implies is_digit(#[trigger] full[j]) by {
                    assert(full[j] == s@[a + j]);
                }
                lemma_num_value_prefix(full, i + 1 - a);
            }
            return None;
        }
        v = w;
        i = i + 1;
    }
    assert(s@.subrange(a as int, n as int) == s@.subrange(a as int, i as int));
    if neg {
        Some((0 - v) as i64)
    } else if v <= 0x7fff_ffff_ffff_ffff {
        Some(v as i64)
    } else {
        None
    }
}

proof fn lemma_pow10_grows(k: nat)
    ensures
        pow10(k) >= k + 1,
        pow10(k) >= 1,
    decreases k,
{
    if k > 0 {
        lemma_pow10_grows((k - 1) as nat);
    }
}

proof fn lemma_pow10_mono(j: nat, k: nat)
    requires
        j <= k,
    ensures
        pow10(j) <= pow10(k),
    decreases k,
{
    if j < k {
        lemma_pow10_mono(j, (k - 1) as nat);
        lemma_pow10_grows((k - 1) as nat);
    }
}

/// The value of the digits `d[lo..hi]`, or `cap` when it is `cap` or more.
fn capped_value(d: &Vec<char>, lo: usize, hi: usize, cap: u128) -> (r: u128)
    requires
        lo <= hi <= d@.len(),
        forall|j: int| lo <= j < hi ==> is_digit(#[trigger] d@[j]),
        1 <= cap <= 0x1_0000_0000_0000_0000_0000,
    ensures
        r <= cap,
        r < cap ==> r as int == num_value(d@.subrange(lo as int, hi as int)),
        r == cap ==> num_value(d@.subrange(lo as int, hi as int)) >= cap,
{
    let mut w: u128 = 0;
    let mut i = lo;
    while i < hi
        invariant
            lo <= i <= hi <= d@.len(),
            forall|j: int| lo <= j < hi ==> is_digit(#[trigger] d@[j]),
            1 <= cap <= 0x1_0000_0000_0000_0000_0000,
            w <= cap,
            w < cap ==> w as int == num_value(d@.subrange(lo as int, i as int)),
            w == cap ==> num_value(d@.subrange(lo as int, i as int)) >= cap,
        decreases hi - i,
    {
        let ghost p = d@.subrange(lo as int, i as int);
        assert(d@.subrange(lo as int, i + 1).drop_last() =~= p);
        assert(is_digit(d@[i as int]));
        assert(forall|j: int| 0 <= j < p.len() ==> is_digit(#[trigger] p[j]));
        proof { lemma_num_value_bound(p); }
        let dg = (d[i] as u32 - 48) as u128;
        if w < cap {
            let x = w * 10 + dg;
            w = if x >= cap { cap } else { x };
        }
        i = i + 1;
    }
    w
}

/// The exponent after the digits ending at `m`: its sign and its
/// magnitude capped at `big`; none when the text does not end in one.
fn exponent_parts(s: &Vec<char>, m: usize) -> (r: Option<(bool, u128)>)
    requires
        m == mantissa_end(s@),
        m <= s@.len(),
    ensures
        match r {
            None => exponent_of(s@) is None,
            Some((neg, mag)) => {
                &&& exponent_of(s@) is Some
                &&& mag <= 0x40_0000_0000_0000_0000
                &&& mag < 0x40_0000_0000_0000_0000 ==> exponent_of(s@).unwrap() == if neg { -(mag as int) } else { mag as int }
                &&& mag == 0x40_0000_0000_0000_0000 ==> if neg {
                    exponent_of(s@).unwrap() <= -0x40_0000_0000_0000_0000
                } else {
                    exponent_of(s@).unwrap() >= 0x40_0000_0000_0000_0000
                }
            },
        },
{
    let n = s.len();
    if m == n {
        return Some((false, 0));
    }
    if !(s[m] == 'e' || s[m] == 'E') {
        return None;
    }
    let b = m + 1;
    let sb: usize = if b < n && (s[b] == '+' || s[b] == '-') { 1 } else { 0 };
    let ed = crate::text::digit_run_exec(s, b + sb);
    if ed == 0 || b + sb + ed != n {
        return None;
    }
    proof { crate::text::lemma_digit_run(s@, (b + sb) as int); }
    let neg = sb == 1 && s[b] == '-';
    let mag = capped_value(s, b + sb, n, 0x40_0000_0000_0000_0000);
    Some((neg, mag))
}

/// The digits of the number (those after the point last).
fn mantissa_vec(s: &Vec<char>) -> (d: Vec<char>)
    requires
        mantissa_end(s@) <= s@.len(),
    ensures
        d@ == mantissa_digits(s@),
        d@.len() == int_digit_count(s@) + frac_digit_count(s@),
        forall|j: int| 0 <= j < d@.len() ==> is_digit(#[trigger] d@[j]),
{
    let n = s.len();
    let a: usize = if n > 0 && (s[0] == '-' || s[0] == '+') { 1 } else { 0 };
    let ip = crate::text::digit_run_exec(s, a);
    let rest = a + ip;
    proof { crate::text::lemma_digit_run(s@, a as int); }
    let mut d: Vec<char> = Vec::new();
    let mut i = a;
    while i < rest
        invariant
            a <= i <= rest <= n == s@.len(),
            d@ == s@.subrange(a as int, i as int),
        decreases rest - i,
    {
        d.push(s[i]);
        assert(d@ =~= s@.subrange(a as int, i + 1));
        i = i + 1;
    }
    let point = rest < n && s[rest] == '.';
    if point {
        let fp = crate::text::digit_run_exec(s, rest + 1);
        proof { crate::text::lemma_digit_run(s@, rest + 1); }
        let mut i = rest + 1;
        while i < rest + 1 + fp
            invariant
                rest + 1 <= i <= rest + 1 + fp <= n == s@.len(),
                d@ == s@.subrange(a as int, rest as int) + s@.subrange(rest + 1, i as int),
            decreases rest + 1 + fp - i,
        {
            d.push(s[i]);
            assert(d@ =~= s@.subrange(a as int, rest as int) + s@.subrange(rest + 1, i + 1));
            i = i + 1;
        }
    } else {
        assert(d@ =~= s@.subrange(a as int, rest as int) + Seq::<char>::empty());
    }
    proof {
        let dv = mantissa_digits(s@);
        assert forall|j: int| 0 <= j < d@.len() implies is_digit(#[trigger] d@[j]) by {
            if j < ip {
                assert(d@[j] == s@[a + j]);
            } else {
                assert(d@[j] == s@[rest + 1 + (j - ip)]);
            }
        }
    }
    d
}

/// The magnitude of the whole part of the number with digits `d` and the
/// point after `p_true` of them, capped at 2^31; `p` is `p_true` where that
/// is below 2^69 in size, and lies on the same side of 0 and beyond the
/// digits as it otherwise.
fn whole_magnitude(d: &Vec<char>, p: i128, Ghost(p_true): Ghost<int>) -> (v: u128)
    requires
        forall|j: int| 0 <= j < d@.len() ==> is_digit(#[trigger] d@[j]),
        p <= 0 ==> p_true <= 0,
        0 < p <= d@.len() ==> p_true == p,
        p > d@.len() ==> (p_true >= p && (p <= 0x20_0000_0000_0000_0000 ==> p_true == p)),
    ensures
        v <= 0x8000_0000,
        v < 0x8000_0000 ==> v as int == whole_part(d@, p_true),
        v == 0x8000_0000 ==> whole_part(d@, p_true) >= 0x8000_0000,
{
    let cap: u128 = 0x8000_0000;
    if p <= 0 {
        return 0;
    }
    if p <= d.len() as i128 {
        return capped_value(d, 0, p as usize, cap);
    }
    let nd = capped_value(d, 0, d.len(), cap);
    let ghost dv = d@;
    let ghost kt: nat = (p_true - dv.len()) as nat;
    proof {
        assert(d@.subrange(0, d@.len() as int) =~= d@);
        lemma_num_value_bound(d@);
        lemma_pow10_grows(kt);
    }
    if nd == 0 {
        assert(num_value(dv) * pow10(kt) == 0) by (nonlinear_arith)
            requires num_value(dv) == 0;
        return 0;
    }
    if nd == cap {
        assert(num_value(dv) * pow10(kt) >= num_value(dv)) by (nonlinear_arith)
            requires
                num_value(dv) >= 0,
                pow10(kt) >= 1,
        ;
        return cap;
    }
    let k: i128 = p - d.len() as i128;
    let mut acc: u128 = nd;
    let mut j: i128 = 0;
    while j < k && acc < cap
        invariant
            cap == 0x8000_0000,
            0 <= j <= k,
            1 <= nd < cap,
            nd as int == num_value(dv),
            1 <= acc <= cap * 10,
            acc as int == nd * pow10(j as nat),
            acc >= pow10(j as nat),
        decreases cap * 10 - acc,
    {
        proof {
            assert(pow10((j + 1) as nat) == 10 * pow10(j as nat));
            assert(nd * (10 * pow10(j as nat)) == (nd * pow10(j as nat)) * 10) by (nonlinear_arith);
        }
        acc = acc * 10;
        j = j + 1;
    }
    proof {
        if acc < cap {
            assert(j == k);
            if p > 0x20_0000_0000_0000_0000 {
                lemma_pow10_grows(j as nat);
                assert(false);
            }
            assert(kt == k);
        } else {
            lemma_pow10_mono(j as nat, kt);
            assert(nd * pow10(j as nat) <= nd * pow10(kt)) by (nonlinear_arith)
                requires
                    nd >= 1,
                    pow10(j as nat) <= pow10(kt),
            ;
        }
    }
    if acc >= cap { cap } else { acc }
}

/// Whole seconds of a duration text, as `whole_seconds` says.
pub fn parse_whole_seconds(s: &Vec<char>) -> (r: Option<i32>)
    ensures
        opt_i32(r) == whole_seconds(s@),
{
    let n = s.len();
    let a: usize = if n > 0 && (s[0] == '-' || s[0] == '+') { 1 } else { 0 };
    let neg = a == 1 && s[0] == '-';
    proof {
        reveal_strlit("inf");
        reveal_strlit("infinity");
        reveal_strlit("nan");
    }
    if (n == a + 3 && crate::text::ci_at_exec(s, a, "inf")) || (n == a + 8 && crate::text::ci_at_exec(s, a, "infinity")) {
        return Some(if neg { i32::MIN } else { i32::MAX });
    }
    if n == a + 3 && crate::text::ci_at_exec(s, a, "nan") {
        return Some(0);
    }
    let ip = crate::text::digit_run_exec(s, a);
    let rest = a + ip;
    let point = rest < n && s[rest] == '.';
    let fp: usize = if point { crate::text::digit_run_exec(s, rest + 1) } else { 0 };
    proof {
        crate::text::lemma_digit_run(s@, a as int);
        if point {
            crate::text::lemma_digit_run(s@, rest + 1);
        }
    }
    let m = if point { rest + 1 + fp } else { rest };
    if ip + fp == 0 {
        return None;
    }
    let (e_neg, e_mag) = match exponent_parts(s, m) {
        None => return None,
        Some(x) => x,
    };
    let ghost e_true: int = exponent_of(s@).unwrap();
    let d = mantissa_vec(s);
    let p: i128 = if e_neg { ip as i128 - e_mag as i128 } else { ip as i128 + e_mag as i128 };
    let ghost p_true = ip + e_true;
    let v = whole_magnitude(&d, p, Ghost(p_true));
    if neg {
        if v >= 0x8000_0000 { Some(i32::MIN) } else { Some((0 - v as i64) as i32) }
    } else {
        if v > 0x7fff_ffff { Some(i32::MAX) } else { Some(v as i32) }
    }
}

/// The description of a file that the probe's JSON output gives: the
/// picture size, codec, rotation and bit depth of the first video stream,
/// codec and channels of the first audio stream (`none` without one),
/// size and duration from the format section, and every stream.  No
/// `streams` array, or no video stream, is an error.
pub fn parse_media_info_from_json(json: &JsonValue) -> (r: Result<MediaDetails, MediaInfoError>)
    ensures
        match r {
            Ok(d) => {
                &&& details_of(*json) == Ok::<_, MediaInfoError>(details_view(d))
                &&& as_list(member(Some(*json), "streams"@)) is Some
                &&& d.streams@.len() == as_list(member(Some(*json), "streams"@)).unwrap().len()
                &&& forall|i: int|
                    0 <= i < d.streams@.len() ==> info_view(#[trigger] d.streams@[i]) == stream_info(
                        as_list(member(Some(*json), "streams"@)).unwrap()[i],
                    )
            },
            Err(e) => details_of(*json) == Err::<(int, int, Seq<char>, Seq<char>, int, int, int, int, int), MediaInfoError>(e),
        },
{
    let j = Some(json);
    let streams = match as_list_exec(member_exec(j, "streams")) {
        Some(l) => l,
        None => return Err(MediaInfoError::NoStreams),
    };
    let mut infos: Vec<MediaStreamInfo> = Vec::new();
    let mut i: usize = 0;
    while i < streams.len()
        invariant
            i <= streams.len(),
            infos@.len() == i,
            forall|k: int| 0 <= k < i ==> info_view(#[trigger] infos@[k]) == stream_info(streams@[k]),
        decreases streams.len() - i,
    {
        infos.push(stream_info_exec(&streams[i]));
        i = i + 1;
    }
    let vi = first_of_type_exec(streams, "video");
    let ai = first_of_type_exec(streams, "audio");
    if vi >= streams.len() {
        return Err(MediaInfoError::NoVideoStream);
    }
    let video = &streams[vi];
    let v = Some(video);
    let width = match as_int_exec(member_exec(v, "width")) {
        Some(x) => to_i32(x),
        None => 0,
    };
    let height = match as_int_exec(member_exec(v, "height")) {
        Some(x) => to_i32(x),
        None => 0,
    };
    let video_codec = text_or_exec(as_text_exec(member_exec(v, "codec_name")), "unknown");
    let rotation = video_rotation_exec(video);
    let bit_depth = video_bit_depth_exec(video);
    let (audio_codec, audio_channels) = if ai < streams.len() {
        let a = Some(&streams[ai]);
        let c = text_or_exec(as_text_exec(member_exec(a, "codec_name")), "unknown");
        let ch = match as_int_exec(member_exec(a, "channels")) {
            Some(x) => to_i32(x),
            None => 0,
        };
        (c, ch)
    } else {
        (String::from_str("none"), 0)
    };
    let format = member_exec(j, "format");
    let size_bytes: i64 = match as_text_exec(member_exec(format, "size")) {
        Some(t) => match parse_i64(&to_chars(t)) {
            Some(x) => x,
            None => 0,
        },
        None => 0,
    };
    let duration_secs: i32 = match as_text_exec(member_exec(format, "duration")) {
        Some(t) => match parse_whole_seconds(&to_chars(t)) {
            Some(x) => x,
            None => 0,
        },
        None => 0,
    };
    Ok(
        MediaDetails {
            width,
            height,
            video_codec,
            audio_codec,
            audio_channels,
            size_bytes,
            duration_secs,
            rotation,
            bit_depth,
            streams: infos,
        },
    )
}

#[verifier::external_type_specification]
#[verifier::external_body]
pub struct ExSerdeJsonValue(serde_json::Value);

/// The JSON document that `bytes` hold, read by `serde_json`, in the
/// library's form; none where the bytes are not one JSON document.
pub uninterp spec fn json_document(bytes: Seq<u8>) -> Option<JsonValue>;

/// Turns a `serde_json::Value` into the library's form, one for one:
/// numbers keep their value where it is an `i64`, objects keep the order of
/// their members.
#[verifier::external_body]
fn json_value_of(v: &serde_json::Value) -> JsonValue {
    match v {
        serde_json::Value::Null => JsonValue::Null,
        serde_json::Value::Bool(b) => JsonValue::Bool(*b),
        serde_json::Value::Number(n) => JsonValue::Number(n.as_i64()),
        serde_json::Value::String(t) => JsonValue::Str(t.clone()),
        serde_json::Value::Array(a) => JsonValue::Array(a.iter().map(json_value_of).collect()),
        serde_json::Value::Object(m) => JsonValue::Object(m.iter().map(|(k, x)| (k.clone(), json_value_of(x))).collect()),
    }
}

/// Calls `serde_json::from_slice::<serde_json::Value>` on `bytes` and turns
/// what it reads into the library's form.  The contract names the result
/// (JSON's grammar is not restated): it depends on the bytes alone.
#[verifier::external_body]
pub(crate) fn parse_json_document(bytes: &[u8]) -> (r: Option<JsonValue>)
    ensures
        r == json_document(bytes@),
{
    match serde_json::from_slice::<serde_json::Value>(bytes) {
        Ok(v) => Some(json_value_of(&v)),
        Err(_) => None,
    }
}

/// Why a probe's output gives no description.
#[derive(Clone, Copy, PartialEq, Eq, Structural, Debug)]
pub enum ProbeOutputError {
    /// The output is not one JSON document.
    NotJson,
    /// The document describes no usable media (see `MediaInfoError`).
    Media(MediaInfoError),
}

/// The description of a media file from what the probe printed: the output
/// read as a JSON document, then described as `parse_media_info_from_json`
/// does.
pub fn media_info_from_probe_output(stdout: &[u8]) -> (r: Result<MediaDetails, ProbeOutputError>)
    ensures
        match json_document(stdout@) {
            None => r == Err::<MediaDetails, ProbeOutputError>(ProbeOutputError::NotJson),
            Some(json) => match r {
                Ok(d) => {
                    &&& details_of(json) == Ok::<_, MediaInfoError>(details_view(d))
                    &&& as_list(member(Some(json), "streams"@)) is Some
                    &&& d.streams@.len() == as_list(member(Some(json), "streams"@)).unwrap().len()
                    &&& forall|i: int|
                        0 <= i < d.streams@.len() ==> info_view(#[trigger] d.streams@[i])
                            == stream_info(as_list(member(Some(json), "streams"@)).unwrap()[i])
                },
                Err(e) => match e {
                    ProbeOutputError::NotJson => false,
                    ProbeOutputError::Media(m) => details_of(json) == Err::<
                        (int, int, Seq<char>, Seq<char>, int, int, int, int, int),
                        MediaInfoError,
                    >(m),
                },
            },
        },
{
    match parse_json_document(stdout) {
        None => Err(ProbeOutputError::NotJson),
        Some(json) => match parse_media_info_from_json(&json) {
            Ok(d) => Ok(d),
            Err(m) => Err(ProbeOutputError::Media(m)),
        },
    }
}

} // verus!
