//! Streaming: HLS playlists, the FFmpeg command lines that feed HLS, DASH
//! and direct streams, and the decisions that keep a transcoder in step
//! with its viewer.
use vstd::prelude::*;
use crate::text::{decimal, decimal_padded, push_str, push_decimal, push_decimal_padded, from_chars, ci_is, ci_is_exec, to_chars, strs, str_eq, contains_str, decimal_string, decimal_string_u64};
use crate::ffmpeg::{FfmpegEngine, StreamStrategy, hw_decoder_for, strategy_for};
use crate::paths::{joined_path, normalized_path, make_absolute, normalize_slashes};
use crate::mediainfo::MediaDetails;
use crate::parser::{extension_of, extension_exec};
use crate::segment_files::{entries, key_index, store, lemma_key_index};

verus! {

/// Lengths, in seconds, of the segments of an HLS stream of `left`
/// seconds: two-second segments, the last one shorter when needed.
pub open spec fn hls_lengths(left: int) -> Seq<int>
    decreases left,
{
    if left <= 0 {
        Seq::<int>::empty()
    } else if left > 2 {
        seq![2int] + hls_lengths(left - 2)
    } else {
        seq![left]
    }
}

/// The playlist entry of segment `idx`, `len` seconds long.
pub open spec fn hls_entry(len: int, idx: int) -> Seq<char> {
    "#EXTINF:"@ + decimal(len) + ".0,\nseg_"@ + decimal_padded(idx, 3) + ".ts\n"@
}

/// Playlist entries for segments of the given lengths, numbered from `idx`.
pub open spec fn hls_entries(lens: Seq<int>, idx: int) -> Seq<char>
    decreases lens.len(),
{
    if lens.len() == 0 {
        Seq::<char>::empty()
    } else {
        hls_entry(lens[0], idx) + hls_entries(lens.drop_first(), idx + 1)
    }
}

/// The HLS playlist of a stream of `duration` seconds.
pub open spec fn hls_manifest(duration: int) -> Seq<char> {
    "#EXTM3U\n#EXT-X-VERSION:3\n#EXT-X-TARGETDURATION:3\n#EXT-X-MEDIA-SEQUENCE:0\n#EXT-X-PLAYLIST-TYPE:VOD\n"@
        + hls_entries(hls_lengths(duration), 0) + "#EXT-X-ENDLIST\n"@
}

pub open spec fn seq_sum(s: Seq<int>) -> int
    decreases s.len(),
{
    if s.len() == 0 {
        0
    } else {
        s[0] + seq_sum(s.drop_first())
    }
}

/// The segments of a playlist cover the stream exactly: their lengths add
/// up to its duration, each is one or two seconds, and there are as many
/// as two-second slices of the duration, rounded up.
pub proof fn lemma_hls_segments_cover_duration(duration: int)
    requires
        duration >= 0,
    ensures
        seq_sum(hls_lengths(duration)) == duration,
        hls_lengths(duration).len() == (duration + 1) / 2,
        forall|k: int|
            0 <= k < hls_lengths(duration).len() ==> 1 <= #[trigger] hls_lengths(duration)[k] <= 2,
    decreases duration,
{
    if duration > 2 {
        lemma_hls_segments_cover_duration(duration - 2);
        let rest = hls_lengths(duration - 2);
        assert(hls_lengths(duration) == seq![2int] + rest);
        assert((seq![2int] + rest).drop_first() =~= rest);
        assert(seq_sum(seq![2int] + rest) == 2 + seq_sum(rest));
        assert forall|k: int|
            0 <= k < hls_lengths(duration).len() implies 1 <= #[trigger] hls_lengths(duration)[k]
            <= 2 by {
            if k > 0 {
                assert(hls_lengths(duration)[k] == rest[k - 1]);
            }
        }
    } else if duration > 0 {
        assert(seq![duration].drop_first() =~= Seq::<int>::empty());
        assert(seq_sum(Seq::<int>::empty()) == 0);
        assert(seq_sum(seq![duration]) == duration);
    }
}

/// The HLS playlist of a stream of `duration_secs` seconds, cut into
/// two-second segments `seg_000.ts`, `seg_001.ts`, ...
pub fn generate_hls_manifest(duration_secs: i32) -> (r: String)
    ensures
        r@ == hls_manifest(duration_secs as int),
{
    let mut out: Vec<char> = Vec::new();
    push_str(
        &mut out,
        "#EXTM3U\n#EXT-X-VERSION:3\n#EXT-X-TARGETDURATION:3\n#EXT-X-MEDIA-SEQUENCE:0\n#EXT-X-PLAYLIST-TYPE:VOD\n",
    );
    let ghost head = out@;
    let mut leftover: i32 = duration_secs;
    let mut idx: i64 = 0;
    while leftover > 0
        invariant
            0 <= idx <= 0x4000_0000,
            leftover <= duration_secs,
            leftover > 0 ==> 2 * idx + leftover <= duration_secs + 1,
            head + hls_entries(hls_lengths(duration_secs as int), 0) == out@ + hls_entries(
                hls_lengths(leftover as int),
                idx as int,
            ),
        decreases leftover,
    {
        let length: i32 = if leftover > 2 {
            2
        } else {
            leftover
        };
        let ghost rest = hls_lengths(leftover - length);
        assert(hls_lengths(leftover as int) =~= seq![length as int] + rest);
        assert((seq![length as int] + rest).drop_first() =~= rest);
        let ghost before = out@;
        push_str(&mut out, "#EXTINF:");
        push_decimal(&mut out, length as i64);
        push_str(&mut out, ".0,\nseg_");
        push_decimal_padded(&mut out, idx, 3);
        push_str(&mut out, ".ts\n");
        assert(out@ =~= before + hls_entry(length as int, idx as int));
        leftover = leftover - length;
        idx = idx + 1;
    }
    assert(hls_lengths(leftover as int) =~= Seq::<int>::empty());
    push_str(&mut out, "#EXT-X-ENDLIST\n");
    assert(out@ =~= hls_manifest(duration_secs as int));
    from_chars(&out)
}

/// The extension of the file at `path`, empty when it has none.
pub open spec fn ext_or_empty(path: Seq<char>) -> Seq<char> {
    match extension_of(path) {
        Some(e) => e,
        None => Seq::<char>::empty(),
    }
}

/// A browser plays the file as it is: an MP4-like container (`mp4`, `m4v`,
/// `mov`) or WebM, a video codec browsers decode (H.264, VP9, AV1, HEVC),
/// an audio codec the container carries (none at all counts), and no
/// rotation.  Extensions and codecs are compared regardless of case.
pub open spec fn direct_playable(path: Seq<char>, d: MediaDetails) -> bool {
    let e = ext_or_empty(path);
    let mp4_like = ci_is(e, "mp4"@) || ci_is(e, "m4v"@) || ci_is(e, "mov"@);
    let webm_like = ci_is(e, "webm"@);
    let v = d.video_codec@;
    let a = d.audio_codec@;
    let video_ok = ci_is(v, "h264"@) || ci_is(v, "vp9"@) || ci_is(v, "av1"@) || ci_is(v, "hevc"@);
    let audio_ok = if webm_like {
        ci_is(a, "opus"@) || ci_is(a, "vorbis"@) || ci_is(a, "none"@)
    } else {
        ci_is(a, "aac"@) || ci_is(a, "mp3"@) || ci_is(a, "opus"@) || ci_is(a, "none"@)
    };
    (mp4_like || webm_like) && video_ok && audio_ok && d.rotation == 0
}

/// Whether the file at `path`, described by `details`, can be sent to a
/// browser without remuxing or transcoding.
pub fn is_direct_playable(path: &str, details: &MediaDetails) -> (r: bool)
    ensures
        r == direct_playable(path@, *details),
{
    let pv = to_chars(path);
    let e = match extension_exec(&pv) {
        Some(x) => from_chars(&x),
        None => String::new(),
    };
    let es = e.as_str();
    let mp4_like = ci_is_exec(es, "mp4") || ci_is_exec(es, "m4v") || ci_is_exec(es, "mov");
    let webm_like = ci_is_exec(es, "webm");
    if !mp4_like && !webm_like {
        return false;
    }
    let v = details.video_codec.as_str();
    let a = details.audio_codec.as_str();
    let video_ok = ci_is_exec(v, "h264") || ci_is_exec(v, "vp9") || ci_is_exec(v, "av1")
        || ci_is_exec(v, "hevc");
    let audio_ok = if webm_like {
        ci_is_exec(a, "opus") || ci_is_exec(a, "vorbis") || ci_is_exec(a, "none")
    } else {
        ci_is_exec(a, "aac") || ci_is_exec(a, "mp3") || ci_is_exec(a, "opus") || ci_is_exec(a, "none")
    };
    video_ok && audio_ok && details.rotation == 0
}

// ---------------------------------------------------------------------------
// FFmpeg command lines.
// ---------------------------------------------------------------------------

/// The encoder and the hardware decoders that a machine offers.
pub struct TranscodeSettings {
    /// Encoder used where video is transcoded for HLS.
    pub hw_encoder: String,
    /// Hardware decoders FFmpeg reported.
    pub hw_decoders: Vec<String>,
}

/// The texts of a list of string literals.
pub open spec fn lit_views(v: Seq<&str>) -> Seq<Seq<char>> {
    v.map_values(|t: &str| t@)
}

pub open spec fn none_args() -> Seq<Seq<char>> {
    Seq::<Seq<char>>::empty()
}

/// `-c:v <decoder>` when a hardware decoder reads `codec`, else nothing.
pub open spec fn decoder_args(codec: Seq<char>, decoders: Seq<Seq<char>>) -> Seq<Seq<char>> {
    match hw_decoder_for(codec, decoders) {
        Some(h) => seq!["-c:v"@, h],
        None => none_args(),
    }
}

/// The video codec of an HLS stream: `copy` where the strategy copies
/// video, else the encoder.
pub open spec fn hls_video_codec(encoder: Seq<char>, d: MediaDetails) -> Seq<char> {
    match strategy_for(d.video_codec@, d.audio_codec@) {
        StreamStrategy::DirectCopy => "copy"@,
        StreamStrategy::SmartRemux { video_copy, audio_copy } => if video_copy {
            "copy"@
        } else {
            encoder
        },
        StreamStrategy::FullTranscode => encoder,
    }
}

/// The audio codec of an HLS stream: `copy` where the strategy copies
/// audio, else AAC.
pub open spec fn hls_audio_codec(d: MediaDetails) -> Seq<char> {
    match strategy_for(d.video_codec@, d.audio_codec@) {
        StreamStrategy::DirectCopy => "copy"@,
        StreamStrategy::SmartRemux { video_copy, audio_copy } => if audio_copy {
            "copy"@
        } else {
            "aac"@
        },
        StreamStrategy::FullTranscode => "aac"@,
    }
}

pub open spec fn hls_head() -> Seq<Seq<char>> {
    seq!["-loglevel"@, "info"@, "-probesize"@, "50000000"@, "-analyzeduration"@, "50000000"@]
}

/// The hardware decoder, placed before the input, when video is transcoded.
pub open spec fn hls_decoder_part(vc: Seq<char>, d: MediaDetails, decoders: Seq<Seq<char>>) -> Seq<
    Seq<char>,
> {
    if vc != "copy"@ {
        decoder_args(d.video_codec@, decoders)
    } else {
        none_args()
    }
}

pub open spec fn hls_input_part(start: int, input: Seq<char>, vc: Seq<char>) -> Seq<Seq<char>> {
    seq![
        "-ss"@,
        decimal(start * 2),
        "-i"@,
        input,
        "-map"@,
        "0:v:0"@,
        "-map"@,
        "0:a:0?"@,
        "-sn"@,
        "-dn"@,
        "-c:v"@,
        vc,
    ]
}

/// Encoder options of transcoded HLS video: bit rates for the V4L2
/// encoder, quality settings for the others, and downscaling to 1280
/// pixels where the V4L2 decoder is present and the picture is wider.
pub open spec fn hls_video_part(vc: Seq<char>, decoders: Seq<Seq<char>>, width: int) -> Seq<
    Seq<char>,
> {
    if vc != "copy"@ {
        (if vc == "h264_v4l2m2m"@ {
            seq!["-b:v"@, "4M"@, "-maxrate"@, "5M"@, "-bufsize"@, "8M"@]
        } else {
            seq![
                "-pix_fmt"@,
                "yuv420p"@,
                "-preset"@,
                "ultrafast"@,
                "-crf"@,
                "26"@,
                "-flags"@,
                "+cgop"@,
            ]
        }) + (if decoders.contains("h264_v4l2m2m"@) && width > 1280 {
            seq!["-vf"@, "scale_v4l2m2m=1280:-1"@]
        } else {
            none_args()
        })
    } else {
        none_args()
    }
}

pub open spec fn hls_audio_part(ac: Seq<char>) -> Seq<Seq<char>> {
    seq!["-c:a"@, ac] + if ac != "copy"@ {
        seq!["-b:a"@, "128k"@, "-ac"@, "2"@]
    } else {
        none_args()
    }
}

pub open spec fn hls_mux_part(vc: Seq<char>) -> Seq<Seq<char>> {
    seq![
        "-copyts"@,
        "-f"@,
        "hls"@,
        "-max_muxing_queue_size"@,
        "1024"@,
        "-hls_time"@,
        "2"@,
        "-hls_list_size"@,
        "0"@,
        "-hls_flags"@,
        "split_by_time"@,
        "-hls_playlist_type"@,
        "vod"@,
        "-avoid_negative_ts"@,
        "disabled"@,
    ] + if vc != "copy"@ {
        seq!["-force_key_frames"@, "expr:gte(t,n_forced*2)"@]
    } else {
        none_args()
    }
}

pub open spec fn hls_output_part(start: int, playlist: Seq<char>, out_dir: Seq<char>) -> Seq<
    Seq<char>,
> {
    seq![
        "-start_number"@,
        decimal(start),
        "-hls_segment_type"@,
        "mpegts"@,
        "-hls_segment_filename"@,
        normalized_path(joined_path(".seg_%03d.ts"@, out_dir)),
        normalized_path(playlist),
    ]
}

/// The FFmpeg arguments of an HLS stream of two-second segments that
/// starts at segment `start`.
pub open spec fn hls_args(
    encoder: Seq<char>,
    decoders: Seq<Seq<char>>,
    input: Seq<char>,
    d: MediaDetails,
    start: int,
    playlist: Seq<char>,
    out_dir: Seq<char>,
) -> Seq<Seq<char>> {
    let vc = hls_video_codec(encoder, d);
    hls_head() + hls_decoder_part(vc, d, decoders) + hls_input_part(start, input, vc)
        + hls_video_part(vc, decoders, d.width as int) + hls_audio_part(hls_audio_codec(d))
        + hls_mux_part(vc) + hls_output_part(start, playlist, out_dir)
}

pub open spec fn dash_head() -> Seq<Seq<char>> {
    seq!["-loglevel"@, "info"@, "-probesize"@, "5000000"@, "-analyzeduration"@, "5000000"@]
}

pub open spec fn dash_input_part(start: int, input: Seq<char>) -> Seq<Seq<char>> {
    seq!["-ss"@, decimal(start * 10), "-i"@, input]
}

/// The header file of a DASH representation: hidden while FFmpeg resumes
/// a stream that already has one.
pub open spec fn dash_header(start: int, rep: Seq<char>) -> Seq<char> {
    if start == 0 {
        "init-stream"@ + rep + ".webm"@
    } else {
        ".init-stream"@ + rep + ".webm"@
    }
}

pub open spec fn dash_video_part(start: int, d: MediaDetails, out_dir: Seq<char>) -> Seq<Seq<char>> {
    seq![
        "-map"@,
        "0:v:0"@,
        "-c:v"@,
        "libvpx-vp9"@,
        "-s"@,
        decimal(d.width as int) + "x"@ + decimal(d.height as int),
        "-keyint_min"@,
        "150"@,
        "-g"@,
        "150"@,
        "-tile-columns"@,
        "4"@,
        "-frame-parallel"@,
        "1"@,
        "-crf"@,
        "30"@,
        "-b:v"@,
        "2000k"@,
        "-copyts"@,
        "-avoid_negative_ts"@,
        "disabled"@,
        "-f"@,
        "webm_chunk"@,
        "-header"@,
        joined_path(dash_header(start, "0"@), out_dir),
        "-chunk_start_index"@,
        decimal(start + 1),
        joined_path(".chunk-stream0-%05d.webm"@, out_dir),
    ]
}

pub open spec fn dash_audio_part(start: int, out_dir: Seq<char>) -> Seq<Seq<char>> {
    seq![
        "-map"@,
        "0:a:0?"@,
        "-c:a"@,
        "libopus"@,
        "-b:a"@,
        "128k"@,
        "-ac"@,
        "2"@,
        "-copyts"@,
        "-avoid_negative_ts"@,
        "disabled"@,
        "-f"@,
        "webm_chunk"@,
        "-audio_chunk_duration"@,
        "10000"@,
        "-header"@,
        joined_path(dash_header(start, "1"@), out_dir),
        "-chunk_start_index"@,
        decimal(start + 1),
        joined_path(".chunk-stream1-%05d.webm"@, out_dir),
    ]
}

/// The FFmpeg arguments of a DASH stream (VP9 and Opus in ten-second WebM
/// chunks) that starts at chunk `start`.
pub open spec fn dash_args(
    decoders: Seq<Seq<char>>,
    input: Seq<char>,
    d: MediaDetails,
    start: int,
    out_dir: Seq<char>,
) -> Seq<Seq<char>> {
    dash_head() + decoder_args(d.video_codec@, decoders) + dash_input_part(start, input)
        + dash_video_part(start, d, out_dir) + dash_audio_part(start, out_dir)
}

/// Milliseconds written as seconds with three decimals (`10500` is
/// `10.500`).
pub open spec fn ms_text(ms: int) -> Seq<char> {
    decimal(ms / 1000) + "."@ + decimal_padded(ms % 1000, 3)
}

/// Whether a direct stream in container `format` copies the video: WebM
/// takes VP9, VP8 and AV1 as they are; other containers copy what the
/// stream strategy copies.
pub open spec fn direct_video_copy(d: MediaDetails, format: Seq<char>) -> bool {
    let v = d.video_codec@;
    if format == "webm"@ {
        ci_is(v, "vp9"@) || ci_is(v, "vp8"@) || ci_is(v, "av1"@)
    } else {
        match strategy_for(v, d.audio_codec@) {
            StreamStrategy::DirectCopy => true,
            StreamStrategy::SmartRemux { video_copy, audio_copy } => video_copy,
            StreamStrategy::FullTranscode => false,
        }
    }
}

/// Seeking before the input, for a start after zero.
pub open spec fn direct_seek_part(start_ms: int) -> Seq<Seq<char>> {
    if start_ms > 0 {
        seq!["-ss"@, ms_text(start_ms), "-copyts"@, "-avoid_negative_ts"@, "disabled"@]
    } else {
        none_args()
    }
}

pub open spec fn direct_video_part(copy: bool, format: Seq<char>) -> Seq<Seq<char>> {
    seq!["-c:v"@] + if copy {
        seq!["copy"@]
    } else if format == "webm"@ {
        seq![
            "libvpx-vp9"@,
            "-crf"@,
            "30"@,
            "-b:v"@,
            "2000k"@,
            "-deadline"@,
            "realtime"@,
            "-cpu-used"@,
            "5"@,
            "-row-mt"@,
            "1"@,
        ]
    } else {
        seq!["libx264"@, "-preset"@, "ultrafast"@, "-tune"@, "zerolatency"@]
    }
}

/// Audio of a direct stream: copied when the container carries the codec
/// (Matroska: Opus, AAC, MP3, Vorbis; WebM: Opus, Vorbis; MP4: AAC, MP3,
/// Opus), else transcoded to Opus (Matroska, WebM) or AAC (MP4).
pub open spec fn direct_audio_part(a: Seq<char>, format: Seq<char>) -> Seq<Seq<char>> {
    seq!["-c:a"@] + if format == "mkv"@ {
        if ci_is(a, "opus"@) || ci_is(a, "aac"@) || ci_is(a, "mp3"@) || ci_is(a, "vorbis"@) {
            seq!["copy"@]
        } else {
            seq!["libopus"@, "-b:a"@, "128k"@, "-vbr"@, "on"@, "-ac"@, "2"@]
        }
    } else if format == "webm"@ {
        if ci_is(a, "opus"@) || ci_is(a, "vorbis"@) {
            seq!["copy"@]
        } else {
            seq!["libopus"@, "-b:a"@, "128k"@, "-ac"@, "2"@]
        }
    } else {
        if ci_is(a, "aac"@) || ci_is(a, "mp3"@) || ci_is(a, "opus"@) {
            seq!["copy"@]
        } else {
            seq!["aac"@, "-b:a"@, "128k"@, "-ac"@, "2"@]
        }
    }
}

pub open spec fn direct_container_part(format: Seq<char>) -> Seq<Seq<char>> {
    (if format == "mp4"@ {
        seq!["-movflags"@, "frag_keyframe+empty_moov+default_base_moof"@]
    } else if format == "mkv"@ {
        seq!["-live"@, "1"@]
    } else {
        none_args()
    }) + seq![
        "-f"@,
        if format == "mkv"@ {
            "matroska"@
        } else if format == "webm"@ {
            "webm"@
        } else {
            "mp4"@
        },
        "-flush_packets"@,
        "1"@,
        "pipe:1"@,
    ]
}

/// The FFmpeg arguments of a stream of `input` piped out in container
/// `format` (`mkv`, `webm`, else MP4), starting `start_ms` milliseconds in.
pub open spec fn direct_args(
    decoders: Seq<Seq<char>>,
    input: Seq<char>,
    d: MediaDetails,
    start_ms: int,
    format: Seq<char>,
) -> Seq<Seq<char>> {
    let copy = direct_video_copy(d, format);
    seq!["-loglevel"@, "error"@] + direct_seek_part(start_ms) + (if !copy {
        decoder_args(d.video_codec@, decoders)
    } else {
        none_args()
    }) + seq!["-i"@, input] + direct_video_part(copy, format) + direct_audio_part(
        d.audio_codec@,
        format,
    ) + direct_container_part(format)
}

/// Appends each of `lits` to `v`.
pub fn push_lits(v: &mut Vec<String>, lits: Vec<&str>)
    ensures
        strs(final(v)@) == strs(old(v)@) + lit_views(lits@),
{
    let mut i: usize = 0;
    while i < lits.len()
        invariant
            i <= lits.len(),
            strs(v@) == strs(old(v)@) + lit_views(lits@).subrange(0, i as int),
        decreases lits.len() - i,
    {
        let t = lits[i];
        let ghost prev = strs(v@);
        push_arg(v, String::from_str(t));
        assert(lit_views(lits@)[i as int] == t@);
        assert(lit_views(lits@).subrange(0, i + 1) =~= lit_views(lits@).subrange(0, i as int).push(t@));
        assert(strs(v@) =~= strs(old(v)@) + lit_views(lits@).subrange(0, i + 1));
        i = i + 1;
    }
    assert(lit_views(lits@).subrange(0, lits.len() as int) =~= lit_views(lits@));
}

/// Appends `s` to `v`.
pub fn push_arg(v: &mut Vec<String>, s: String)
    ensures
        strs(final(v)@) == strs(old(v)@).push(s@),
{
    v.push(s);
    assert(strs(v@) =~= strs(old(v)@).push(s@));
}

fn push_hls_head(args: &mut Vec<String>)
    ensures
        strs(final(args)@) == strs(old(args)@) + hls_head(),
{
    let l = vec!["-loglevel", "info", "-probesize", "50000000", "-analyzeduration", "50000000"];
    assert(lit_views(l@) =~= hls_head());
    push_lits(args, l);
}

fn push_hls_input(args: &mut Vec<String>, start: u64, input: &str, vc: &str)
    requires
        start <= u64::MAX / 2,
    ensures
        strs(final(args)@) == strs(old(args)@) + hls_input_part(start as int, input@, vc@),
{
    let l1 = vec!["-ss"];
    let l2 = vec!["-i"];
    let l3 = vec!["-map", "0:v:0", "-map", "0:a:0?", "-sn", "-dn", "-c:v"];
    push_lits(args, l1);
    push_arg(args, decimal_string_u64(start * 2));
    push_lits(args, l2);
    push_arg(args, String::from_str(input));
    push_lits(args, l3);
    push_arg(args, String::from_str(vc));
    assert(strs(args@) =~= strs(old(args)@) + hls_input_part(start as int, input@, vc@));
}

fn push_hls_audio(args: &mut Vec<String>, ac: &str)
    ensures
        strs(final(args)@) == strs(old(args)@) + hls_audio_part(ac@),
{
    let l1 = vec!["-c:a"];
    push_lits(args, l1);
    push_arg(args, String::from_str(ac));
    let ghost mid = strs(args@);
    if !str_eq(ac, "copy") {
        let l2 = vec!["-b:a", "128k", "-ac", "2"];
        push_lits(args, l2);
    }
    assert(strs(args@) =~= strs(old(args)@) + hls_audio_part(ac@));
}

fn push_hls_mux(args: &mut Vec<String>, vc: &str)
    ensures
        strs(final(args)@) == strs(old(args)@) + hls_mux_part(vc@),
{
    let l1 = vec![
        "-copyts",
        "-f",
        "hls",
        "-max_muxing_queue_size",
        "1024",
        "-hls_time",
        "2",
        "-hls_list_size",
        "0",
        "-hls_flags",
        "split_by_time",
        "-hls_playlist_type",
        "vod",
        "-avoid_negative_ts",
        "disabled",
    ];
    push_lits(args, l1);
    if !str_eq(vc, "copy") {
        let l2 = vec!["-force_key_frames", "expr:gte(t,n_forced*2)"];
        push_lits(args, l2);
    }
    assert(strs(args@) =~= strs(old(args)@) + hls_mux_part(vc@));
}

fn push_hls_output(args: &mut Vec<String>, start: u64, playlist: &str, out_dir: &str)
    ensures
        strs(final(args)@) == strs(old(args)@) + hls_output_part(start as int, playlist@, out_dir@),
{
    let seg_pattern = normalize_slashes(make_absolute(".seg_%03d.ts", out_dir).as_str());
    let pl = normalize_slashes(playlist);
    let l1 = vec!["-start_number"];
    let l2 = vec!["-hls_segment_type", "mpegts", "-hls_segment_filename"];
    push_lits(args, l1);
    push_arg(args, decimal_string_u64(start));
    push_lits(args, l2);
    push_arg(args, seg_pattern);
    push_arg(args, pl);
    assert(strs(args@) =~= strs(old(args)@) + hls_output_part(start as int, playlist@, out_dir@));
}

fn push_dash_head(args: &mut Vec<String>)
    ensures
        strs(final(args)@) == strs(old(args)@) + dash_head(),
{
    let l = vec!["-loglevel", "info", "-probesize", "5000000", "-analyzeduration", "5000000"];
    assert(lit_views(l@) =~= dash_head());
    push_lits(args, l);
}

fn push_dash_input(args: &mut Vec<String>, start: u64, input: &str)
    requires
        start <= u64::MAX / 10,
    ensures
        strs(final(args)@) == strs(old(args)@) + dash_input_part(start as int, input@),
{
    let l1 = vec!["-ss"];
    let l2 = vec!["-i"];
    push_lits(args, l1);
    push_arg(args, decimal_string_u64(start * 10));
    push_lits(args, l2);
    push_arg(args, String::from_str(input));
    assert(strs(args@) =~= strs(old(args)@) + dash_input_part(start as int, input@));
}

fn dash_header_exec(start: u64, rep: &str) -> (r: String)
    ensures
        r@ == dash_header(start as int, rep@),
{
    let mut v: Vec<char> = Vec::new();
    if start == 0 {
        crate::text::push_str(&mut v, "init-stream");
    } else {
        crate::text::push_str(&mut v, ".init-stream");
    }
    crate::text::push_str(&mut v, rep);
    crate::text::push_str(&mut v, ".webm");
    from_chars(&v)
}

fn push_dash_video(args: &mut Vec<String>, start: u64, d: &MediaDetails, out_dir: &str)
    requires
        start < u64::MAX,
    ensures
        strs(final(args)@) == strs(old(args)@) + dash_video_part(start as int, *d, out_dir@),
{
    let l1 = vec!["-map", "0:v:0", "-c:v", "libvpx-vp9", "-s"];
    let l2 = vec![
        "-keyint_min",
        "150",
        "-g",
        "150",
        "-tile-columns",
        "4",
        "-frame-parallel",
        "1",
        "-crf",
        "30",
        "-b:v",
        "2000k",
        "-copyts",
        "-avoid_negative_ts",
        "disabled",
        "-f",
        "webm_chunk",
        "-header",
    ];
    let l3 = vec!["-chunk_start_index"];
    let mut size: Vec<char> = Vec::new();
    push_decimal(&mut size, d.width as i64);
    crate::text::push_str(&mut size, "x");
    push_decimal(&mut size, d.height as i64);
    let header = dash_header_exec(start, "0");
    push_lits(args, l1);
    push_arg(args, from_chars(&size));
    push_lits(args, l2);
    push_arg(args, make_absolute(header.as_str(), out_dir));
    push_lits(args, l3);
    push_arg(args, decimal_string_u64(start + 1));
    push_arg(args, make_absolute(".chunk-stream0-%05d.webm", out_dir));
    assert(strs(args@) =~= strs(old(args)@) + dash_video_part(start as int, *d, out_dir@));
}

fn push_dash_audio(args: &mut Vec<String>, start: u64, out_dir: &str)
    requires
        start < u64::MAX,
    ensures
        strs(final(args)@) == strs(old(args)@) + dash_audio_part(start as int, out_dir@),
{
    let l1 = vec![
        "-map",
        "0:a:0?",
        "-c:a",
        "libopus",
        "-b:a",
        "128k",
        "-ac",
        "2",
        "-copyts",
        "-avoid_negative_ts",
        "disabled",
        "-f",
        "webm_chunk",
        "-audio_chunk_duration",
        "10000",
        "-header",
    ];
    let l2 = vec!["-chunk_start_index"];
    let header = dash_header_exec(start, "1");
    push_lits(args, l1);
    push_arg(args, make_absolute(header.as_str(), out_dir));
    push_lits(args, l2);
    push_arg(args, decimal_string_u64(start + 1));
    push_arg(args, make_absolute(".chunk-stream1-%05d.webm", out_dir));
    assert(strs(args@) =~= strs(old(args)@) + dash_audio_part(start as int, out_dir@));
}

fn push_direct_seek(args: &mut Vec<String>, start_ms: u64)
    ensures
        strs(final(args)@) == strs(old(args)@) + direct_seek_part(start_ms as int),
{
    if start_ms > 0 {
        let mut t: Vec<char> = Vec::new();
        push_decimal(&mut t, (start_ms / 1000) as i64);
        crate::text::push_str(&mut t, ".");
        push_decimal_padded(&mut t, (start_ms % 1000) as i64, 3);
        let l1 = vec!["-ss"];
        let l2 = vec!["-copyts", "-avoid_negative_ts", "disabled"];
        push_lits(args, l1);
        push_arg(args, from_chars(&t));
        push_lits(args, l2);
    }
    assert(strs(args@) =~= strs(old(args)@) + direct_seek_part(start_ms as int));
}

fn push_direct_video(args: &mut Vec<String>, copy: bool, format: &str)
    ensures
        strs(final(args)@) == strs(old(args)@) + direct_video_part(copy, format@),
{
    let l0 = vec!["-c:v"];
    push_lits(args, l0);
    if copy {
        let l = vec!["copy"];
        push_lits(args, l);
    } else if str_eq(format, "webm") {
        let l = vec![
            "libvpx-vp9",
            "-crf",
            "30",
            "-b:v",
            "2000k",
            "-deadline",
            "realtime",
            "-cpu-used",
            "5",
            "-row-mt",
            "1",
        ];
        push_lits(args, l);
    } else {
        let l = vec!["libx264", "-preset", "ultrafast", "-tune", "zerolatency"];
        push_lits(args, l);
    }
    assert(strs(args@) =~= strs(old(args)@) + direct_video_part(copy, format@));
}

fn push_direct_audio(args: &mut Vec<String>, a: &str, format: &str)
    ensures
        strs(final(args)@) == strs(old(args)@) + direct_audio_part(a@, format@),
{
    let l0 = vec!["-c:a"];
    push_lits(args, l0);
    if str_eq(format, "mkv") {
        if ci_is_exec(a, "opus") || ci_is_exec(a, "aac") || ci_is_exec(a, "mp3") || ci_is_exec(
            a,
            "vorbis",
        ) {
            let l = vec!["copy"];
            push_lits(args, l);
        } else {
            let l = vec!["libopus", "-b:a", "128k", "-vbr", "on", "-ac", "2"];
            push_lits(args, l);
        }
    } else if str_eq(format, "webm") {
        if ci_is_exec(a, "opus") || ci_is_exec(a, "vorbis") {
            let l = vec!["copy"];
            push_lits(args, l);
        } else {
            let l = vec!["libopus", "-b:a", "128k", "-ac", "2"];
            push_lits(args, l);
        }
    } else {
        if ci_is_exec(a, "aac") || ci_is_exec(a, "mp3") || ci_is_exec(a, "opus") {
            let l = vec!["copy"];
            push_lits(args, l);
        } else {
            let l = vec!["aac", "-b:a", "128k", "-ac", "2"];
            push_lits(args, l);
        }
    }
    assert(strs(args@) =~= strs(old(args)@) + direct_audio_part(a@, format@));
}

fn push_direct_container(args: &mut Vec<String>, format: &str)
    ensures
        strs(final(args)@) == strs(old(args)@) + direct_container_part(format@),
{
    if str_eq(format, "mp4") {
        let l = vec!["-movflags", "frag_keyframe+empty_moov+default_base_moof"];
        push_lits(args, l);
    } else if str_eq(format, "mkv") {
        let l = vec!["-live", "1"];
        push_lits(args, l);
    }
    let ghost mid = strs(args@);
    let container = if str_eq(format, "mkv") {
        "matroska"
    } else if str_eq(format, "webm") {
        "webm"
    } else {
        "mp4"
    };
    let l1 = vec!["-f"];
    let l2 = vec!["-flush_packets", "1", "pipe:1"];
    push_lits(args, l1);
    push_arg(args, String::from_str(container));
    push_lits(args, l2);
    assert(strs(args@) =~= strs(old(args)@) + direct_container_part(format@));
}

impl TranscodeSettings {
    fn push_decoder_args(&self, args: &mut Vec<String>, codec: &str)
        ensures
            strs(final(args)@) == strs(old(args)@) + decoder_args(codec@, strs(self.hw_decoders@)),
    {
        match FfmpegEngine::get_hw_decoder(codec, self.hw_decoders.as_slice()) {
            Some(h) => {
                push_arg(args, String::from_str("-c:v"));
                push_arg(args, h);
            },
            None => {},
        }
        assert(strs(args@) =~= strs(old(args)@) + decoder_args(codec@, strs(self.hw_decoders@)));
    }

    fn push_hls_video(&self, args: &mut Vec<String>, vc: &str, width: i32)
        ensures
            strs(final(args)@) == strs(old(args)@) + hls_video_part(
                vc@,
                strs(self.hw_decoders@),
                width as int,
            ),
    {
        if !str_eq(vc, "copy") {
            if str_eq(vc, "h264_v4l2m2m") {
                let l = vec!["-b:v", "4M", "-maxrate", "5M", "-bufsize", "8M"];
                push_lits(args, l);
            } else {
                let l = vec![
                    "-pix_fmt",
                    "yuv420p",
                    "-preset",
                    "ultrafast",
                    "-crf",
                    "26",
                    "-flags",
                    "+cgop",
                ];
                push_lits(args, l);
            }
            let ghost mid = strs(args@);
            if contains_str(self.hw_decoders.as_slice(), "h264_v4l2m2m") && width > 1280 {
                let l = vec!["-vf", "scale_v4l2m2m=1280:-1"];
                push_lits(args, l);
            }
        }
        assert(strs(args@) =~= strs(old(args)@) + hls_video_part(
            vc@,
            strs(self.hw_decoders@),
            width as int,
        ));
    }

    /// The video and audio codecs of an HLS stream of a file described by
    /// `details`.
    fn hls_codecs(&self, details: &MediaDetails) -> (r: (String, String))
        ensures
            r.0@ == hls_video_codec(self.hw_encoder@, *details),
            r.1@ == hls_audio_codec(*details),
    {
        let strategy = FfmpegEngine::get_stream_strategy(details);
        let v_codec: String = match strategy {
            StreamStrategy::DirectCopy => String::from_str("copy"),
            StreamStrategy::SmartRemux { video_copy, audio_copy } => if video_copy {
                String::from_str("copy")
            } else {
                self.hw_encoder.clone()
            },
            StreamStrategy::FullTranscode => self.hw_encoder.clone(),
        };
        let a_codec: String = match strategy {
            StreamStrategy::DirectCopy => String::from_str("copy"),
            StreamStrategy::SmartRemux { video_copy, audio_copy } => if audio_copy {
                String::from_str("copy")
            } else {
                String::from_str("aac")
            },
            StreamStrategy::FullTranscode => String::from_str("aac"),
        };
        (v_codec, a_codec)
    }

    /// The FFmpeg arguments of a DASH stream of `input_path` from chunk
    /// `start_segment` on, written into `output_dir`.
    pub fn build_dash_args(
        &self,
        input_path: &str,
        details: &MediaDetails,
        start_segment: usize,
        output_dir: &str,
    ) -> (r: Vec<String>)
        requires
            start_segment <= usize::MAX / 10,
        ensures
            strs(r@) == dash_args(
                strs(self.hw_decoders@),
                input_path@,
                *details,
                start_segment as int,
                output_dir@,
            ),
    {
        let start = start_segment as u64;
        let mut args: Vec<String> = Vec::new();
        push_dash_head(&mut args);
        self.push_decoder_args(&mut args, details.video_codec.as_str());
        push_dash_input(&mut args, start, input_path);
        push_dash_video(&mut args, start, details, output_dir);
        push_dash_audio(&mut args, start, output_dir);
        assert(strs(args@) =~= dash_args(
            strs(self.hw_decoders@),
            input_path@,
            *details,
            start_segment as int,
            output_dir@,
        ));
        args
    }

    /// The FFmpeg arguments of an HLS stream of `input_path` from segment
    /// `start_segment` on, or of a DASH stream when `is_dash`.
    pub fn build_ffmpeg_args(
        &self,
        input_path: &str,
        details: &MediaDetails,
        start_segment: usize,
        playlist_path: &str,
        output_dir: &str,
        is_dash: bool,
    ) -> (r: Vec<String>)
        requires
            is_dash ==> start_segment <= usize::MAX / 10,
            start_segment <= usize::MAX / 2,
        ensures
            strs(r@) == if is_dash {
                dash_args(
                    strs(self.hw_decoders@),
                    input_path@,
                    *details,
                    start_segment as int,
                    output_dir@,
                )
            } else {
                hls_args(
                    self.hw_encoder@,
                    strs(self.hw_decoders@),
                    input_path@,
                    *details,
                    start_segment as int,
                    playlist_path@,
                    output_dir@,
                )
            },
    {
        if is_dash {
            return self.build_dash_args(input_path, details, start_segment, output_dir);
        }
        let start = start_segment as u64;
        let (v_codec, a_codec) = self.hls_codecs(details);
        let vc = v_codec.as_str();
        let mut args: Vec<String> = Vec::new();
        push_hls_head(&mut args);
        if !str_eq(vc, "copy") {
            self.push_decoder_args(&mut args, details.video_codec.as_str());
        }
        push_hls_input(&mut args, start, input_path, vc);
        self.push_hls_video(&mut args, vc, details.width);
        push_hls_audio(&mut args, a_codec.as_str());
        push_hls_mux(&mut args, vc);
        push_hls_output(&mut args, start, playlist_path, output_dir);
        assert(strs(args@) =~= hls_args(
            self.hw_encoder@,
            strs(self.hw_decoders@),
            input_path@,
            *details,
            start_segment as int,
            playlist_path@,
            output_dir@,
        ));
        args
    }
    /// The FFmpeg arguments of a stream of `input_path` piped out in
    /// container `format`, starting `start_time_ms` milliseconds in.
    pub fn build_direct_args(
        &self,
        input_path: &str,
        details: &MediaDetails,
        start_time_ms: u64,
        format: &str,
    ) -> (r: Vec<String>)
        ensures
            strs(r@) == direct_args(
                strs(self.hw_decoders@),
                input_path@,
                *details,
                start_time_ms as int,
                format@,
            ),
    {
        let copy = if str_eq(format, "webm") {
            let v = details.video_codec.as_str();
            ci_is_exec(v, "vp9") || ci_is_exec(v, "vp8") || ci_is_exec(v, "av1")
        } else {
            match FfmpegEngine::get_stream_strategy(details) {
                StreamStrategy::DirectCopy => true,
                StreamStrategy::SmartRemux { video_copy, audio_copy } => video_copy,
                StreamStrategy::FullTranscode => false,
            }
        };
        let mut args: Vec<String> = Vec::new();
        let l0 = vec!["-loglevel", "error"];
        push_lits(&mut args, l0);
        push_direct_seek(&mut args, start_time_ms);
        if !copy {
            self.push_decoder_args(&mut args, details.video_codec.as_str());
        }
        let l1 = vec!["-i"];
        push_lits(&mut args, l1);
        push_arg(&mut args, String::from_str(input_path));
        push_direct_video(&mut args, copy, format);
        push_direct_audio(&mut args, details.audio_codec.as_str(), format);
        push_direct_container(&mut args, format);
        assert(strs(args@) =~= direct_args(
            strs(self.hw_decoders@),
            input_path@,
            *details,
            start_time_ms as int,
            format@,
        ));
        args
    }
}

// ---------------------------------------------------------------------------
// Keeping a transcoder in step with its viewer.
// ---------------------------------------------------------------------------

/// Segments the player may ask for ahead of the last one it asked for
/// before the transcoder is restarted at the new position.
pub open spec fn restart_lookahead() -> int {
    50
}

/// Segments the transcoder may run ahead of the player before it is paused.
pub open spec fn throttle_lead() -> int {
    30
}

/// Nanoseconds without a request after which a session is torn down
/// (two minutes).
pub open spec fn idle_timeout_ns() -> int {
    120_000_000_000
}

/// The part of a stream a running transcoder covers.
#[derive(Clone, Copy, PartialEq, Eq, Structural, Debug)]
pub struct SegmentWindow {
    /// Segment at which the transcoder was started.
    pub start_segment: usize,
    /// Last segment the player asked for.
    pub last_requested_segment: usize,
}

/// What to do about a requested segment.
#[derive(Clone, Copy, PartialEq, Eq, Structural, Debug)]
pub enum SegmentStep {
    /// The segment is on disk: serve it.
    Ready,
    /// The running transcoder will write it: wait for it.
    Wait,
    /// Restart the transcoder at the segment.
    Restart,
}

/// The transcoder must be restarted for `index`: it has stopped, or the
/// segment lies before its start or too far past the last request.
pub open spec fn needs_restart(w: SegmentWindow, index: int, alive: bool) -> bool {
    !alive || index < w.start_segment || index > w.last_requested_segment + restart_lookahead()
}

/// What happens to a streaming session when stale sessions are swept.
#[derive(Clone, Copy, PartialEq, Eq, Structural, Debug)]
pub enum SessionFate {
    Keep,
    /// Stop the transcoder, keep its segments.
    Throttle,
    /// Stop the transcoder and delete the session.
    Destroy,
}

pub open spec fn fate_of(idle_ns: int, latest: Option<usize>, last_requested: int) -> SessionFate {
    if idle_ns > idle_timeout_ns() {
        SessionFate::Destroy
    } else if latest is Some && latest.unwrap() > last_requested + throttle_lead() {
        SessionFate::Throttle
    } else {
        SessionFate::Keep
    }
}

impl SegmentWindow {
    /// A transcoder started at `start_segment`.
    pub fn new(start_segment: usize) -> (r: Self)
        ensures
            r.start_segment == start_segment,
            r.last_requested_segment == start_segment,
    {
        SegmentWindow { start_segment, last_requested_segment: start_segment }
    }

    /// Handles a request for segment `index`, given whether the segment is
    /// on disk and whether the transcoder still runs.  A segment that will
    /// be served becomes the last one requested.
    pub fn request(&mut self, index: usize, on_disk: bool, alive: bool) -> (r: SegmentStep)
        ensures
            final(self).start_segment == old(self).start_segment,
            r == (if on_disk {
                SegmentStep::Ready
            } else if needs_restart(*old(self), index as int, alive) {
                SegmentStep::Restart
            } else {
                SegmentStep::Wait
            }),
            r == SegmentStep::Restart ==> *final(self) == *old(self),
            r != SegmentStep::Restart ==> final(self).last_requested_segment == index,
    {
        if on_disk {
            self.last_requested_segment = index;
            return SegmentStep::Ready;
        }
        let too_far = self.last_requested_segment <= usize::MAX - 50 && index
            > self.last_requested_segment + 50;
        if !alive || index < self.start_segment || too_far {
            SegmentStep::Restart
        } else {
            self.last_requested_segment = index;
            SegmentStep::Wait
        }
    }
}

/// Whether a restart already under way, at segment `pending`, serves a
/// request for `index`.
pub fn restart_pending_for(pending: Option<usize>, index: usize) -> (r: bool)
    ensures
        r == (pending == Some(index)),
{
    match pending {
        Some(p) => p == index,
        None => false,
    }
}

/// Whether segment `index` is complete: the transcoder has moved on to a
/// later one.
pub fn segment_complete(latest: Option<usize>, index: usize) -> (r: bool)
    ensures
        r == (latest is Some && latest.unwrap() > index),
{
    match latest {
        Some(l) => l > index,
        None => false,
    }
}

/// A session without a transcoder record streams DASH when its id says so.
pub fn session_is_dash(id: &str) -> (r: bool)
    ensures
        r == crate::text::has_sub(id@, "dash"@),
{
    let v = to_chars(id);
    let d = to_chars("dash");
    crate::text::has_sub_exec(&v, &d)
}

/// What a sweep does to a session idle for `idle_ns` nanoseconds whose
/// transcoder last wrote segment `latest` and whose player last asked for
/// `last_requested`.
pub fn session_fate(idle_ns: u128, latest: Option<usize>, last_requested: usize) -> (r: SessionFate)
    ensures
        r == fate_of(idle_ns as int, latest, last_requested as int),
{
    if idle_ns > 120_000_000_000 {
        return SessionFate::Destroy;
    }
    match latest {
        Some(l) => if last_requested <= usize::MAX - 30 && l > last_requested + 30 {
            SessionFate::Throttle
        } else {
            SessionFate::Keep
        },
        None => SessionFate::Keep,
    }
}

/// A request the transcoder can serve leaves it where it is: asking again
/// for the same segment restarts nothing, whatever is on disk.
pub proof fn lemma_repeat_request_is_served(w: SegmentWindow, index: int, alive: bool)
    requires
        alive,
        w.start_segment <= index,
        w.last_requested_segment == index,
    ensures
        !needs_restart(w, index, alive),
{
}

// ---------------------------------------------------------------------------
// The sessions of a stream manager and the restarts under way.
// ---------------------------------------------------------------------------

/// A running stream: its id, the window of its transcoder and whether it
/// streams DASH.
#[derive(Clone, Debug)]
pub struct SessionEntry {
    pub id: String,
    pub window: SegmentWindow,
    pub is_dash: bool,
    /// The file the transcoder reads.
    pub input_path: String,
}

/// The sessions by id, the restarts under way (stream id, segment at
/// which it is being restarted) and the viewers of each stream.
pub struct StreamRegistry {
    pub sessions: Vec<SessionEntry>,
    pub pending: Vec<(String, usize)>,
    /// The viewers of each stream: (stream id, client ids).
    pub viewers: Vec<(String, Vec<String>)>,
}

/// What a request for a segment comes to.
#[derive(Clone, Copy, PartialEq, Eq, Structural, Debug)]
pub enum RequestOutcome {
    /// The session serves it as it stands (the segment is on disk or its
    /// transcoder will write it).
    Served,
    /// A restart at this very segment is already under way: nothing more.
    AlreadyRestarting,
    /// Start the transcoder at the segment (DASH or not), then call
    /// `finish_restart`.
    Restart { is_dash: bool },
}

/// Where session `id` stands among `s` (the last such place), or -1.
pub open spec fn session_index(s: Seq<SessionEntry>, id: Seq<char>) -> int
    decreases s.len(),
{
    if s.len() == 0 {
        -1
    } else if s.last().id@ == id {
        s.len() - 1
    } else {
        session_index(s.drop_last(), id)
    }
}

proof fn lemma_session_index(s: Seq<SessionEntry>, id: Seq<char>)
    ensures
        -1 <= session_index(s, id) < s.len(),
        session_index(s, id) >= 0 ==> s[session_index(s, id)].id@ == id,
        forall|j: int| session_index(s, id) < j < s.len() ==> #[trigger] s[j].id@ != id,
    decreases s.len(),
{
    if s.len() > 0 && s.last().id@ != id {
        lemma_session_index(s.drop_last(), id);
        assert forall|j: int| session_index(s, id) < j < s.len() implies #[trigger] s[j].id@ != id by {
            if j < s.len() - 1 {
                assert(s[j] == s.drop_last()[j]);
            }
        }
    }
}

/// `e` without any entry for `key`.
pub open spec fn without_key(e: Seq<(Seq<char>, usize)>, key: Seq<char>) -> Seq<(Seq<char>, usize)>
    decreases e.len(),
{
    if e.len() == 0 {
        e
    } else if e.last().0 == key {
        without_key(e.drop_last(), key)
    } else {
        without_key(e.drop_last(), key).push(e.last())
    }
}

/// Once the restarts of `key` are forgotten, none of them is under way.
pub proof fn lemma_finished_restart_is_forgotten(e: Seq<(Seq<char>, usize)>, key: Seq<char>)
    ensures
        key_index(without_key(e, key), key) == -1,
    decreases e.len(),
{
    if e.len() > 0 {
        lemma_finished_restart_is_forgotten(e.drop_last(), key);
        let w = without_key(e.drop_last(), key);
        if e.last().0 != key {
            assert(w.push(e.last()).drop_last() =~= w);
        }
    }
}

/// The sessions as (id, window, DASH or not, input path).
pub open spec fn session_views(s: Seq<SessionEntry>) -> Seq<(Seq<char>, SegmentWindow, bool, Seq<char>)> {
    s.map_values(|x: SessionEntry| (x.id@, x.window, x.is_dash, x.input_path@))
}

/// The request for segment `index` of stream `id` that a registry in state
/// (`sessions`, `pending`) answers, given whether the segment is on disk and
/// whether the session's transcoder runs: a stream without a session is
/// always restarted (as DASH when its id says so).
pub open spec fn needs_start(sessions: Seq<SessionEntry>, id: Seq<char>, index: int, on_disk: bool, alive: bool) -> bool {
    let k = session_index(sessions, id);
    k < 0 || (!on_disk && needs_restart(sessions[k].window, index, alive))
}

pub open spec fn start_as_dash(sessions: Seq<SessionEntry>, id: Seq<char>) -> bool {
    let k = session_index(sessions, id);
    if k >= 0 {
        sessions[k].is_dash
    } else {
        crate::text::has_sub(id, "dash"@)
    }
}

fn find_session(sessions: &Vec<SessionEntry>, id: &str) -> (r: Option<usize>)
    ensures
        match r {
            Some(k) => k as int == session_index(sessions@, id@),
            None => session_index(sessions@, id@) == -1,
        },
{
    let mut i: usize = sessions.len();
    assert(sessions@.subrange(0, i as int) =~= sessions@);
    while i > 0
        invariant
            i <= sessions@.len(),
            session_index(sessions@, id@) == session_index(sessions@.subrange(0, i as int), id@),
        decreases i,
    {
        let ghost pre = sessions@.subrange(0, i as int);
        assert(pre.drop_last() =~= sessions@.subrange(0, i - 1));
        if str_eq(sessions[i - 1].id.as_str(), id) {
            return Some(i - 1);
        }
        i = i - 1;
    }
    None
}

fn find_pending(pending: &Vec<(String, usize)>, id: &str) -> (r: Option<usize>)
    ensures
        match r {
            Some(k) => k as int == key_index(entries(pending@), id@),
            None => key_index(entries(pending@), id@) == -1,
        },
{
    let mut i: usize = pending.len();
    assert(entries(pending@).subrange(0, i as int) =~= entries(pending@));
    while i > 0
        invariant
            i <= pending@.len(),
            key_index(entries(pending@), id@) == key_index(entries(pending@).subrange(0, i as int), id@),
        decreases i,
    {
        let ghost pre = entries(pending@).subrange(0, i as int);
        assert(pre.drop_last() =~= entries(pending@).subrange(0, i - 1));
        if str_eq(pending[i - 1].0.as_str(), id) {
            return Some(i - 1);
        }
        i = i - 1;
    }
    None
}

fn copy_text(s: &str) -> (r: String)
    ensures
        r@ == s@,
{
    from_chars(&to_chars(s))
}

impl StreamRegistry {
    /// No sessions, no restarts and no viewers.
    pub fn new() -> (r: Self)
        ensures
            r.sessions@.len() == 0,
            r.pending@.len() == 0,
            r.viewers@.len() == 0,
    {
        StreamRegistry { sessions: Vec::new(), pending: Vec::new(), viewers: Vec::new() }
    }

    /// Handles a request for segment `index` of stream `id`, given whether
    /// the segment is on disk and whether the session's transcoder still
    /// runs.  A session that serves the request records it as the last one
    /// asked for; a restart is recorded as under way unless one at the same
    /// segment already is.
    pub fn request(&mut self, id: &str, index: usize, on_disk: bool, alive: bool) -> (r: RequestOutcome)
        ensures
            ({
                let s = old(self).sessions@;
                let e = entries(old(self).pending@);
                let k = session_index(s, id@);
                let p = key_index(e, id@);
                if !needs_start(s, id@, index as int, on_disk, alive) {
                    &&& r == RequestOutcome::Served
                    &&& session_views(final(self).sessions@) == session_views(s).update(
                        k,
                        (id@, SegmentWindow { last_requested_segment: index, ..s[k].window }, s[k].is_dash, s[k].input_path@),
                    )
                    &&& entries(final(self).pending@) == e
                } else if p >= 0 && e[p].1 == index {
                    &&& r == RequestOutcome::AlreadyRestarting
                    &&& final(self).sessions@ == s
                    &&& entries(final(self).pending@) == e
                } else {
                    &&& r == (RequestOutcome::Restart { is_dash: start_as_dash(s, id@) })
                    &&& final(self).sessions@ == s
                    &&& entries(final(self).pending@) == store(e, id@, index)
                }
            }),
            final(self).viewers@ == old(self).viewers@,
    {
        let ghost s = self.sessions@;
        let k = find_session(&self.sessions, id);
        proof { lemma_session_index(s, id@); }
        let is_dash = match k {
            Some(k) => {
                let mut w = self.sessions[k].window;
                let step = w.request(index, on_disk, alive);
                if step != SegmentStep::Restart {
                    let entry = SessionEntry {
                        id: copy_text(self.sessions[k].id.as_str()),
                        window: w,
                        is_dash: self.sessions[k].is_dash,
                        input_path: copy_text(self.sessions[k].input_path.as_str()),
                    };
                    self.sessions.set(k, entry);
                    proof {
                        assert(session_views(self.sessions@) =~= session_views(s).update(
                            k as int,
                            (id@, SegmentWindow { last_requested_segment: index, ..s[k as int].window }, s[k as int].is_dash, s[k as int].input_path@),
                        ));
                    }
                    return RequestOutcome::Served;
                }
                self.sessions[k].is_dash
            },
            None => session_is_dash(id),
        };
        let p = find_pending(&self.pending, id);
        proof { lemma_key_index(entries(self.pending@), id@); }
        match p {
            Some(p) => {
                if self.pending[p].1 == index {
                    return RequestOutcome::AlreadyRestarting;
                }
                let ghost e = entries(self.pending@);
                self.pending.set(p, (copy_text(id), index));
                proof {
                    assert(entries(self.pending@) =~= e.update(p as int, (id@, index)));
                }
            },
            None => {
                let ghost e = entries(self.pending@);
                self.pending.push((copy_text(id), index));
                proof {
                    assert(entries(self.pending@) =~= e.push((id@, index)));
                }
            },
        }
        RequestOutcome::Restart { is_dash }
    }

    /// Records that the transcoder of stream `id` was (re)started at
    /// `start_segment` on `input_path`: the session's window starts there.
    pub fn install(&mut self, id: &str, input_path: &str, start_segment: usize, is_dash: bool)
        ensures
            ({
                let s = session_views(old(self).sessions@);
                let k = session_index(old(self).sessions@, id@);
                let entry = (id@, SegmentWindow { start_segment, last_requested_segment: start_segment }, is_dash, input_path@);
                session_views(final(self).sessions@) == (if k >= 0 { s.update(k, entry) } else { s.push(entry) })
            }),
            final(self).pending@ == old(self).pending@,
            final(self).viewers@ == old(self).viewers@,
    {
        let ghost s = self.sessions@;
        let ghost entry_view = (id@, SegmentWindow { start_segment, last_requested_segment: start_segment }, is_dash, input_path@);
        let entry = SessionEntry {
            id: copy_text(id),
            window: SegmentWindow::new(start_segment),
            is_dash,
            input_path: copy_text(input_path),
        };
        let k = find_session(&self.sessions, id);
        proof { lemma_session_index(s, id@); }
        match k {
            Some(k) => {
                self.sessions.set(k, entry);
                proof {
                    assert(session_views(self.sessions@) =~= session_views(s).update(k as int, entry_view));
                }
            },
            None => {
                self.sessions.push(entry);
                proof {
                    assert(session_views(self.sessions@) =~= session_views(s).push(entry_view));
                }
            },
        }
    }

    /// The restart of stream `id` has ended, well or not: it is no longer
    /// under way.
    pub fn finish_restart(&mut self, id: &str)
        ensures
            entries(final(self).pending@) == without_key(entries(old(self).pending@), id@),
            key_index(entries(final(self).pending@), id@) == -1,
            final(self).sessions@ == old(self).sessions@,
            final(self).viewers@ == old(self).viewers@,
    {
        let ghost e = entries(self.pending@);
        let mut kept: Vec<(String, usize)> = Vec::new();
        let mut i: usize = 0;
        while i < self.pending.len()
            invariant
                i <= self.pending@.len(),
                e == entries(self.pending@),
                entries(kept@) == without_key(e.subrange(0, i as int), id@),
            decreases self.pending.len() - i,
        {
            let ghost pre = e.subrange(0, i + 1);
            assert(pre.drop_last() =~= e.subrange(0, i as int));
            if !str_eq(self.pending[i].0.as_str(), id) {
                let ghost before = entries(kept@);
                kept.push((copy_text(self.pending[i].0.as_str()), self.pending[i].1));
                assert(entries(kept@) =~= before.push(e[i as int]));
            }
            i = i + 1;
        }
        assert(e.subrange(0, e.len() as int) =~= e);
        self.pending = kept;
        proof {
            lemma_finished_restart_is_forgotten(e, id@);
        }
    }
}

/// The viewers of each stream as (stream id, client ids).
pub open spec fn viewer_views(v: Seq<(String, Vec<String>)>) -> Seq<(Seq<char>, Seq<Seq<char>>)> {
    v.map_values(|e: (String, Vec<String>)| (e.0@, strs(e.1@)))
}

/// Where the entry of key `key` stands among `e` (the last such place), or -1.
pub open spec fn keyed_index<V>(e: Seq<(Seq<char>, V)>, key: Seq<char>) -> int
    decreases e.len(),
{
    if e.len() == 0 {
        -1
    } else if e.last().0 == key {
        e.len() - 1
    } else {
        keyed_index(e.drop_last(), key)
    }
}

proof fn lemma_keyed_index<V>(e: Seq<(Seq<char>, V)>, key: Seq<char>)
    ensures
        -1 <= keyed_index(e, key) < e.len(),
        keyed_index(e, key) >= 0 ==> e[keyed_index(e, key)].0 == key,
        forall|j: int| keyed_index(e, key) < j < e.len() ==> #[trigger] e[j].0 != key,
    decreases e.len(),
{
    if e.len() > 0 && e.last().0 != key {
        lemma_keyed_index(e.drop_last(), key);
        assert forall|j: int| keyed_index(e, key) < j < e.len() implies #[trigger] e[j].0 != key by {
            if j < e.len() - 1 {
                assert(e[j] == e.drop_last()[j]);
            }
        }
    }
}

/// `e` without the entries of key `key`, the others in order.
pub open spec fn drop_keyed<V>(e: Seq<(Seq<char>, V)>, key: Seq<char>) -> Seq<(Seq<char>, V)>
    decreases e.len(),
{
    if e.len() == 0 {
        e
    } else if e.last().0 == key {
        drop_keyed(e.drop_last(), key)
    } else {
        drop_keyed(e.drop_last(), key).push(e.last())
    }
}

/// The sessions `s` (as views) without those of stream `id`.
pub open spec fn sessions_without(s: Seq<(Seq<char>, SegmentWindow, bool, Seq<char>)>, id: Seq<char>) -> Seq<(Seq<char>, SegmentWindow, bool, Seq<char>)>
    decreases s.len(),
{
    if s.len() == 0 {
        s
    } else if s.last().0 == id {
        sessions_without(s.drop_last(), id)
    } else {
        sessions_without(s.drop_last(), id).push(s.last())
    }
}

proof fn lemma_drop_keyed_gone<V>(e: Seq<(Seq<char>, V)>, key: Seq<char>)
    ensures
        forall|j: int| 0 <= j < drop_keyed(e, key).len() ==> #[trigger] drop_keyed(e, key)[j].0 != key,
    decreases e.len(),
{
    if e.len() > 0 {
        lemma_drop_keyed_gone(e.drop_last(), key);
        let d = drop_keyed(e.drop_last(), key);
        if e.last().0 != key {
            assert forall|j: int| 0 <= j < d.push(e.last()).len() implies #[trigger] d.push(e.last())[j].0 != key by {
                if j < d.len() {
                    assert(d.push(e.last())[j] == d[j]);
                }
            }
        }
    }
}

proof fn lemma_sessions_without_gone(s: Seq<(Seq<char>, SegmentWindow, bool, Seq<char>)>, id: Seq<char>)
    ensures
        forall|j: int| 0 <= j < sessions_without(s, id).len() ==> #[trigger] sessions_without(s, id)[j].0 != id,
    decreases s.len(),
{
    if s.len() > 0 {
        lemma_sessions_without_gone(s.drop_last(), id);
        let d = sessions_without(s.drop_last(), id);
        if s.last().0 != id {
            assert forall|j: int| 0 <= j < d.push(s.last()).len() implies #[trigger] d.push(s.last())[j].0 != id by {
                if j < d.len() {
                    assert(d.push(s.last())[j] == d[j]);
                }
            }
        }
    }
}

/// `c` with client `x` added unless it is there.
pub open spec fn with_client(c: Seq<Seq<char>>, x: Seq<char>) -> Seq<Seq<char>> {
    if c.contains(x) {
        c
    } else {
        c.push(x)
    }
}

/// `c` without client `x`.
pub open spec fn without_client(c: Seq<Seq<char>>, x: Seq<char>) -> Seq<Seq<char>>
    decreases c.len(),
{
    if c.len() == 0 {
        c
    } else if c.last() == x {
        without_client(c.drop_last(), x)
    } else {
        without_client(c.drop_last(), x).push(c.last())
    }
}

fn copy_strings(v: &Vec<String>) -> (r: Vec<String>)
    ensures
        strs(r@) == strs(v@),
{
    let mut out: Vec<String> = Vec::new();
    let mut i: usize = 0;
    while i < v.len()
        invariant
            i <= v@.len(),
            strs(out@) == strs(v@).subrange(0, i as int),
        decreases v.len() - i,
    {
        let ghost before = strs(out@);
        let c = copy_text(v[i].as_str());
        out.push(c);
        assert(strs(out@) =~= before.push(v@[i as int]@));
        assert(strs(out@) =~= strs(v@).subrange(0, i + 1));
        i = i + 1;
    }
    assert(strs(v@).subrange(0, v@.len() as int) =~= strs(v@));
    out
}

fn strings_without(v: &Vec<String>, x: &str) -> (r: Vec<String>)
    ensures
        strs(r@) == without_client(strs(v@), x@),
{
    let ghost c = strs(v@);
    let mut out: Vec<String> = Vec::new();
    let mut i: usize = 0;
    while i < v.len()
        invariant
            i <= v@.len(),
            c == strs(v@),
            strs(out@) == without_client(c.subrange(0, i as int), x@),
        decreases v.len() - i,
    {
        assert(c.subrange(0, i + 1).drop_last() =~= c.subrange(0, i as int));
        if !str_eq(v[i].as_str(), x) {
            let ghost before = strs(out@);
            out.push(copy_text(v[i].as_str()));
            assert(strs(out@) =~= before.push(c[i as int]));
        }
        i = i + 1;
    }
    assert(c.subrange(0, c.len() as int) =~= c);
    out
}

fn find_viewers(viewers: &Vec<(String, Vec<String>)>, id: &str) -> (r: Option<usize>)
    ensures
        match r {
            Some(k) => k as int == keyed_index(viewer_views(viewers@), id@),
            None => keyed_index(viewer_views(viewers@), id@) == -1,
        },
{
    let ghost vv = viewer_views(viewers@);
    let mut i: usize = viewers.len();
    assert(vv.subrange(0, i as int) =~= vv);
    while i > 0
        invariant
            i <= viewers@.len(),
            vv == viewer_views(viewers@),
            keyed_index(vv, id@) == keyed_index(vv.subrange(0, i as int), id@),
        decreases i,
    {
        assert(vv.subrange(0, i as int).drop_last() =~= vv.subrange(0, i - 1));
        if str_eq(viewers[i - 1].0.as_str(), id) {
            return Some(i - 1);
        }
        i = i - 1;
    }
    None
}

impl StreamRegistry {
    /// Client `client` watches stream `id`: it is added to the stream's
    /// viewers, unless it is among them.
    pub fn register_client(&mut self, id: &str, client: &str)
        ensures
            ({
                let vv = viewer_views(old(self).viewers@);
                let k = keyed_index(vv, id@);
                viewer_views(final(self).viewers@) == if k >= 0 {
                    vv.update(k, (id@, with_client(vv[k].1, client@)))
                } else {
                    vv.push((id@, seq![client@]))
                }
            }),
            final(self).sessions@ == old(self).sessions@,
            final(self).pending@ == old(self).pending@,
    {
        let ghost vv = viewer_views(self.viewers@);
        let k = find_viewers(&self.viewers, id);
        proof { lemma_keyed_index(vv, id@); }
        match k {
            Some(k) => {
                let mut clients = copy_strings(&self.viewers[k].1);
                if !crate::text::contains_str(clients.as_slice(), client) {
                    clients.push(copy_text(client));
                }
                let ghost cv = strs(clients@);
                assert(cv == with_client(vv[k as int].1, client@));
                self.viewers.set(k, (copy_text(id), clients));
                assert(viewer_views(self.viewers@) =~= vv.update(k as int, (id@, cv)));
            },
            None => {
                let mut clients: Vec<String> = Vec::new();
                clients.push(copy_text(client));
                assert(strs(clients@) =~= seq![client@]);
                self.viewers.push((copy_text(id), clients));
                assert(viewer_views(self.viewers@) =~= vv.push((id@, seq![client@])));
            },
        }
    }

    /// Client `client` stops watching stream `id`.  The answer says whether
    /// the stream has viewers recorded and none is left: its transcoder is
    /// then to be stopped.
    pub fn unregister_client(&mut self, id: &str, client: &str) -> (stop: bool)
        ensures
            ({
                let vv = viewer_views(old(self).viewers@);
                let k = keyed_index(vv, id@);
                if k >= 0 {
                    &&& viewer_views(final(self).viewers@) == vv.update(k, (id@, without_client(vv[k].1, client@)))
                    &&& stop == (without_client(vv[k].1, client@).len() == 0)
                } else {
                    &&& viewer_views(final(self).viewers@) == vv
                    &&& !stop
                }
            }),
            final(self).sessions@ == old(self).sessions@,
            final(self).pending@ == old(self).pending@,
    {
        let ghost vv = viewer_views(self.viewers@);
        let k = find_viewers(&self.viewers, id);
        proof { lemma_keyed_index(vv, id@); }
        match k {
            Some(k) => {
                let clients = strings_without(&self.viewers[k].1, client);
                let stop = clients.len() == 0;
                let ghost cv = strs(clients@);
                self.viewers.set(k, (copy_text(id), clients));
                assert(viewer_views(self.viewers@) =~= vv.update(k as int, (id@, cv)));
                stop
            },
            None => false,
        }
    }

    /// Tears down stream `id`: its session and its viewers are forgotten,
    /// the other streams' stay as they were.
    pub fn destroy_session(&mut self, id: &str)
        ensures
            session_views(final(self).sessions@) == sessions_without(session_views(old(self).sessions@), id@),
            viewer_views(final(self).viewers@) == drop_keyed(viewer_views(old(self).viewers@), id@),
            forall|j: int| 0 <= j < final(self).sessions@.len() ==> #[trigger] final(self).sessions@[j].id@ != id@,
            forall|j: int| 0 <= j < final(self).viewers@.len() ==> #[trigger] final(self).viewers@[j].0@ != id@,
            final(self).pending@ == old(self).pending@,
    {
        let ghost sv = session_views(self.sessions@);
        let mut kept: Vec<SessionEntry> = Vec::new();
        let mut i: usize = 0;
        while i < self.sessions.len()
            invariant
                i <= self.sessions@.len(),
                sv == session_views(self.sessions@),
                session_views(kept@) == sessions_without(sv.subrange(0, i as int), id@),
            decreases self.sessions.len() - i,
        {
            assert(sv.subrange(0, i + 1).drop_last() =~= sv.subrange(0, i as int));
            if !str_eq(self.sessions[i].id.as_str(), id) {
                let ghost before = session_views(kept@);
                let e = SessionEntry {
                    id: copy_text(self.sessions[i].id.as_str()),
                    window: self.sessions[i].window,
                    is_dash: self.sessions[i].is_dash,
                    input_path: copy_text(self.sessions[i].input_path.as_str()),
                };
                kept.push(e);
                assert(session_views(kept@) =~= before.push(sv[i as int]));
            }
            i = i + 1;
        }
        assert(sv.subrange(0, sv.len() as int) =~= sv);
        self.sessions = kept;
        let ghost vv = viewer_views(self.viewers@);
        let mut kv: Vec<(String, Vec<String>)> = Vec::new();
        let mut i: usize = 0;
        while i < self.viewers.len()
            invariant
                i <= self.viewers@.len(),
                vv == viewer_views(self.viewers@),
                viewer_views(kv@) == drop_keyed(vv.subrange(0, i as int), id@),
            decreases self.viewers.len() - i,
        {
            assert(vv.subrange(0, i + 1).drop_last() =~= vv.subrange(0, i as int));
            if !str_eq(self.viewers[i].0.as_str(), id) {
                let ghost before = viewer_views(kv@);
                let e = (copy_text(self.viewers[i].0.as_str()), copy_strings(&self.viewers[i].1));
                kv.push(e);
                assert(viewer_views(kv@) =~= before.push(vv[i as int]));
            }
            i = i + 1;
        }
        assert(vv.subrange(0, vv.len() as int) =~= vv);
        self.viewers = kv;
        proof {
            lemma_sessions_without_gone(sv, id@);
            lemma_drop_keyed_gone(vv, id@);
            assert forall|j: int| 0 <= j < self.sessions@.len() implies #[trigger] self.sessions@[j].id@ != id@ by {
                assert(session_views(self.sessions@)[j].0 == self.sessions@[j].id@);
            }
            assert forall|j: int| 0 <= j < self.viewers@.len() implies #[trigger] self.viewers@[j].0@ != id@ by {
                assert(viewer_views(self.viewers@)[j].0 == self.viewers@[j].0@);
            }
        }
    }
}

/// The folder of stream `id`'s files under `base_output_dir`.
pub open spec fn stream_dir(base_output_dir: Seq<char>, id: Seq<char>) -> Seq<char> {
    joined_path(id, base_output_dir)
}

/// The manifest a started stream is played from: `manifest.mpd` for DASH,
/// else `playlist.m3u8`, in the stream's folder.
pub fn manifest_path(base_output_dir: &str, id: &str, is_dash: bool) -> (r: String)
    ensures
        r@ == joined_path(
            if is_dash { "manifest.mpd"@ } else { "playlist.m3u8"@ },
            stream_dir(base_output_dir@, id@),
        ),
{
    let dir = make_absolute(id, base_output_dir);
    if is_dash {
        make_absolute("manifest.mpd", dir.as_str())
    } else {
        make_absolute("playlist.m3u8", dir.as_str())
    }
}

/// Where segment file `file` of stream `id` is written.
pub fn segment_path(base_output_dir: &str, id: &str, file: &str) -> (r: String)
    ensures
        r@ == joined_path(file@, stream_dir(base_output_dir@, id@)),
{
    let dir = make_absolute(id, base_output_dir);
    make_absolute(file, dir.as_str())
}

/// Which files a browser plays as they are: an MP4, M4V or MOV file whose
/// video is H.264, VP9, AV1 or HEVC and whose audio is AAC, MP3, Opus or
/// absent, or a WebM file with such video and Opus, Vorbis or no audio;
/// in both cases unrotated.  Names are compared regardless of ASCII case.
pub proof fn lemma_direct_play_rule(path: Seq<char>, d: MediaDetails)
    ensures
        direct_playable(path, d) <==> ({
            let e = ext_or_empty(path);
            let v = d.video_codec@;
            let a = d.audio_codec@;
            let video = ci_is(v, "h264"@) || ci_is(v, "vp9"@) || ci_is(v, "av1"@) || ci_is(v, "hevc"@);
            &&& d.rotation == 0
            &&& video
            &&& {
                ||| ((ci_is(e, "mp4"@) || ci_is(e, "m4v"@) || ci_is(e, "mov"@))
                    && (ci_is(a, "aac"@) || ci_is(a, "mp3"@) || ci_is(a, "opus"@) || ci_is(a, "none"@)))
                ||| (ci_is(e, "webm"@) && (ci_is(a, "opus"@) || ci_is(a, "vorbis"@) || ci_is(a, "none"@)))
            }
        }),
{
    reveal_strlit("mp4");
    reveal_strlit("m4v");
    reveal_strlit("mov");
    reveal_strlit("webm");
    let e = ext_or_empty(path);
    if ci_is(e, "webm"@) {
        assert(e.len() == 4);
        assert(!ci_is(e, "mp4"@) && !ci_is(e, "m4v"@) && !ci_is(e, "mov"@));
    }
}

} // verus!
