//! Choices made about FFmpeg: which hardware decoder reads a codec, which
//! encoder to use, and whether a file's streams can be copied as they are.
use vstd::prelude::*;
use crate::text::{strs, contains_str, ci_is, ci_is_exec, has_sub, has_sub_exec, to_chars};
use crate::mediainfo::MediaDetails;
use crate::streaming::{lit_views, push_lits, push_arg};

verus! {

/// Entry points of the FFmpeg integration.
pub struct FfmpegEngine;

/// How the streams of a file reach a player.
#[derive(Clone, Copy, PartialEq, Eq, Structural, Debug)]
pub enum StreamStrategy {
    /// Both streams are copied.
    DirectCopy,
    /// One stream is copied, the other transcoded.
    SmartRemux { video_copy: bool, audio_copy: bool },
    /// Both streams are transcoded.
    FullTranscode,
}

/// The hardware decoder for `codec` among `supported`: the V4L2 one before
/// the CUDA one, for H.264 and HEVC only.
pub open spec fn hw_decoder_for(codec: Seq<char>, supported: Seq<Seq<char>>) -> Option<Seq<char>> {
    if codec == "h264"@ {
        if supported.contains("h264_v4l2m2m"@) {
            Some("h264_v4l2m2m"@)
        } else if supported.contains("h264_cuvid"@) {
            Some("h264_cuvid"@)
        } else {
            None
        }
    } else if codec == "hevc"@ {
        if supported.contains("hevc_v4l2m2m"@) {
            Some("hevc_v4l2m2m"@)
        } else if supported.contains("hevc_cuvid"@) {
            Some("hevc_cuvid"@)
        } else {
            None
        }
    } else {
        None
    }
}

/// A video stream can be copied into a stream for browsers when it is H.264.
pub open spec fn video_copyable(codec: Seq<char>) -> bool {
    ci_is(codec, "h264"@)
}

/// An audio stream can be copied when it is AAC or MP3.
pub open spec fn audio_copyable(codec: Seq<char>) -> bool {
    ci_is(codec, "aac"@) || ci_is(codec, "mp3"@)
}

pub open spec fn strategy_for(video_codec: Seq<char>, audio_codec: Seq<char>) -> StreamStrategy {
    let v = video_copyable(video_codec);
    let a = audio_copyable(audio_codec);
    if v && a {
        StreamStrategy::DirectCopy
    } else if v || a {
        StreamStrategy::SmartRemux { video_copy: v, audio_copy: a }
    } else {
        StreamStrategy::FullTranscode
    }
}

/// Hardware decoders whose names FFmpeg may list.
pub open spec fn decoder_candidates() -> Seq<Seq<char>> {
    seq![
        "h264_v4l2m2m"@,
        "hevc_v4l2m2m"@,
        "h264_cuvid"@,
        "hevc_cuvid"@,
        "h264_qsv"@,
        "hevc_qsv"@,
    ]
}

/// The candidates among `cands` that the listing `out` mentions, in order.
pub open spec fn listed(cands: Seq<Seq<char>>, out: Seq<char>) -> Seq<Seq<char>>
    decreases cands.len(),
{
    if cands.len() == 0 {
        cands
    } else if has_sub(out, cands.last()) {
        listed(cands.drop_last(), out).push(cands.last())
    } else {
        listed(cands.drop_last(), out)
    }
}

/// The encoder that streams are transcoded with: the first hardware
/// encoder that works, else `libx264`.
pub open spec fn preferred_encoder(supported: Seq<Seq<char>>) -> Seq<char> {
    if supported.len() > 0 {
        supported[0]
    } else {
        "libx264"@
    }
}

impl FfmpegEngine {
    /// The hardware decoder to read `source_codec` with, if one of
    /// `supported_decoders` fits.
    pub fn get_hw_decoder(source_codec: &str, supported_decoders: &[String]) -> (r: Option<String>)
        ensures
            match r {
                Some(d) => hw_decoder_for(source_codec@, strs(supported_decoders@)) == Some(d@),
                None => hw_decoder_for(source_codec@, strs(supported_decoders@)) is None,
            },
    {
        if crate::text::str_eq(source_codec, "h264") {
            if contains_str(supported_decoders, "h264_v4l2m2m") {
                Some(String::from_str("h264_v4l2m2m"))
            } else if contains_str(supported_decoders, "h264_cuvid") {
                Some(String::from_str("h264_cuvid"))
            } else {
                None
            }
        } else if crate::text::str_eq(source_codec, "hevc") {
            if contains_str(supported_decoders, "hevc_v4l2m2m") {
                Some(String::from_str("hevc_v4l2m2m"))
            } else if contains_str(supported_decoders, "hevc_cuvid") {
                Some(String::from_str("hevc_cuvid"))
            } else {
                None
            }
        } else {
            None
        }
    }

    /// Which streams of a file described by `details` can be copied.
    pub fn get_stream_strategy(details: &MediaDetails) -> (r: StreamStrategy)
        ensures
            r == strategy_for(details.video_codec@, details.audio_codec@),
    {
        let v = ci_is_exec(details.video_codec.as_str(), "h264");
        let a = ci_is_exec(details.audio_codec.as_str(), "aac") || ci_is_exec(
            details.audio_codec.as_str(),
            "mp3",
        );
        if v && a {
            StreamStrategy::DirectCopy
        } else if v || a {
            StreamStrategy::SmartRemux { video_copy: v, audio_copy: a }
        } else {
            StreamStrategy::FullTranscode
        }
    }

    /// The hardware decoders that FFmpeg's decoder listing `output` names,
    /// in the order in which they are preferred.
    pub fn decoders_in_listing(output: &str) -> (r: Vec<String>)
        ensures
            strs(r@) == listed(decoder_candidates(), output@),
    {
        let out = to_chars(output);
        let cands = vec![
            "h264_v4l2m2m",
            "hevc_v4l2m2m",
            "h264_cuvid",
            "hevc_cuvid",
            "h264_qsv",
            "hevc_qsv",
        ];
        let ghost cs = decoder_candidates();
        assert(cands@.map_values(|t: &str| t@) =~= cs);
        let mut r: Vec<String> = Vec::new();
        let mut i: usize = 0;
        while i < cands.len()
            invariant
                i <= cands.len() == cs.len(),
                cands@.map_values(|t: &str| t@) == cs,
                out@ == output@,
                strs(r@) == listed(cs.subrange(0, i as int), output@),
            decreases cands.len() - i,
        {
            let c = cands[i];
            assert(cs[i as int] == c@);
            assert(cs.subrange(0, i + 1).drop_last() =~= cs.subrange(0, i as int));
            let cv = to_chars(c);
            if has_sub_exec(&out, &cv) {
                r.push(String::from_str(c));
                assert(strs(r@) =~= listed(cs.subrange(0, i as int), output@).push(c@));
            }
            i = i + 1;
        }
        assert(cs.subrange(0, cs.len() as int) =~= cs);
        r
    }

    /// The encoder to transcode with, given the hardware encoders that
    /// passed a trial encode.
    pub fn choose_encoder(supported: &[String]) -> (r: String)
        ensures
            r@ == preferred_encoder(strs(supported@)),
    {
        if supported.len() > 0 {
            supported[0].clone()
        } else {
            String::from_str("libx264")
        }
    }
}

/// The hardware encoders tried, in order of preference.
pub open spec fn encoder_candidates() -> Seq<Seq<char>> {
    seq!["h264_v4l2m2m"@, "h264_nvenc"@, "h264_qsv"@, "h264_videotoolbox"@, "h264_vaapi"@]
}

/// Arguments of a one-second trial encode of a black picture with `codec`.
pub open spec fn encoder_trial(codec: Seq<char>) -> Seq<Seq<char>> {
    seq![
        "-v"@, "error"@, "-f"@, "lavfi"@, "-i"@, "color=c=black:s=128x128:r=1"@, "-c:v"@, codec,
        "-t"@, "0.5"@, "-f"@, "null"@, "-"@,
    ]
}

/// Arguments that write one frame at `offset` of `input` to `dest`.
pub open spec fn thumbnail_arg_list(input: Seq<char>, dest: Seq<char>, offset: Seq<char>) -> Seq<Seq<char>> {
    seq!["-ss"@, offset, "-i"@, input, "-vframes"@, "1"@, "-q:v"@, "2"@, "-y"@, dest]
}

/// Arguments that write a silent ten-second clip, 480 pixels wide, from
/// five minutes into `input`.
pub open spec fn preview_arg_list(input: Seq<char>, output: Seq<char>) -> Seq<Seq<char>> {
    seq![
        "-ss"@, "00:05:00"@, "-i"@, input, "-t"@, "10"@, "-vf"@, "scale=w=480:h=-2"@, "-c:v"@,
        "libx264"@, "-preset"@, "ultrafast"@, "-crf"@, "28"@, "-an"@, "-y"@, output,
    ]
}

/// Arguments of a whole-file HLS transcode with `encoder`.
pub open spec fn hls_stream_arg_list(
    input: Seq<char>,
    encoder: Seq<char>,
    segment_pattern: Seq<char>,
    playlist: Seq<char>,
) -> Seq<Seq<char>> {
    seq![
        "-i"@, input, "-c:v"@, encoder, "-preset"@, "ultrafast"@, "-crf"@, "22"@, "-c:a"@, "aac"@,
        "-b:a"@, "128k"@, "-ac"@, "2"@, "-f"@, "hls"@, "-hls_time"@, "4"@, "-hls_list_size"@, "0"@,
        "-hls_flags"@, "independent_segments"@, "-hls_segment_filename"@, segment_pattern, playlist,
    ]
}

fn own(s: &str) -> (r: String)
    ensures
        r@ == s@,
{
    String::from_str(s)
}

impl FfmpegEngine {
    /// The hardware encoders to try.
    pub fn encoder_candidates() -> (r: Vec<String>)
        ensures
            strs(r@) == encoder_candidates(),
    {
        let mut v: Vec<String> = Vec::new();
        let l = vec!["h264_v4l2m2m", "h264_nvenc", "h264_qsv", "h264_videotoolbox", "h264_vaapi"];
        push_lits(&mut v, l);
        assert(strs(v@) =~= encoder_candidates());
        v
    }

    /// Arguments of the trial encode that tells whether `codec` works.
    pub fn encoder_trial_args(codec: &str) -> (r: Vec<String>)
        ensures
            strs(r@) == encoder_trial(codec@),
    {
        let mut v: Vec<String> = Vec::new();
        push_lits(&mut v, vec!["-v", "error", "-f", "lavfi", "-i", "color=c=black:s=128x128:r=1", "-c:v"]);
        push_arg(&mut v, own(codec));
        push_lits(&mut v, vec!["-t", "0.5", "-f", "null", "-"]);
        assert(strs(v@) =~= encoder_trial(codec@));
        v
    }

    /// Arguments that extract one frame at `time_offset` of `input_path`
    /// into `dest_path`.
    pub fn thumbnail_args(input_path: &str, dest_path: &str, time_offset: &str) -> (r: Vec<String>)
        ensures
            strs(r@) == thumbnail_arg_list(input_path@, dest_path@, time_offset@),
    {
        let mut v: Vec<String> = Vec::new();
        push_lits(&mut v, vec!["-ss"]);
        push_arg(&mut v, own(time_offset));
        push_lits(&mut v, vec!["-i"]);
        push_arg(&mut v, own(input_path));
        push_lits(&mut v, vec!["-vframes", "1", "-q:v", "2", "-y"]);
        push_arg(&mut v, own(dest_path));
        assert(strs(v@) =~= thumbnail_arg_list(input_path@, dest_path@, time_offset@));
        v
    }

    /// Arguments that write the preview clip of `input_path` to
    /// `output_path`.
    pub fn preview_args(input_path: &str, output_path: &str) -> (r: Vec<String>)
        ensures
            strs(r@) == preview_arg_list(input_path@, output_path@),
    {
        let mut v: Vec<String> = Vec::new();
        push_lits(&mut v, vec!["-ss", "00:05:00", "-i"]);
        push_arg(&mut v, own(input_path));
        push_lits(
            &mut v,
            vec![
                "-t", "10", "-vf", "scale=w=480:h=-2", "-c:v", "libx264", "-preset", "ultrafast",
                "-crf", "28", "-an", "-y",
            ],
        );
        push_arg(&mut v, own(output_path));
        assert(strs(v@) =~= preview_arg_list(input_path@, output_path@));
        v
    }

    /// Arguments of the whole-file HLS transcode of `input_path` with
    /// `encoder`, segments named by `segment_pattern`, into `playlist`.
    pub fn hls_stream_args(
        input_path: &str,
        encoder: &str,
        segment_pattern: &str,
        playlist: &str,
    ) -> (r: Vec<String>)
        ensures
            strs(r@) == hls_stream_arg_list(input_path@, encoder@, segment_pattern@, playlist@),
    {
        let mut v: Vec<String> = Vec::new();
        push_lits(&mut v, vec!["-i"]);
        push_arg(&mut v, own(input_path));
        push_lits(&mut v, vec!["-c:v"]);
        push_arg(&mut v, own(encoder));
        push_lits(
            &mut v,
            vec![
                "-preset", "ultrafast", "-crf", "22", "-c:a", "aac", "-b:a", "128k", "-ac", "2",
                "-f", "hls", "-hls_time", "4", "-hls_list_size", "0", "-hls_flags",
                "independent_segments", "-hls_segment_filename",
            ],
        );
        push_arg(&mut v, own(segment_pattern));
        push_arg(&mut v, own(playlist));
        assert(strs(v@) =~= hls_stream_arg_list(input_path@, encoder@, segment_pattern@, playlist@));
        v
    }

    /// Where thumbnail `i` (of the 100 of a seek sprite) sits in the 10 by
    /// 10 grid of 160 by 90 tiles.
    pub fn sprite_tile(i: u32) -> (r: (u32, u32))
        requires
            i < 100,
        ensures
            r.0 == (i % 10) * 160,
            r.1 == (i / 10) * 90,
    {
        ((i % 10) * 160, (i / 10) * 90)
    }
}

} // verus!
