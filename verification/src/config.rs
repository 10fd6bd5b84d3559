//! Where the external tools are found, and the settings of a running core.
use vstd::prelude::*;

verus! {

/// Paths of the tools and of the transcoding folder.
#[derive(Clone, Debug)]
pub struct AppConfig {
    pub ffmpeg_path: String,
    pub ffprobe_path: String,
    pub hls_transcode_dir: String,
}

/// The paths under which `ffmpeg` and `ffprobe` are run.
#[derive(Clone, Debug)]
pub struct ToolPaths {
    pub ffmpeg: String,
    pub ffprobe: String,
}

impl ToolPaths {
    /// The tools found on the search path: `ffmpeg` and `ffprobe`.
    pub fn new() -> (r: Self)
        ensures
            r.ffmpeg@ == "ffmpeg"@,
            r.ffprobe@ == "ffprobe"@,
    {
        ToolPaths { ffmpeg: String::from_str("ffmpeg"), ffprobe: String::from_str("ffprobe") }
    }
}

/// Sets the path of `ffmpeg`; `ffprobe`'s is kept.
pub fn set_ffmpeg_path(paths: &mut ToolPaths, path: String)
    ensures
        final(paths).ffmpeg@ == path@,
        final(paths).ffprobe@ == old(paths).ffprobe@,
{
    paths.ffmpeg = path;
}

/// The path of `ffmpeg`.
pub fn get_ffmpeg_path(paths: &ToolPaths) -> (r: String)
    ensures
        r@ == paths.ffmpeg@,
{
    paths.ffmpeg.clone()
}

/// Sets the path of `ffprobe`; `ffmpeg`'s is kept.
pub fn set_ffprobe_path(paths: &mut ToolPaths, path: String)
    ensures
        final(paths).ffprobe@ == path@,
        final(paths).ffmpeg@ == old(paths).ffmpeg@,
{
    paths.ffprobe = path;
}

/// The path of `ffprobe`.
pub fn get_ffprobe_path(paths: &ToolPaths) -> (r: String)
    ensures
        r@ == paths.ffprobe@,
{
    paths.ffprobe.clone()
}

/// A read of a tool path gives back what the last write of that path wrote,
/// whatever was written to the other path in between.
pub proof fn lemma_tool_path_read_after_write(
    start: ToolPaths,
    after_ffmpeg: ToolPaths,
    after_both: ToolPaths,
    ffmpeg: Seq<char>,
    ffprobe: Seq<char>,
)
    requires
        after_ffmpeg.ffmpeg@ == ffmpeg,
        after_ffmpeg.ffprobe@ == start.ffprobe@,
        after_both.ffprobe@ == ffprobe,
        after_both.ffmpeg@ == after_ffmpeg.ffmpeg@,
    ensures
        after_both.ffmpeg@ == ffmpeg,
        after_both.ffprobe@ == ffprobe,
{
}

} // verus!
