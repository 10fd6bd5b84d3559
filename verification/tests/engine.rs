use media_core::ffmpeg::FfmpegEngine;

fn v(x: &[&str]) -> Vec<String> {
    x.iter().map(|s| s.to_string()).collect()
}

#[test]
fn thumbnail_and_preview_arguments() {
    assert_eq!(
        FfmpegEngine::thumbnail_args("/m/a.mkv", "/g/t.jpg", "00:00:10"),
        v(&["-ss", "00:00:10", "-i", "/m/a.mkv", "-vframes", "1", "-q:v", "2", "-y", "/g/t.jpg"])
    );
    assert_eq!(
        FfmpegEngine::preview_args("/m/a.mkv", "/g/p.mp4"),
        v(&[
            "-ss", "00:05:00", "-i", "/m/a.mkv", "-t", "10", "-vf", "scale=w=480:h=-2", "-c:v", "libx264",
            "-preset", "ultrafast", "-crf", "28", "-an", "-y", "/g/p.mp4",
        ])
    );
}

#[test]
fn hls_transcode_and_trial_arguments() {
    assert_eq!(
        FfmpegEngine::hls_stream_args("/m/a.mkv", "h264_nvenc", "/o/seg_%03d.ts", "/o/playlist.m3u8"),
        v(&[
            "-i", "/m/a.mkv", "-c:v", "h264_nvenc", "-preset", "ultrafast", "-crf", "22", "-c:a", "aac",
            "-b:a", "128k", "-ac", "2", "-f", "hls", "-hls_time", "4", "-hls_list_size", "0",
            "-hls_flags", "independent_segments", "-hls_segment_filename", "/o/seg_%03d.ts",
            "/o/playlist.m3u8",
        ])
    );
    assert_eq!(
        FfmpegEngine::encoder_trial_args("h264_qsv"),
        v(&[
            "-v", "error", "-f", "lavfi", "-i", "color=c=black:s=128x128:r=1", "-c:v", "h264_qsv", "-t",
            "0.5", "-f", "null", "-",
        ])
    );
    assert_eq!(
        FfmpegEngine::encoder_candidates(),
        v(&["h264_v4l2m2m", "h264_nvenc", "h264_qsv", "h264_videotoolbox", "h264_vaapi"])
    );
}

#[test]
fn sprite_tiles_fill_a_ten_by_ten_grid() {
    assert_eq!(FfmpegEngine::sprite_tile(0), (0, 0));
    assert_eq!(FfmpegEngine::sprite_tile(13), (480, 90));
    assert_eq!(FfmpegEngine::sprite_tile(99), (1440, 810));
}
