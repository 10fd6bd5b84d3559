use media_core::streaming::{manifest_path, segment_path, RequestOutcome, StreamRegistry};
use media_core::server::{plan_stream, plan_stream_given, StreamRoute};
use media_core::ffmpeg::{FfmpegEngine, StreamStrategy};
use media_core::mediainfo::MediaDetails;
use media_core::streaming::{
    generate_hls_manifest, is_direct_playable, restart_pending_for, segment_complete,
    session_fate, session_is_dash, SegmentStep, SegmentWindow, SessionFate, TranscodeSettings,
};

fn details(width: i32, height: i32, video: &str, audio: &str) -> MediaDetails {
    let mut d = MediaDetails::default();
    d.width = width;
    d.height = height;
    d.video_codec = video.to_string();
    d.audio_codec = audio.to_string();
    d.audio_channels = 2;
    d.size_bytes = 1000;
    d.duration_secs = 100;
    d
}

fn settings(encoder: &str, decoders: &[&str]) -> TranscodeSettings {
    TranscodeSettings {
        hw_encoder: encoder.to_string(),
        hw_decoders: decoders.iter().map(|d| d.to_string()).collect(),
    }
}

#[test]
fn test_generate_hls_manifest() {
    let duration = 25;
    let manifest = generate_hls_manifest(duration);

    assert!(manifest.contains("#EXTM3U"));
    assert!(manifest.contains("#EXT-X-PLAYLIST-TYPE:VOD"));
    assert!(manifest.contains("#EXTINF:2.0,\nseg_000.ts"));
    assert!(manifest.contains("#EXTINF:2.0,\nseg_001.ts"));
    assert!(manifest.contains("#EXT-X-ENDLIST"));
}

#[test]
fn hls_manifest_exact_for_five_seconds() {
    assert_eq!(
        generate_hls_manifest(5),
        "#EXTM3U\n#EXT-X-VERSION:3\n#EXT-X-TARGETDURATION:3\n#EXT-X-MEDIA-SEQUENCE:0\n#EXT-X-PLAYLIST-TYPE:VOD\n\
#EXTINF:2.0,\nseg_000.ts\n#EXTINF:2.0,\nseg_001.ts\n#EXTINF:1.0,\nseg_002.ts\n#EXT-X-ENDLIST\n"
    );
}

#[test]
fn hls_manifest_segments_cover_duration() {
    let m = generate_hls_manifest(25);
    assert_eq!(m.matches("#EXTINF:").count(), 13);
    assert_eq!(m.matches("#EXTINF:2.0,").count(), 12);
    assert!(m.contains("#EXTINF:1.0,\nseg_012.ts"));
}

#[test]
fn hls_manifest_empty_for_no_duration() {
    let m = generate_hls_manifest(0);
    assert!(!m.contains("#EXTINF"));
    assert!(m.ends_with("#EXT-X-ENDLIST\n"));
    assert!(!generate_hls_manifest(-3).contains("#EXTINF"));
}

#[test]
fn test_build_ffmpeg_args_smart_remux() {
    let manager = settings("libx264", &[]);
    let details = details(1920, 1080, "h264", "aac");
    let args = manager.build_ffmpeg_args("input.mp4", &details, 0, "playlist.m3u8", "tmp", false);

    let hls_seg_idx = args.iter().position(|r| r == "-hls_segment_filename").unwrap() + 1;
    assert!(args[hls_seg_idx].contains(".seg_"));

    let v_codec_idx = args.iter().position(|r| r == "-c:v").unwrap() + 1;
    assert_eq!(args[v_codec_idx], "copy");
    let a_codec_idx = args.iter().position(|r| r == "-c:a").unwrap() + 1;
    assert_eq!(args[a_codec_idx], "copy");

    assert!(!args.contains(&"-pix_fmt".to_string()));
    assert!(!args.contains(&"-preset".to_string()));
    assert!(!args.contains(&"-crf".to_string()));
    assert!(!args.contains(&"-b:a".to_string()));
    assert!(!args.contains(&"-ac".to_string()));
    assert!(!args.contains(&"-force_key_frames".to_string()));
}

#[test]
fn test_build_ffmpeg_args_full_transcode() {
    let manager = settings("libx264", &[]);
    let details = details(1920, 1080, "hevc", "ac3");
    let args = manager.build_ffmpeg_args("input.mp4", &details, 0, "playlist.m3u8", "tmp", false);

    let hls_seg_idx = args.iter().position(|r| r == "-hls_segment_filename").unwrap() + 1;
    assert!(args[hls_seg_idx].contains(".seg_"));

    let v_codec_idx = args.iter().rposition(|r| r == "-c:v").unwrap() + 1;
    assert_eq!(args[v_codec_idx], "libx264");
    let a_codec_idx = args.iter().position(|r| r == "-c:a").unwrap() + 1;
    assert_eq!(args[a_codec_idx], "aac");

    assert!(args.contains(&"-pix_fmt".to_string()));
    assert!(args.contains(&"-preset".to_string()));
    assert!(args.contains(&"-crf".to_string()));
    assert!(args.contains(&"-b:a".to_string()));
    assert!(args.contains(&"-ac".to_string()));
    assert!(args.contains(&"-force_key_frames".to_string()));
}

#[test]
fn test_build_ffmpeg_args_hw_accel_pi4() {
    let manager = settings("h264_v4l2m2m", &["h264_v4l2m2m", "hevc_v4l2m2m"]);
    let details = details(1921, 1081, "hevc", "mp3");
    let args = manager.build_ffmpeg_args("input.mkv", &details, 0, "playlist.m3u8", "tmp", false);

    let i_idx = args.iter().position(|r| r == "-i").unwrap();
    let decoder_idx = args.iter().position(|r| r == "hevc_v4l2m2m").expect("Hardware decoder missing");
    assert!(decoder_idx < i_idx, "Hardware decoder must be before -i");
    assert_eq!(args[decoder_idx - 1], "-c:v");

    let v_codec_idx = args.iter().rposition(|r| r == "-c:v").unwrap() + 1;
    assert_eq!(args[v_codec_idx], "h264_v4l2m2m");

    let vf_idx = args.iter().position(|r| r == "-vf").expect("Scaling filter missing") + 1;
    assert_eq!(args[vf_idx], "scale_v4l2m2m=1280:-1");
}

#[test]
fn test_build_direct_args() {
    let manager = settings("libx264", &[]);
    let details = details(1920, 1080, "h264", "aac");

    let args = manager.build_direct_args("input.mkv", &details, 10_500, "mkv");
    assert!(args.contains(&"-ss".to_string()));
    assert!(args.contains(&"10.500".to_string()));
    assert!(args.contains(&"matroska".to_string()));
    let v_codec_idx = args.iter().rposition(|r| r == "-c:v").unwrap() + 1;
    assert_eq!(args[v_codec_idx], "copy");

    let args = manager.build_direct_args("input.mkv", &details, 0, "mp4");
    assert!(args.contains(&"mp4".to_string()));
    assert!(args.contains(&"-movflags".to_string()));
    assert!(args.contains(&"frag_keyframe+empty_moov+default_base_moof".to_string()));

    let args = manager.build_direct_args("input.mkv", &details, 0, "webm");
    assert!(args.contains(&"webm".to_string()));
    let v_codec_idx = args.iter().rposition(|r| r == "-c:v").unwrap() + 1;
    assert_eq!(args[v_codec_idx], "libvpx-vp9");
}

#[test]
fn hls_args_exact_for_copied_streams() {
    let manager = settings("libx264", &[]);
    let details = details(1920, 1080, "h264", "aac");
    let args = manager.build_ffmpeg_args("in.mp4", &details, 3, "/t/x/playlist.m3u8", "/t/x", false);
    let expected: Vec<&str> = vec![
        "-loglevel", "info", "-probesize", "50000000", "-analyzeduration", "50000000",
        "-ss", "6", "-i", "in.mp4", "-map", "0:v:0", "-map", "0:a:0?", "-sn", "-dn",
        "-c:v", "copy", "-c:a", "copy",
        "-copyts", "-f", "hls", "-max_muxing_queue_size", "1024", "-hls_time", "2",
        "-hls_list_size", "0", "-hls_flags", "split_by_time", "-hls_playlist_type", "vod",
        "-avoid_negative_ts", "disabled",
        "-start_number", "3", "-hls_segment_type", "mpegts", "-hls_segment_filename",
        "/t/x/.seg_%03d.ts", "/t/x/playlist.m3u8",
    ];
    assert_eq!(args, expected);
}

#[test]
fn dash_args_name_hidden_headers_when_resuming() {
    let manager = settings("libx264", &["h264_cuvid"]);
    let details = details(1280, 720, "h264", "aac");
    let args = manager.build_ffmpeg_args("in.mkv", &details, 2, "", "/out", true);
    assert_eq!(&args[6..8], &["-c:v".to_string(), "h264_cuvid".to_string()]);
    assert!(args.contains(&"20".to_string()));
    assert!(args.contains(&"1280x720".to_string()));
    assert!(args.contains(&"/out/.init-stream0.webm".to_string()));
    assert!(args.contains(&"/out/.init-stream1.webm".to_string()));
    assert!(args.contains(&"/out/.chunk-stream0-%05d.webm".to_string()));
    assert_eq!(args.iter().filter(|a| *a == "3").count(), 2);
    let fresh = manager.build_dash_args("in.mkv", &details, 0, "/out");
    assert!(fresh.contains(&"/out/init-stream0.webm".to_string()));
}

#[test]
fn direct_args_transcode_audio_per_container() {
    let manager = settings("libx264", &[]);
    let d = details(1920, 1080, "hevc", "ac3");
    let mkv = manager.build_direct_args("in", &d, 0, "mkv");
    assert!(mkv.contains(&"libopus".to_string()) && mkv.contains(&"-vbr".to_string()));
    assert!(mkv.contains(&"libx264".to_string()));
    assert!(!mkv.contains(&"-ss".to_string()));
    let mp4 = manager.build_direct_args("in", &d, 1, "mp4");
    assert!(mp4.contains(&"0.001".to_string()));
    let a_idx = mp4.iter().position(|r| r == "-c:a").unwrap() + 1;
    assert_eq!(mp4[a_idx], "aac");
    assert_eq!(mp4.last().unwrap(), "pipe:1");
}

#[test]
fn hw_decoder_prefers_v4l2_then_cuda() {
    let both = vec!["h264_cuvid".to_string(), "h264_v4l2m2m".to_string()];
    assert_eq!(FfmpegEngine::get_hw_decoder("h264", &both), Some("h264_v4l2m2m".to_string()));
    let cuda = vec!["hevc_cuvid".to_string()];
    assert_eq!(FfmpegEngine::get_hw_decoder("hevc", &cuda), Some("hevc_cuvid".to_string()));
    assert_eq!(FfmpegEngine::get_hw_decoder("vp9", &both), None);
    assert_eq!(FfmpegEngine::get_hw_decoder("h264", &[]), None);
}

#[test]
fn stream_strategy_by_codecs() {
    assert_eq!(FfmpegEngine::get_stream_strategy(&details(1, 1, "h264", "aac")), StreamStrategy::DirectCopy);
    assert_eq!(
        FfmpegEngine::get_stream_strategy(&details(1, 1, "hevc", "mp3")),
        StreamStrategy::SmartRemux { video_copy: false, audio_copy: true }
    );
    assert_eq!(FfmpegEngine::get_stream_strategy(&details(1, 1, "vp9", "opus")), StreamStrategy::FullTranscode);
}

#[test]
fn decoders_found_in_listing_keep_preference_order() {
    let listing = " V..... hevc_cuvid   Nvidia\n V..... h264_qsv  QSV\n V..... h264_v4l2m2m V4L2\n";
    assert_eq!(
        FfmpegEngine::decoders_in_listing(listing),
        vec!["h264_v4l2m2m".to_string(), "hevc_cuvid".to_string(), "h264_qsv".to_string()]
    );
    assert_eq!(FfmpegEngine::choose_encoder(&[]), "libx264");
    assert_eq!(FfmpegEngine::choose_encoder(&["h264_nvenc".to_string()]), "h264_nvenc");
}

#[test]
fn direct_playback_needs_browser_codecs() {
    let ok = details(1920, 1080, "H264", "aac");
    assert!(is_direct_playable("/m/film.MP4", &ok));
    assert!(!is_direct_playable("/m/film.mkv", &ok));
    let webm = details(1920, 1080, "vp9", "aac");
    assert!(!is_direct_playable("/m/film.webm", &webm));
    let webm_ok = details(1920, 1080, "vp9", "opus");
    assert!(is_direct_playable("/m/film.webm", &webm_ok));
    let mut rotated = details(1920, 1080, "h264", "none");
    assert!(is_direct_playable("/m/film.mov", &rotated));
    rotated.rotation = 90;
    assert!(!is_direct_playable("/m/film.mov", &rotated));
}

#[test]
fn test_request_segment_logic() {
    let mut w = SegmentWindow::new(0);
    assert_eq!(w.request(0, true, true), SegmentStep::Ready);
    assert_eq!(w.request(1, false, true), SegmentStep::Wait);
    assert_eq!(w.last_requested_segment, 1);
    assert_eq!(w.request(100, false, true), SegmentStep::Restart);
    assert_eq!(w.last_requested_segment, 1);
    assert_eq!(w.request(2, false, false), SegmentStep::Restart);
    let mut later = SegmentWindow::new(10);
    assert_eq!(later.request(5, false, true), SegmentStep::Restart);
    assert_eq!(later.request(60, false, true), SegmentStep::Wait);
    assert_eq!(later.request(61, false, true), SegmentStep::Wait);
}

#[test]
fn test_transcoder_throttling() {
    assert_eq!(session_fate(0, Some(10), 0), SessionFate::Keep);
    assert_eq!(session_fate(0, Some(31), 0), SessionFate::Throttle);
    assert_eq!(session_fate(0, Some(30), 0), SessionFate::Keep);
    assert_eq!(session_fate(130_000_000_000, Some(31), 0), SessionFate::Destroy);
    assert_eq!(session_fate(120_000_000_000, None, 0), SessionFate::Keep);
    assert_eq!(session_fate(120_000_500_000, None, 0), SessionFate::Destroy);
    let mut reg = StreamRegistry::new();
    reg.install("test_session", "/media/a.mkv", 0, false);
    reg.register_client("test_session", "viewer");
    reg.install("other", "/media/b.mkv", 0, false);
    reg.destroy_session("test_session");
    assert!(reg.sessions.iter().all(|e| e.id != "test_session"));
    assert!(reg.viewers.iter().all(|(id, _)| id != "test_session"));
    assert_eq!(reg.sessions.len(), 1);
    assert!(segment_complete(Some(5), 4));
    assert!(!segment_complete(Some(4), 4));
    assert!(!segment_complete(None, 0));
    assert!(restart_pending_for(Some(3), 3));
    assert!(!restart_pending_for(Some(3), 4));
    assert!(session_is_dash("movie_1_dash"));
    assert!(!session_is_dash("movie_1"));
}

fn route_text(r: StreamRoute) -> String {
    match r {
        StreamRoute::Direct(u) => format!("direct {}", u),
        StreamRoute::Remux(u) => format!("remux {}", u),
        StreamRoute::PipedHls(u) => format!("piped {}", u),
        StreamRoute::Session { dash, url } => format!("session {} {}", dash, url),
        StreamRoute::NotFound => "not found".to_string(),
    }
}

#[test]
fn stream_requests_pick_a_tier() {
    let good = details(1920, 1080, "h264", "aac");
    let dts = details(1920, 1080, "H264", "dts");
    let mpeg2 = details(720, 576, "mpeg2video", "mp2");
    assert_eq!(route_text(plan_stream(None, "movie", 7, "/m/a.MP4", Some(&good))), "direct /api/stream/direct/movie/7?ext=MP4");
    assert_eq!(route_text(plan_stream(Some("jit"), "episode", 3, "/t/e.mkv", Some(&dts))), "remux /api/stream/direct/episode_3/stream.mkv");
    assert_eq!(route_text(plan_stream(Some("direct"), "movie_file", 9, "/m/a.avi", Some(&dts))), "remux /api/stream/direct/movie_file_9/stream.mp4");
    assert_eq!(route_text(plan_stream(None, "movie", 7, "/m/a.mpg", Some(&mpeg2))), "piped /api/stream/direct/movie_7/playlist.m3u8");
    assert_eq!(route_text(plan_stream(None, "movie", 7, "/m/a.mp4", None)), "piped /api/stream/direct/movie_7/playlist.m3u8");
    assert_eq!(route_text(plan_stream(Some("hls"), "movie", 7, "/m/a.mp4", None)), "session false /api/stream/hls/movie_7/playlist.m3u8");
    assert_eq!(route_text(plan_stream(Some("dash"), "episode", 2, "/t/e.mkv", None)), "session true /api/stream/dash/episode_2/manifest.mpd");
    assert_eq!(route_text(plan_stream(Some("rtsp"), "movie", 7, "/m/a.mp4", None)), "not found");
}

#[test]
fn stream_tiers_from_probe_results() {
    assert_eq!(route_text(plan_stream_given(None, "movie", 1, "/m/a.MKV", false, Some("hevc"), "mkv")), "remux /api/stream/direct/movie_1/stream.mkv");
    assert_eq!(route_text(plan_stream_given(None, "movie", 1, "/m/a.MKV", false, Some("HEVC"), "mkv")), "piped /api/stream/direct/movie_1/playlist.m3u8");
    assert_eq!(route_text(plan_stream_given(None, "movie", 1, "/m/a", true, None, "mp4")), "direct /api/stream/direct/movie/1?ext=mp4");
}

#[test]
fn registry_restarts_once_and_forgets_finished_restarts() {
    let mut reg = StreamRegistry::new();
    assert_eq!(reg.request("movie_1", 5, false, false), RequestOutcome::Restart { is_dash: false });
    assert_eq!(reg.request("movie_1", 5, false, false), RequestOutcome::AlreadyRestarting);
    assert_eq!(reg.request("movie_1_dash", 0, false, false), RequestOutcome::Restart { is_dash: true });
    reg.install("movie_1", "/media/movie.mkv", 5, false);
    assert_eq!(reg.sessions[0].input_path, "/media/movie.mkv");
    reg.finish_restart("movie_1");
    assert!(reg.pending.iter().all(|(id, _)| id != "movie_1"));
    assert_eq!(reg.pending.len(), 1);
    assert_eq!(reg.request("movie_1", 6, false, true), RequestOutcome::Served);
    assert_eq!(reg.sessions[0].window.last_requested_segment, 6);
    assert_eq!(reg.request("movie_1", 3, true, false), RequestOutcome::Served);
    assert_eq!(reg.request("movie_1", 2, false, true), RequestOutcome::Restart { is_dash: false });
    assert_eq!(reg.request("movie_1", 60, false, true), RequestOutcome::Restart { is_dash: false });
    reg.finish_restart("movie_1");
    reg.finish_restart("movie_1_dash");
    assert!(reg.pending.is_empty());
}

#[test]
fn viewers_come_and_go() {
    let mut reg = StreamRegistry::new();
    assert!(!reg.unregister_client("s", "a"));
    reg.register_client("s", "a");
    reg.register_client("s", "b");
    reg.register_client("s", "a");
    assert_eq!(reg.viewers[0].1, vec!["a".to_string(), "b".to_string()]);
    assert!(!reg.unregister_client("s", "a"));
    assert!(reg.unregister_client("s", "b"));
    assert!(reg.unregister_client("s", "b"));
}

#[test]
fn stream_files_live_under_the_stream_folder() {
    assert_eq!(manifest_path("/tmp/streams", "movie_7", false), "/tmp/streams/movie_7/playlist.m3u8");
    assert_eq!(manifest_path("/tmp/streams/", "movie_7_dash", true), "/tmp/streams/movie_7_dash/manifest.mpd");
    assert_eq!(segment_path("/tmp/streams", "movie_7", "seg_003.ts"), "/tmp/streams/movie_7/seg_003.ts");
}
