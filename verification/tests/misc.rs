use media_core::config::{get_ffmpeg_path, get_ffprobe_path, set_ffmpeg_path, set_ffprobe_path, ToolPaths};
use media_core::exporter::Exporter;
use media_core::maintenance::MaintenanceEngine;
use media_core::models::{LibraryId, MediaStatus, Movie, MovieId, Resolution, TaskUpdate};
use media_core::notifications::{discord_payload, webhook_color};
use media_core::paths::{download_target_is_folder, canonicalize_string, make_absolute, make_relative, normalize_slashes};
use media_core::renamer::{companion_file_name, Renamer};
use media_core::server::{is_safari_lower, artwork_mime_type, duration_for_playlist, needs_duration_probe, is_safari, parse_stream_id, segment_index_of, stream_id_for, stream_mime_type, StreamKind};

fn movie(id: i64, title: &str, year: Option<i32>, status: MediaStatus, rating: Option<&str>) -> Movie {
    Movie {
        id: MovieId(id),
        library_id: LibraryId(1),
        title: title.to_string(),
        year,
        tmdb_id: None,
        imdb_id: None,
        status,
        plot: None,
        rating: rating.map(|r| r.to_string()),
        poster_url: None,
        backdrop_url: None,
        tagline: None,
        runtime: None,
        genres: None,
        language: None,
        cast_list: None,
        preview_path: None,
        nfo_path: None,
        codec: None,
        video_codec: None,
        audio_codec: None,
        hash: None,
        created_at: String::new(),
        updated_at: String::new(),
    }
}

#[test]
fn renamer_fills_templates() {
    let r = Renamer::new(None, None);
    assert_eq!(r.folder_template, "${title} (${year})");
    let m = movie(1, "Alien: Covenant", Some(2017), MediaStatus::Matched, None);
    let (folder, file) = r.generate_paths(&m, "/in/alien.MP4", Some(Resolution::R1080p), None);
    assert_eq!(folder, "Alien Covenant (2017)");
    assert_eq!(file, "Alien Covenant (2017) [1080p].MP4");
    let m2 = movie(1, "Alien", None, MediaStatus::Matched, None);
    let (folder, file) = r.generate_paths(&m2, "/in/alien", None, None);
    assert_eq!(folder, "Alien");
    assert_eq!(file, "Alien.mkv");
    let custom = Renamer::new(Some("${title}".to_string()), Some("${title}.${codec}".to_string()));
    let (_, file) = custom.generate_paths(&m2, "a.avi", None, Some("x265"));
    assert_eq!(file, "Alien.x265.avi");
    assert_eq!(r.resolution_to_name(None), "");
    assert_eq!(r.clean_placeholders("A  ( )  [\t] B".to_string()), "A B");
}

#[test]
fn exports_list_every_movie() {
    let ms = vec![
        movie(1, "A", Some(2001), MediaStatus::Matched, Some("7.5")),
        movie(2, "B", None, MediaStatus::Unmatched, None),
    ];
    assert_eq!(
        Exporter::to_csv(&ms),
        "ID,Title,Year,Status,IMDB ID,TMDB ID,Rating\n1,\"A\",2001,matched,,,7.5\n2,\"B\",,unmatched,,,\n"
    );
    let html = Exporter::to_html(&ms);
    assert!(html.contains("<tr><td><strong>A</strong></td><td>2001</td><td>7.5</td><td><span class=\"matched\">matched</span></td></tr>"));
    assert!(html.contains("<tr><td><strong>B</strong></td><td>\u{2014}</td><td>\u{2014}</td><td><span class=\"unmatched\">unmatched</span></td></tr>"));
    assert!(html.ends_with("</tbody></table></body></html>"));
}

#[test]
fn webhook_payload_reports_task() {
    let t = TaskUpdate {
        task_id: "t1".to_string(),
        status: "completed".to_string(),
        progress: 3,
        total: 4,
        message: "done".to_string(),
        started_at: None,
        debug_info: None,
    };
    let p = discord_payload(&t);
    assert_eq!(p.content, "Task Update: t1");
    let e = &p.embeds.as_ref().unwrap()[0];
    assert_eq!(e.title, "Status: completed");
    assert_eq!(e.description, "Message: done\nProgress: 3/4");
    assert_eq!(e.color, 0x00FF00);
    assert_eq!(webhook_color("error"), 0xFF0000);
    assert_eq!(webhook_color("running"), 0x0000FF);
}

#[test]
fn stream_requests_are_read() {
    assert_eq!(parse_stream_id("movie_file_7"), (StreamKind::MovieFile, 7));
    assert_eq!(parse_stream_id("movie_3"), (StreamKind::Movie, 3));
    assert_eq!(parse_stream_id("episode_x"), (StreamKind::Episode, 0));
    assert_eq!(parse_stream_id("show_1"), (StreamKind::Unknown, 0));
    assert_eq!(stream_id_for("movie", 5), "movie_5");
    assert_eq!(stream_id_for("episode", 5), "episode_5");
    assert_eq!(segment_index_of("seg_012.ts"), Some(12));
    assert_eq!(segment_index_of("other.ts"), Some(0));
    assert_eq!(segment_index_of("chunk-stream0-00003.webm"), Some(2));
    assert_eq!(segment_index_of("chunk-stream0-00000.webm"), Some(0));
    assert_eq!(segment_index_of("playlist.m3u8"), None);
    assert_eq!(stream_mime_type("playlist.m3u8"), "application/vnd.apple.mpegurl");
    assert_eq!(stream_mime_type("seg_001.ts"), "video/mp2t");
    assert_eq!(stream_mime_type("x.bin"), "application/octet-stream");
    assert!(is_safari(Some("Mozilla/5.0 (Macintosh) AppleWebKit Version/17 Safari/605")));
    assert!(!is_safari(Some("Mozilla/5.0 Chrome/120 Safari/537")));
    assert!(!is_safari(None));
}

#[test]
fn maintenance_names() {
    assert_eq!(MaintenanceEngine::backup_file_name("20240101_120000"), "mediavault_backup_20240101_120000.zip");
    assert_eq!(MaintenanceEngine::temp_db_file_name("x"), "temp_backup_x.db");
    assert_eq!(MaintenanceEngine::vacuum_into_query("C:\\b\\t.db"), "VACUUM INTO 'C:/b/t.db'");
    assert_eq!(MaintenanceEngine::release_version(Some("vv1.2.0")), "1.2.0");
    assert_eq!(MaintenanceEngine::release_version(None), "unknown");
}

#[test]
fn tool_paths_read_back_what_was_set() {
    let mut p = ToolPaths::new();
    assert_eq!(get_ffmpeg_path(&p), "ffmpeg");
    assert_eq!(get_ffprobe_path(&p), "ffprobe");
    set_ffmpeg_path(&mut p, "/opt/ffmpeg".to_string());
    set_ffprobe_path(&mut p, "/opt/ffprobe".to_string());
    assert_eq!(get_ffmpeg_path(&p), "/opt/ffmpeg");
    assert_eq!(get_ffprobe_path(&p), "/opt/ffprobe");
}

#[test]
fn paths_relative_and_absolute() {
    assert_eq!(normalize_slashes("a\\b\\c"), "a/b/c");
    assert_eq!(make_relative("/lib/movies/a.mkv", "/lib").unwrap(), "movies/a.mkv");
    assert!(make_relative("/other/a.mkv", "/lib").is_err());
    assert_eq!(make_absolute("movies/a.mkv", "/lib"), "/lib/movies/a.mkv");
    assert_eq!(make_absolute("/abs/a.mkv", "/lib"), "/abs/a.mkv");
    assert_eq!(canonicalize_string("/lib/movies/"), "/lib/movies");
}

#[test]
fn playlist_duration_prefers_stored_then_probed() {
    assert!(!needs_duration_probe(Some(120)));
    assert!(needs_duration_probe(Some(0)));
    assert!(needs_duration_probe(None));
    assert_eq!(duration_for_playlist(Some(120), Some(50)), Some(120));
    assert_eq!(duration_for_playlist(Some(0), Some(50)), Some(50));
    assert_eq!(duration_for_playlist(None, Some(50)), Some(50));
    assert_eq!(duration_for_playlist(Some(0), None), Some(0));
    assert_eq!(duration_for_playlist(None, Some(0)), None);
}

#[test]
fn companion_files_follow_a_renamed_movie() {
    assert_eq!(companion_file_name("heat.srt", "heat", "Heat (1995)"), Some("Heat (1995).srt".to_string()));
    assert_eq!(companion_file_name("heat-heat.nfo", "heat", "H"), Some("H-H.nfo".to_string()));
    assert_eq!(companion_file_name("other.srt", "heat", "H"), None);
    assert_eq!(companion_file_name("he", "heat", "H"), None);
    assert_eq!(companion_file_name("ab", "", "X"), Some("XaXbX".to_string()));
}

#[test]
fn local_artwork_content_types() {
    assert_eq!(artwork_mime_type("/m/poster.png"), "image/png");
    assert_eq!(artwork_mime_type("/g/preview.mp4"), "video/mp4");
    assert_eq!(artwork_mime_type("/g/a.webm"), "video/webm");
    assert_eq!(artwork_mime_type("/g/sprite.webp"), "image/webp");
    assert_eq!(artwork_mime_type("/g/logo.svg"), "image/svg+xml");
    assert_eq!(artwork_mime_type("/m/poster.jpg"), "image/jpeg");
    assert_eq!(artwork_mime_type("/m/poster.PNG"), "image/jpeg");
}

#[test]
fn download_destinations() {
    assert!(download_target_is_folder("/home/u/Movies/", false));
    assert!(download_target_is_folder("C:\\Movies\\", false));
    assert!(download_target_is_folder("/home/u/Movies", false));
    assert!(download_target_is_folder("/home/u/a.mkv", true));
    assert!(!download_target_is_folder("/home/u/a.mkv", false));
}

#[test]
fn relative_paths_come_back_absolute() {
    for (full, root) in [
        ("/lib/movies/Heat (1995)/Heat.mkv", "/lib"),
        ("/lib/movies/a.mkv", "/lib/"),
        ("lib//movies/./a.mkv", "lib"),
        ("/srv/media/tv/Show/S01/e1.mkv", "/srv/media"),
    ] {
        let rel = make_relative(full, root).unwrap();
        let back = make_absolute(&rel, root);
        assert_eq!(
            std::path::Path::new(&back).components().collect::<Vec<_>>(),
            std::path::Path::new(full).components().collect::<Vec<_>>()
        );
    }
}

#[test]
fn sanitized_names_and_canonical_paths() {
    let r = Renamer::new(None, None);
    let name = r.sanitize("  What? If: <A|B> \\/ \"Q\"*  ");
    assert_eq!(name, "What If AB  Q");
    assert!(!name.chars().any(|c| "\\/*?:\"<>|".contains(c)));
    assert_eq!(canonicalize_string("/lib/"), "/lib");
    assert_eq!(canonicalize_string("/"), "/");
    assert_eq!(canonicalize_string("a\\b\\"), "a/b");
    assert_eq!(canonicalize_string("a//"), "a");
    assert_eq!(canonicalize_string("///"), "/");
    assert_eq!(canonicalize_string("C:\\media\\\\"), "C:/media");
}

#[test]
fn lowered_user_agents() {
    assert!(is_safari_lower("mozilla/5.0 (macintosh) version/17.0 safari/605.1.15"));
    assert!(!is_safari_lower("mozilla/5.0 chrome/120.0 safari/537.36"));
    assert!(!is_safari_lower("Mozilla/5.0 Safari/605"));
}

#[test]
fn task_reports_carry_their_start() {
    let t = TaskUpdate::with_start("t1".to_string(), "running".to_string(), 3, 10, "Scanning".to_string(), 1_700_000_000_123);
    assert_eq!(t.started_at, Some(1_700_000_000_123));
    assert_eq!((t.progress, t.total), (3, 10));
    assert!(t.debug_info.is_none());
    let n = TaskUpdate::new("t2".to_string(), "queued".to_string(), 0, 0, String::new());
    assert!(n.started_at.unwrap() > 1_600_000_000_000);
}

#[test]
fn resolution_names_read_back() {
    for r in [Resolution::R2160p, Resolution::R1080p, Resolution::R720p, Resolution::R576p, Resolution::R480p, Resolution::Imax] {
        assert_eq!(Resolution::parse_name(r.as_str()), Some(r));
        assert_eq!(Resolution::parse_name(&r.as_str().to_uppercase()), Some(r));
    }
    assert_eq!(Resolution::parse_name("1080"), None);
    assert_eq!(Resolution::parse_name("IMAX "), None);
}

#[test]
fn sanitizing_settles() {
    let r = Renamer::new(None, None);
    let once = r.sanitize("  AC/DC: Live?  ");
    assert_eq!(once, "ACDC Live");
    assert_eq!(r.sanitize(&once), once);
    assert_eq!(once.trim(), once);
}
