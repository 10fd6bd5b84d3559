use media_core::analysis::{
    generated_assets, library_episode_message, library_movie_message, show_episode_message,
    stored_fingerprint,
};
use media_core::hash::oshash_hex;
use media_core::subtitle_search::{begin_subtitle_search, subtitle_api_key, SearchAction, SearchEvent, SearchStage, SubtitleSearch};
use media_core::watchdog::{is_watched_video, library_for_path};

fn s(x: &str) -> String {
    x.to_string()
}

#[test]
fn generated_asset_records() {
    let r = generated_assets("abc");
    assert_eq!(
        r,
        vec![
            (s("thumb"), s("abc/thumb.jpg")),
            (s("sprite"), s("abc/sprite.webp")),
            (s("vtt"), s("abc/sprite.vtt")),
            (s("preview"), s("abc/preview.mp4")),
        ]
    );
}

#[test]
fn stored_fingerprint_is_reused_unless_empty() {
    assert_eq!(stored_fingerprint(Some("00ff")), Some(s("00ff")));
    assert_eq!(stored_fingerprint(Some("")), None);
    assert_eq!(stored_fingerprint(None), None);
}

#[test]
fn analysis_progress_messages() {
    assert_eq!(library_movie_message(0, 12), "Movies: 1/12");
    assert_eq!(library_episode_message(1, 3, 9, 10), "Show 2/3, Ep 10/10");
    assert_eq!(show_episode_message(4, 5), "Analyzing Ep 5/5");
}

#[test]
fn oshash_of_small_and_large_files() {
    assert_eq!(oshash_hex(100, &[], &[]), "0000000000000064");
    let zeros = vec![0u8; 65536];
    assert_eq!(oshash_hex(131072, &zeros, &zeros), "0000000000020000");
    let mut head = vec![0u8; 65536];
    head[0] = 1;
    let mut tail = vec![0u8; 65536];
    tail[8] = 2;
    assert_eq!(oshash_hex(131072, &head, &tail), "0000000000020003");
    let ones = vec![0xffu8; 65536];
    assert_eq!(oshash_hex(131072, &ones, &zeros), "000000000001e000");
}

#[test]
fn subtitle_search_tries_hash_then_imdb() {
    let mut m = SubtitleSearch::new();
    let a = m.step(SearchEvent::Begin { title: s("Heat"), hash: Some(s("h1")), imdb_id: Some(s("tt1")) });
    match a {
        SearchAction::QueryHash { hash, message, debug } => {
            assert_eq!(hash, "h1");
            assert_eq!(message, "Searching subtitles for: Heat");
            assert_eq!(debug, "Querying OpenSubtitles by Hash: h1");
        }
        _ => panic!("expected a search by hash"),
    }
    match m.step(SearchEvent::Searched(None)) {
        SearchAction::QueryImdb { imdb_id, message, debug } => {
            assert_eq!(imdb_id, "tt1");
            assert_eq!(message, "Searching subtitles for: Heat");
            assert_eq!(debug, "Querying OpenSubtitles for IMDB: tt1");
        }
        _ => panic!("expected a search by IMDb id"),
    }
    match m.step(SearchEvent::Searched(Some(Some(42)))) {
        SearchAction::Download(42) => {}
        _ => panic!("expected a download"),
    }
    match m.step(SearchEvent::Downloaded(Some(s("/m/Heat.en.srt")))) {
        SearchAction::Finish { completed, message } => {
            assert!(completed);
            assert_eq!(message, "Subtitle saved: /m/Heat.en.srt");
        }
        _ => panic!("expected the end"),
    }
    assert_eq!(m.stage, SearchStage::Done);
    assert!(matches!(m.step(SearchEvent::Searched(None)), SearchAction::Nothing));
}

#[test]
fn subtitle_search_ends_when_nothing_is_found() {
    let mut m = SubtitleSearch::new();
    match m.step(SearchEvent::Begin { title: s("X"), hash: None, imdb_id: None }) {
        SearchAction::Finish { completed, message } => {
            assert!(!completed);
            assert_eq!(message, "Subtitle search failed or no matches found");
        }
        _ => panic!("expected the end"),
    }
    let mut m = SubtitleSearch::new();
    let _ = m.step(SearchEvent::Begin { title: s("X"), hash: Some(s("h")), imdb_id: None });
    match m.step(SearchEvent::Searched(Some(None))) {
        SearchAction::Finish { completed, message } => {
            assert!(completed);
            assert_eq!(message, "No matching subtitles found");
        }
        _ => panic!("expected the end"),
    }
    let mut m = SubtitleSearch::new();
    match m.step(SearchEvent::NoFile) {
        SearchAction::Finish { completed, message } => {
            assert!(!completed);
            assert_eq!(message, "Movie file not found");
        }
        _ => panic!("expected the end"),
    }
}

#[test]
fn watchdog_picks_videos_and_their_library() {
    assert!(is_watched_video("/lib/Movie.MKV"));
    assert!(is_watched_video("/lib/a.m4v"));
    assert!(!is_watched_video("/lib/a.ts"));
    assert!(!is_watched_video("/lib/readme"));
    let libs = vec![s("/media/tv"), s("C:\\media\\movies"), s("/media")];
    assert_eq!(library_for_path("C:\\media\\movies\\Heat.mkv", &libs), Some(1));
    assert_eq!(library_for_path("/media/tv/Show/e.mkv", &libs), Some(0));
    assert_eq!(library_for_path("/media/film.mkv", &libs), Some(2));
    assert_eq!(library_for_path("/other/film.mkv", &libs), None);
}

#[test]
fn subtitle_key_prefers_the_environment() {
    assert_eq!(subtitle_api_key("env-key", &Some("stored".to_string())), Some("env-key".to_string()));
    assert_eq!(subtitle_api_key("", &Some("stored".to_string())), Some("stored".to_string()));
    assert_eq!(subtitle_api_key("", &Some(String::new())), None);
    assert_eq!(subtitle_api_key("", &None), None);
}

#[test]
fn subtitle_search_without_a_key_is_refused() {
    assert_eq!(
        begin_subtitle_search("", &None),
        Err("OpenSubtitles API Key missing. Please add it in Settings (opensubtitles_api_key).".to_string())
    );
    assert_eq!(begin_subtitle_search("", &Some("k".to_string())), Ok("k".to_string()));
}
