use media_core::scan::{episode_group_key, show_title_to_store};
use media_core::titles::{clean_show_title_for_db, extract_episode_title, sanitize_name};

#[test]
fn test_clean_show_title_for_db() {
    assert_eq!(clean_show_title_for_db("Better Call Saul (2015)"), "Better Call Saul (2015)");
    assert_eq!(clean_show_title_for_db("Better Call Saul Season 2 (1080p x265 10bit Joy)"), "Better Call Saul");
    assert_eq!(clean_show_title_for_db("Better Call Saul Season 3 Complete 720p HDTV x264 [i_c]"), "Better Call Saul");
    assert_eq!(clean_show_title_for_db("Breaking Bad (2008)"), "Breaking Bad (2008)");
    assert_eq!(clean_show_title_for_db("Friends (1994)"), "Friends (1994)");
    assert_eq!(clean_show_title_for_db("Better.Call.Saul..1080p.BluRay.x265-KONTRAST"), "Better Call Saul");
    assert_eq!(clean_show_title_for_db("www.Torrenting.com - Game of Thrones S08E03 The Long Night"), "Game of Thrones");
}

#[test]
fn show_title_loses_tagged_brackets_and_site_prefix() {
    assert_eq!(clean_show_title_for_db("Dark [EZTV]"), "Dark");
    assert_eq!(clean_show_title_for_db("Dark (Netflix)"), "Dark (Netflix)");
    assert_eq!(clean_show_title_for_db("YTS: Dark"), "Dark");
    assert_eq!(clean_show_title_for_db("eztv com \u{2014} Dark"), "Dark");
    assert_eq!(clean_show_title_for_db("Dark_Series_2"), "Dark");
    assert_eq!(clean_show_title_for_db(""), "");
}

#[test]
fn episode_title_follows_marker() {
    assert_eq!(
        extract_episode_title("Game.of.Thrones.S01E01.Winter.Is.Coming.720p.HDTV.mkv"),
        Some("Winter Is Coming".to_string())
    );
    assert_eq!(
        extract_episode_title("/tv/Show/Show - S02E03 - [The Title] (x264).mkv"),
        Some("The Title".to_string())
    );
    assert_eq!(extract_episode_title("Show.S01E01.mkv"), None);
    assert_eq!(extract_episode_title("Show 1x01 Pilot.mkv"), None);
    assert_eq!(extract_episode_title("Show.S1E1.Pilot.mkv"), None);
    assert_eq!(extract_episode_title(""), None);
}

#[test]
fn names_lose_forbidden_characters() {
    assert_eq!(sanitize_name("  What? Why: Now/Then  "), "What Why NowThen");
    assert_eq!(sanitize_name("a<b>c|d*e\"f\\g"), "abcdefg");
}

#[test]
fn stored_show_title_prefers_nfo() {
    assert_eq!(show_title_to_store("Better.Call.Saul.S04.1080p", None), "Better Call Saul");
    assert_eq!(show_title_to_store("S01", None), "S01");
    assert_eq!(show_title_to_store("Whatever", Some("Real Title")), "Real Title");
    assert_eq!(show_title_to_store("Whatever", Some("")), "Whatever");
}

#[test]
fn group_key_uses_stored_episode_first() {
    let k = episode_group_key(Some(("Dark".to_string(), 2, 5)), "x", None, Some(9), Some(9));
    assert_eq!(k, ("Dark".to_string(), 2, 5));
    let k = episode_group_key(None, "Dark.S01.720p", None, Some(1), None);
    assert_eq!(k, ("Dark".to_string(), 1, 1));
    let k = episode_group_key(None, "Dark", Some("Dark (2017)"), None, Some(3));
    assert_eq!(k, ("Dark (2017)".to_string(), 1, 3));
}
