use media_core::scan::season_folder_lower;
use media_core::scan::{episode_show_and_season, stored_show_title};
use media_core::scan::{complete_message, episode_dir, episode_group_leaders, episode_in_place, found_message, progress_report_due, scanned_message, walk_feedback_due, walking_message};
use media_core::models::{MediaStatus, Resolution};
use media_core::scan::{
    action_for, episode_file_name, get_episode_suffixes, get_unique_dest_path, is_skipped_dir,
    is_unchanged, is_video_file, metadata_status, parse_i32_trimmed, season_dir_name,
    show_and_season_from_path, show_level_files, title_with_override, track_step,
    year_with_override, EpisodeVariant, FingerprintHit, ProcessAction, ScanTally, TrackStep,
};

#[test]
fn video_files_by_extension() {
    assert!(is_video_file("/lib/Movie (2010).MKV"));
    assert!(is_video_file("a/b/c.m2ts"));
    assert!(!is_video_file("a/b/c.nfo"));
    assert!(!is_video_file("a/b/mkv"));
    assert!(!is_video_file("a/b/.mkv"));
    assert!(!is_video_file(""));
}

#[test]
fn skipped_folders_match_exactly() {
    assert!(is_skipped_dir("@eaDir"));
    assert!(is_skipped_dir("$RECYCLE.BIN"));
    assert!(!is_skipped_dir("$recycle.bin"));
    assert!(!is_skipped_dir("Movies"));
}

#[test]
fn unchanged_files_are_skipped() {
    assert!(is_unchanged(Some((10, 20)), 10, 20));
    assert!(!is_unchanged(Some((10, 20)), 10, 21));
    assert!(!is_unchanged(None, 10, 20));
}

#[test]
fn moved_files_heal_and_copies_are_ignored() {
    assert_eq!(track_step(true, Some(4), None, "a.mkv"), TrackStep::MarkScanned(4));
    assert_eq!(track_step(true, None, None, "a.mkv"), TrackStep::Index);
    let moved = FingerprintHit { id: 7, file_path: "old/a.mkv".to_string(), old_exists: false };
    assert_eq!(track_step(false, None, Some(moved), "new/a.mkv"), TrackStep::HealPath(7));
    let copy = FingerprintHit { id: 7, file_path: "old/a.mkv".to_string(), old_exists: true };
    assert_eq!(track_step(false, None, Some(copy), "new/a.mkv"), TrackStep::IgnoreDuplicate);
    let same = FingerprintHit { id: 7, file_path: "a.mkv".to_string(), old_exists: true };
    assert_eq!(track_step(false, None, Some(same), "a.mkv"), TrackStep::Index);
    assert_eq!(action_for(TrackStep::Index, true), ProcessAction::Updated);
    assert_eq!(action_for(TrackStep::Index, false), ProcessAction::Added);
    assert_eq!(action_for(TrackStep::HealPath(1), false), ProcessAction::Healed);
    assert_eq!(action_for(TrackStep::MarkScanned(1), false), ProcessAction::Skipped);
}

#[test]
fn tally_counts_added_and_healed() {
    let mut t = ScanTally::new();
    for a in [ProcessAction::Added, ProcessAction::Skipped, ProcessAction::Healed, ProcessAction::Added, ProcessAction::Updated] {
        t.record(a);
    }
    assert_eq!(t.files_new, 2);
    assert_eq!(t.files_healed, 1);
}

#[test]
fn numbers_read_like_str_parse() {
    assert_eq!(parse_i32_trimmed(" 2010 "), Some(2010));
    assert_eq!(parse_i32_trimmed("+7"), Some(7));
    assert_eq!(parse_i32_trimmed("-2147483648"), Some(i32::MIN));
    assert_eq!(parse_i32_trimmed("2147483648"), None);
    assert_eq!(parse_i32_trimmed("20 10"), None);
    assert_eq!(parse_i32_trimmed("-"), None);
    assert_eq!(parse_i32_trimmed(""), None);
}

#[test]
fn nfo_values_override_file_names() {
    assert_eq!(title_with_override("Parsed".to_string(), Some("Nfo")), "Nfo");
    assert_eq!(title_with_override("Parsed".to_string(), Some("")), "Parsed");
    assert_eq!(title_with_override("Parsed".to_string(), None), "Parsed");
    assert_eq!(year_with_override(Some(1999), Some(" 2001")), Some(2001));
    assert_eq!(year_with_override(Some(1999), Some("n/a")), Some(1999));
    assert_eq!(year_with_override(None, None), None);
    assert_eq!(metadata_status(true, false), Some(MediaStatus::Matched));
    assert_eq!(metadata_status(false, true), Some(MediaStatus::Unmatched));
    assert_eq!(metadata_status(false, false), None);
}

#[test]
fn show_and_season_from_folders() {
    assert_eq!(show_and_season_from_path("ep.mkv", "Parsed", None), ("Parsed".to_string(), 1));
    assert_eq!(show_and_season_from_path("ep.mkv", "Parsed", Some(3)), ("Parsed".to_string(), 3));
    assert_eq!(show_and_season_from_path("Dark/ep.mkv", "x", Some(2)), ("Dark".to_string(), 2));
    assert_eq!(show_and_season_from_path("Dark Season 3/ep.mkv", "x", Some(2)), ("Dark ".to_string(), 3));
    assert_eq!(show_and_season_from_path("Dark/Season 04/ep.mkv", "x", None), ("Dark".to_string(), 4));
    assert_eq!(show_and_season_from_path("Dark/Specials/ep.mkv", "x", Some(2)), ("Dark".to_string(), 0));
    assert_eq!(show_and_season_from_path("Dark/S02/Extras/ep.mkv", "x", None), ("Dark".to_string(), 2));
    assert_eq!(show_and_season_from_path("Dark/Extras/ep.mkv", "x", Some(5)), ("Dark".to_string(), 5));
}

#[test]
fn organised_episode_names() {
    assert_eq!(season_dir_name(1), "Season 01");
    assert_eq!(season_dir_name(12), "Season 12");
    assert_eq!(
        episode_file_name("Dark", 1, 2, Some("Lies?"), " [1080p]", "mkv"),
        "Dark - S01E02 - Lies [1080p].mkv"
    );
    assert_eq!(episode_file_name("Dark: Origins", 1, 10, None, "", "mp4"), "Dark Origins - S01E10.mp4");
}

#[test]
fn suffixes_tell_versions_apart() {
    let one = vec![EpisodeVariant { resolution: Some(Resolution::R1080p), dimensions: None, size_bytes: 5 }];
    assert_eq!(get_episode_suffixes(&one), vec!["".to_string()]);
    let distinct = vec![
        EpisodeVariant { resolution: Some(Resolution::R1080p), dimensions: None, size_bytes: 5 },
        EpisodeVariant { resolution: None, dimensions: Some((1280, 720)), size_bytes: 5 },
    ];
    assert_eq!(get_episode_suffixes(&distinct), vec![" [1080p]".to_string(), " [720p]".to_string()]);
    let same = vec![
        EpisodeVariant { resolution: Some(Resolution::R720p), dimensions: None, size_bytes: 3 * 1048576 + 5 },
        EpisodeVariant { resolution: None, dimensions: Some((1280, 720)), size_bytes: 10 },
        EpisodeVariant { resolution: None, dimensions: None, size_bytes: 2097152 },
    ];
    assert_eq!(
        get_episode_suffixes(&same),
        vec![" [720p-3MB]".to_string(), " [720p-0MB]".to_string(), " [unknown-2MB]".to_string()]
    );
}

#[test]
fn unique_destination_numbers_taken_names() {
    let taken = vec!["Dark - S01E01.mkv".to_string(), "Dark - S01E01_1.mkv".to_string()];
    assert_eq!(get_unique_dest_path("/tv/Dark", "Dark - S01E02.mkv", &taken), "/tv/Dark/Dark - S01E02.mkv");
    assert_eq!(get_unique_dest_path("/tv/Dark", "Dark - S01E01.mkv", &taken), "/tv/Dark/Dark - S01E01_2.mkv");
    let plain = vec!["README".to_string()];
    assert_eq!(get_unique_dest_path("/x/", "README", &plain), "/x/README_1");
}

#[test]
fn show_files_follow_to_new_folder() {
    assert!(show_level_files("/tv/Dark", "/tv/Dark/", 1).is_empty());
    assert_eq!(
        show_level_files("/tv/old", "/tv/Dark", 3),
        vec!["tvshow.nfo", "poster.jpg", "fanart.jpg", "banner.jpg", "clearlogo.png", "season03-poster.jpg"]
    );
}

#[test]
fn scan_progress_reports() {
    assert!(progress_report_due(10, 25));
    assert!(progress_report_due(25, 25));
    assert!(!progress_report_due(11, 25));
    assert!(walk_feedback_due(5, 1));
    assert!(walk_feedback_due(0, 10000));
    assert!(!walk_feedback_due(4, 4999));
    assert_eq!(walking_message(5000, 12), "Walking directory... visited 5000 items (12 videos found)");
    assert_eq!(found_message(7), "Found 7 files. Analyzing metadata...");
    assert_eq!(scanned_message(3, 7, "Heat.mkv"), "Scanned 3/7: Heat.mkv");
}

#[test]
fn episode_folders_give_show_and_season() {
    assert_eq!(episode_show_and_season("/tv/Dark/Season 2/e.mkv", "e", Some(1)), ("Dark".to_string(), 2));
    assert_eq!(episode_show_and_season("/tv/Dark/Series  03 /e.mkv", "e", None), ("Dark".to_string(), 3));
    assert_eq!(episode_show_and_season("/tv/Dark/Season One/e.mkv", "e", Some(4)), ("Dark".to_string(), 4));
    assert_eq!(episode_show_and_season("/tv/Dark/e.mkv", "e", None), ("Dark".to_string(), 1));
    assert_eq!(episode_show_and_season("/tv/Dark/e.mkv", "Dark", Some(2)), ("Dark".to_string(), 2));
    assert_eq!(episode_show_and_season("Season 5/e.mkv", "e", None), ("e".to_string(), 5));
    assert_eq!(episode_show_and_season("e.mkv", "e", None), ("".to_string(), 1));
    assert_eq!(stored_show_title("e", "e", "Dark"), "Dark");
    assert_eq!(stored_show_title("From NFO", "e", "Dark"), "From NFO");
    assert_eq!(stored_show_title("e", "e", "e"), "e");
}

#[test]
fn lowered_season_folder_names() {
    assert_eq!(season_folder_lower("season 02"), Some(Some(2)));
    assert_eq!(season_folder_lower("series one"), Some(None));
    assert_eq!(season_folder_lower("seasons"), Some(None));
    assert_eq!(season_folder_lower("specials"), None);
    assert_eq!(season_folder_lower("Season 2"), None);
}

#[test]
fn scan_completion_report() {
    let mut t = ScanTally::new();
    t.record(ProcessAction::Added);
    t.record(ProcessAction::Added);
    t.record(ProcessAction::Healed);
    t.record(ProcessAction::Skipped);
    assert_eq!(complete_message(&t, 4), "Library scan complete. 2 new, 1 healed, 4 missing.");
}

#[test]
fn episodes_group_by_first_of_their_key() {
    let k = |t: &str, s: i32, e: i32| (t.to_string(), s, e);
    let keys = vec![k("Dark", 1, 1), k("Dark", 1, 2), k("Dark", 1, 1), k("Lost", 1, 1), k("Dark", 1, 2)];
    assert_eq!(episode_group_leaders(&keys), vec![0, 1, 0, 3, 1]);
    assert!(episode_group_leaders(&vec![]).is_empty());
}

#[test]
fn episodes_go_to_show_and_season_folders() {
    assert_eq!(episode_dir("/tv", "What If: Show?", 2), "/tv/What If Show/Season 02");
    assert_eq!(episode_dir("/tv/", "Dark", 12), "/tv/Dark/Season 12");
    assert!(episode_in_place("/tv/Dark/Season 01/Dark - S01E01.mkv", "/tv/Dark/Season 01", "Dark - S01E01.mkv"));
    assert!(episode_in_place("/tv//Dark/Season 01/./Dark - S01E01.mkv", "/tv/Dark/Season 01", "Dark - S01E01.mkv"));
    assert!(!episode_in_place("/tv/Dark/Dark.S01E01.mkv", "/tv/Dark/Season 01", "Dark - S01E01.mkv"));
}
