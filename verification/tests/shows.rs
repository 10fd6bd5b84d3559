use media_core::shows::{comparison_form_lower, title_key_lower, season_moves, episode_moves, EpisodeMove, SeasonMove};
use media_core::shows::{
    extract_year, find_matching_show, merge_plan, normalize_for_comparison, normalize_title_key,
    sanitize_db_show_title, title_cleanups, title_score, ShowRow,
};

fn row(id: i64, lib: i64, title: &str) -> ShowRow {
    ShowRow { id, library_id: lib, title: title.to_string() }
}

#[test]
fn comparison_form_ignores_case_separators_and_years() {
    assert_eq!(normalize_for_comparison("The.Office_(US) 2005"), "the office us");
    assert_eq!(normalize_for_comparison("  THE   OFFICE  "), "the office");
}

#[test]
fn years_are_whole_words_from_1900_to_2099() {
    assert_eq!(extract_year("Dark (2017)"), Some(2017));
    assert_eq!(extract_year("Show 1899 2020"), Some(2020));
    assert_eq!(extract_year("Show20201"), None);
    assert_eq!(extract_year("none"), None);
}

#[test]
fn incoming_title_matches_stored_show() {
    let existing = vec![(1, "Dark (2017)".to_string()), (2, "The.Office".to_string())];
    assert_eq!(find_matching_show(&existing, "The Office"), Some((2, false)));
    assert_eq!(find_matching_show(&existing, "Dark"), Some((1, true)));
    assert_eq!(find_matching_show(&existing, "Dark (1999)"), None);
    assert_eq!(find_matching_show(&existing, "Lost"), None);
}

#[test]
fn title_keys_are_comparison_forms() {
    assert_eq!(normalize_title_key("Show S01"), "show s01");
    assert_eq!(normalize_title_key("Show S01"), normalize_for_comparison("Show S01"));
    assert_eq!(normalize_title_key("Better.Call.Saul (2015)"), "better call saul");
    assert_eq!(normalize_title_key("Dark"), "dark");
    assert_eq!(normalize_title_key("1080p"), "1080p");
}

#[test]
fn stored_titles_become_readable() {
    assert_eq!(sanitize_db_show_title("Better.Call.Saul.S04.1080p.BluRay.x265-KONTRAST"), "Better Call Saul");
    assert_eq!(sanitize_db_show_title("Dark  Complete"), "Dark");
    assert_eq!(sanitize_db_show_title("Dark"), "Dark");
}

#[test]
fn scores_are_byte_lengths() {
    assert_eq!(title_score("Dark"), 4);
    assert_eq!(title_score("Caf\u{e9}"), 5);
}

#[test]
fn dedup_cleans_titles_then_merges_into_shortest() {
    let rows = vec![row(1, 1, "Dark.S01.720p"), row(2, 1, "Dark"), row(3, 1, "Lost")];
    assert_eq!(title_cleanups(&rows), vec![(1, "Dark".to_string())]);
    let rows = vec![
        row(1, 1, "Dark (2017)"),
        row(2, 1, "Dark"),
        row(3, 2, "Dark"),
        row(4, 1, "dark"),
        row(5, 1, "1080p"),
        row(6, 1, "1080p"),
    ];
    assert_eq!(merge_plan(&rows), vec![(1, 2), (4, 2), (6, 5)]);
}

#[test]
fn lowered_titles_are_compared_and_keyed() {
    assert_eq!(comparison_form_lower("the.office_(2005)"), "the office");
    assert_eq!(title_key_lower("breaking.bad.s01.1080p"), "breaking bad s01 1080p");
}

#[test]
fn duplicate_seasons_merge_or_move() {
    let kept = vec![(10, 1)];
    let dups = vec![(20, 1), (21, 2), (30, 2), (31, 3)];
    assert_eq!(
        season_moves(&kept, &dups),
        vec![
            SeasonMove::MergeEpisodes { from: 20, into: 10 },
            SeasonMove::Reparent(21),
            SeasonMove::MergeEpisodes { from: 30, into: 21 },
            SeasonMove::Reparent(31),
        ]
    );
    assert!(season_moves(&kept, &vec![]).is_empty());
}

#[test]
fn merged_episodes_move_unless_their_file_is_there() {
    let target = vec!["Dark/S01/e1.mkv".to_string()];
    let eps = vec![
        (7, "Dark/S01/e1.mkv".to_string()),
        (8, "Dark/S01/e2.mkv".to_string()),
        (9, "Dark/S01/e2.mkv".to_string()),
    ];
    assert_eq!(
        episode_moves(&target, &eps),
        vec![EpisodeMove::Delete(7), EpisodeMove::Move(8), EpisodeMove::Delete(9)]
    );
}
