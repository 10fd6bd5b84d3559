use media_core::catalog::{get_unique_genres, get_unique_languages, movie_listing_query, show_listing_query, FilterArg};
use media_core::models::LibraryId;

fn rows(v: &[&str]) -> Vec<String> {
    v.iter().map(|s| s.to_string()).collect()
}

#[test]
fn genres_are_gathered_once_in_order() {
    let stored = rows(&["[\"Drama\",\"Action\"]", "not a list", "[\"Action\",\"Comedy\"]", "[]"]);
    assert_eq!(get_unique_genres(&stored), vec!["Action", "Comedy", "Drama"]);
}

#[test]
fn no_rows_give_no_genres() {
    assert!(get_unique_genres(&[]).is_empty());
    assert!(get_unique_genres(&rows(&["{}", "null"])).is_empty());
}

#[test]
fn languages_are_gathered_once_in_order() {
    let stored = rows(&["fr", "en", "fr", "de"]);
    assert_eq!(get_unique_languages(&stored), vec!["de", "en", "fr"]);
}

#[test]
fn genres_sort_by_character_code() {
    let stored = rows(&["[\"drama\",\"Drama\",\"Ação\",\"Action\"]"]);
    assert_eq!(get_unique_genres(&stored), vec!["Action", "Ação", "Drama", "drama"]);
}

#[test]
fn unfiltered_movie_listing() {
    let q = movie_listing_query(None, &None, &None);
    assert_eq!(
        q.sql,
        "SELECT m.*, mf.preview_path, mf.codec as video_codec, mf.audio_codec FROM movies m LEFT JOIN movie_files mf ON m.id = mf.movie_id WHERE 1=1 GROUP BY m.id ORDER BY m.title ASC"
    );
    assert!(q.args.is_empty());
}

#[test]
fn movie_listing_with_every_filter() {
    let q = movie_listing_query(Some(LibraryId(3)), &Some("Drama".to_string()), &Some("en".to_string()));
    assert!(q.sql.ends_with(" WHERE 1=1 AND m.library_id = ? AND m.genres LIKE ? AND m.language = ? GROUP BY m.id ORDER BY m.title ASC"));
    assert_eq!(
        q.args,
        vec![FilterArg::Library(3), FilterArg::Text("%\"Drama\"%".to_string()), FilterArg::Text("en".to_string())]
    );
}

#[test]
fn empty_filters_narrow_nothing() {
    let q = show_listing_query(None, &Some(String::new()), &Some("fr".to_string()));
    assert!(q.sql.starts_with("SELECT t.*, (SELECT e.preview_path FROM episodes e"));
    assert!(q.sql.ends_with("FROM tv_shows t WHERE 1=1 AND t.language = ? ORDER BY t.title ASC"));
    assert_eq!(q.args, vec![FilterArg::Text("fr".to_string())]);
}
