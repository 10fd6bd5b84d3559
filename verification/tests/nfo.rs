use media_core::models::{Episode, LibraryId, MediaStatus, Movie, MovieId};
use media_core::nfo::{
    cast_members, fanart_candidates, is_nfo_file, movie_nfo_ids, nfo_kind, poster_candidates,
    replaces_best_nfo, show_nfo_tmdb_id, Actor, NfoKind, NfoWriter, actor_image_file, is_remote_thumb,
};

fn movie() -> Movie {
    Movie {
        id: MovieId(1),
        library_id: LibraryId(1),
        title: "Test Movie".to_string(),
        year: Some(2023),
        tmdb_id: Some(12345),
        imdb_id: Some("tt12345".to_string()),
        status: MediaStatus::Matched,
        plot: Some("A test movie plot".to_string()),
        rating: Some("8.5".to_string()),
        poster_url: Some("http://example.com/poster.jpg".to_string()),
        backdrop_url: Some("http://example.com/backdrop.jpg".to_string()),
        tagline: Some("A test tagline".to_string()),
        runtime: Some(120),
        genres: Some("[\"Action\", \"Sci-Fi\"]".to_string()),
        language: Some("en".to_string()),
        cast_list: None,
        preview_path: None,
        nfo_path: None,
        codec: None,
        video_codec: None,
        audio_codec: None,
        hash: None,
        created_at: "2023-01-01".to_string(),
        updated_at: "2023-01-01".to_string(),
    }
}

#[test]
fn test_write_movie_nfo() {
    let nfo = NfoWriter::movie_nfo(&movie());
    assert_eq!(nfo.title, "Test Movie");
    assert_eq!(nfo.originaltitle.as_deref(), Some("Test Movie"));
    assert_eq!(nfo.year, Some(2023));
    assert_eq!(nfo.id.as_deref(), Some("tt12345"));
    assert_eq!(nfo.tmdbid, Some(12345));
    assert_eq!(nfo.genre, vec!["Action".to_string(), "Sci-Fi".to_string()]);
    assert_eq!(nfo.outline.as_deref(), Some("A test movie plot"));
    assert_eq!(nfo.thumb.as_deref(), Some("http://example.com/poster.jpg"));
    let doc = NfoWriter::document("<movie><title>Test Movie</title></movie>");
    assert!(doc.starts_with("<?xml version=\"1.0\" encoding=\"UTF-8\" standalone=\"yes\" ?>\n"));
    assert!(doc.ends_with("<title>Test Movie</title></movie>"));
}

#[test]
fn unreadable_genres_give_none() {
    let mut m = movie();
    m.genres = Some("not json".to_string());
    assert!(NfoWriter::movie_nfo(&m).genre.is_empty());
    m.genres = Some("[1, 2]".to_string());
    assert!(NfoWriter::movie_nfo(&m).genre.is_empty());
    m.genres = None;
    assert!(NfoWriter::movie_nfo(&m).genre.is_empty());
}

#[test]
fn episode_nfo_falls_back_to_file_name() {
    let ep = Episode {
        id: 1,
        season_id: 2,
        episode_number: 3,
        title: None,
        file_path: "a/b.mkv".to_string(),
        original_name: "b.mkv".to_string(),
        size_bytes: 1,
        resolution: None,
        codec: None,
        aspect_ratio: None,
        thumbnail_path: Some("t.jpg".to_string()),
    };
    let nfo = NfoWriter::episode_nfo(&ep, 4);
    assert_eq!(nfo.title, "b.mkv");
    assert_eq!(nfo.season, 4);
    assert_eq!(nfo.episode, 3);
    assert_eq!(nfo.thumb.as_deref(), Some("t.jpg"));
}

#[test]
fn ids_from_tags_then_unique_ids() {
    let c = "<movie><tmdbid>603</tmdbid><imdbid>tt0133093</imdbid></movie>";
    assert_eq!(movie_nfo_ids(c), (Some("603".to_string()), Some("tt0133093".to_string())));
    let u = "<movie><uniqueid type=\"imdb\" default=\"true\">tt01</uniqueid>\n<uniqueid type=\"tmdb\">99</uniqueid><uniqueid type=\"tmdb\">100</uniqueid></movie>";
    assert_eq!(movie_nfo_ids(u), (Some("99".to_string()), Some("tt01".to_string())));
    let mixed = "<tmdbid>7</tmdbid><uniqueid type=\"tmdb\">8</uniqueid>";
    assert_eq!(movie_nfo_ids(mixed), (Some("7".to_string()), None));
    assert_eq!(movie_nfo_ids("   \n"), (None, None));
    assert_eq!(movie_nfo_ids("<tmdbid>x1</tmdbid><imdbid>nm1</imdbid>"), (None, None));
    assert_eq!(show_nfo_tmdb_id(u), Some("99".to_string()));
    assert_eq!(show_nfo_tmdb_id("<tvshow/>"), None);
}

#[test]
fn choosing_nfo_files_and_artwork() {
    assert_eq!(nfo_kind("<?xml?><movie>"), Some(NfoKind::Movie));
    assert_eq!(nfo_kind("<tvshow>"), Some(NfoKind::TvShow));
    assert_eq!(nfo_kind("<episodedetails>"), None);
    assert!(is_nfo_file("/a/movie.nfo"));
    assert!(!is_nfo_file("/a/movie.NFO"));
    assert!(replaces_best_nfo(None, 0));
    assert!(replaces_best_nfo(Some(2), 3));
    assert!(!replaces_best_nfo(Some(3), 3));
    assert_eq!(poster_candidates("Film"), vec!["poster.jpg", "poster.png", "Film-poster.jpg", "folder.jpg"]);
    assert_eq!(fanart_candidates("Film"), vec!["fanart.jpg", "backdrop.jpg", "Film-fanart.jpg"]);
}

#[test]
fn actors_become_cast_members() {
    let actors = vec![Actor { name: "A".to_string(), role: Some("R".to_string()), thumb: None }];
    let cast = cast_members(&actors);
    assert_eq!(cast.len(), 1);
    assert_eq!(cast[0].name, "A");
    assert_eq!(cast[0].role.as_deref(), Some("R"));
    assert_eq!(cast[0].image, None);
}

#[test]
fn actor_pictures_are_named_after_the_actor() {
    assert_eq!(actor_image_file("Björk Guðmundsdóttir"), "Björk_Guðmundsdóttir.jpg");
    assert_eq!(actor_image_file("J. K. Simmons"), "J__K__Simmons.jpg");
    assert!(is_remote_thumb("https://image.tmdb.org/a.jpg"));
    assert!(is_remote_thumb("http"));
    assert!(!is_remote_thumb("/local/a.jpg"));
    assert!(!is_remote_thumb("htt"));
}
