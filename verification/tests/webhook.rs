use media_core::models::{Library, LibraryId, MediaType};
use media_core::webhook::webhook_library;

fn lib(id: i64, media_type: MediaType) -> Library {
    Library {
        id: LibraryId(id),
        name: format!("lib{}", id),
        path: format!("/media/{}", id),
        media_type,
        created_at: String::new(),
    }
}

#[test]
fn radarr_scans_the_first_movie_library() {
    let libs = vec![lib(1, MediaType::Tv), lib(2, MediaType::Movie), lib(3, MediaType::Movie)];
    assert_eq!(webhook_library("radarr", &libs), Some(1));
}

#[test]
fn sonarr_scans_the_first_tv_library() {
    let libs = vec![lib(1, MediaType::Movie), lib(2, MediaType::Tv)];
    assert_eq!(webhook_library("sonarr", &libs), Some(1));
    assert_eq!(webhook_library("sonarr", &[lib(1, MediaType::Movie)]), None);
}

#[test]
fn other_senders_scan_the_first_library() {
    let libs = vec![lib(7, MediaType::Tv), lib(8, MediaType::Movie)];
    assert_eq!(webhook_library("lidarr", &libs), Some(0));
    assert_eq!(webhook_library("Radarr", &libs), Some(0));
    assert_eq!(webhook_library("custom", &[]), None);
}
