use media_core::cleanup::{
    artwork_digest, duplicate_removals, episode_cleanup_folders, hash_candidates, is_artwork_file,
    is_redundant_metadata, is_safe_to_delete, is_sidecar_file, removal_order, FolderEntry, HashedArt,
};

fn s(x: &str) -> String {
    x.to_string()
}

#[test]
fn artwork_digest_is_md5_of_bytes_read() {
    assert_eq!(artwork_digest(b"abc", 3), "900150983cd24fb0d6963f7d28e17f72");
    assert_eq!(artwork_digest(b"abcdef", 3), "900150983cd24fb0d6963f7d28e17f72");
    assert_eq!(artwork_digest(b"", 0), "d41d8cd98f00b204e9800998ecf8427e");
}

#[test]
fn artwork_is_known_by_extension_in_any_case() {
    assert!(is_artwork_file("poster.JPG"));
    assert!(is_artwork_file("a.webp"));
    assert!(is_artwork_file("fanart.jpeg"));
    assert!(!is_artwork_file("movie.mkv"));
    assert!(!is_artwork_file("jpg"));
    assert!(!is_artwork_file(".png"));
}

#[test]
fn redundant_metadata_beside_a_movie() {
    let stem = "Heat (1995) - 1080p";
    assert!(!is_redundant_metadata("Heat (1995) - 1080p.nfo", stem));
    assert!(!is_redundant_metadata("Heat (1995) - 1080p-poster.jpg", stem));
    assert!(!is_redundant_metadata("Heat (1995) - 1080p-fanart.jpg", stem));
    assert!(is_redundant_metadata("movie.nfo", stem));
    assert!(is_redundant_metadata("old.NFO", stem));
    assert!(is_redundant_metadata("poster.jpg", stem));
    assert!(is_redundant_metadata("Backdrop.JPG", stem));
    assert!(is_redundant_metadata("heat_poster.jpg", stem));
    assert!(is_redundant_metadata("heat-fanart1.jpg", stem));
    assert!(is_redundant_metadata("x-fanart2.jpg.png", stem));
    assert!(!is_redundant_metadata("poster.png", stem));
    assert!(!is_redundant_metadata("cover.jpg", stem));
    assert!(!is_redundant_metadata("Heat.mkv", stem));
    assert!(!is_redundant_metadata("poster.jpg.txt", stem));
}

#[test]
fn folders_with_only_small_metadata_may_go() {
    let ok = vec![
        FolderEntry { is_dir: false, name: s("a.nfo"), size: Some(100) },
        FolderEntry { is_dir: false, name: s("b.JPG"), size: None },
        FolderEntry { is_dir: false, name: s("c.json"), size: Some(20 * 1024 * 1024) },
    ];
    assert!(is_safe_to_delete(&ok));
    assert!(is_safe_to_delete(&[]));
    let big = vec![FolderEntry { is_dir: false, name: s("c.xml"), size: Some(20 * 1024 * 1024 + 1) }];
    assert!(!is_safe_to_delete(&big));
    let video = vec![FolderEntry { is_dir: false, name: s("movie.mkv"), size: Some(1) }];
    assert!(!is_safe_to_delete(&video));
    let sub = vec![FolderEntry { is_dir: true, name: s("extras"), size: None }];
    assert!(!is_safe_to_delete(&sub));
    let bare = vec![FolderEntry { is_dir: false, name: s("README"), size: Some(1) }];
    assert!(!is_safe_to_delete(&bare));
}

#[test]
fn folders_go_deepest_first() {
    let dirs = vec![s("/lib"), s("/lib/a"), s("/lib/a/b"), s("/lib/c"), s("/lib/a/b/d")];
    assert_eq!(removal_order("/lib", &dirs), vec![4, 2, 1, 3]);
    let dirs2 = vec![s("/lib/"), s("/lib/x")];
    assert_eq!(removal_order("/lib", &dirs2), vec![1]);
    assert_eq!(removal_order("/lib", &[]), Vec::<usize>::new());
}

#[test]
fn only_files_sharing_a_size_are_compared() {
    assert_eq!(hash_candidates(&[10, 20, 10, 30]), vec![true, false, true, false]);
    assert_eq!(hash_candidates(&[5]), vec![false]);
}

#[test]
fn one_copy_of_duplicate_artwork_stays() {
    let f = |d: &str, n: &str, h: &str| HashedArt { dir: s(d), name: s(n), digest: s(h) };
    let files = vec![
        f("/m/a", "poster-long.jpg", "h1"),
        f("/m/a", "poster.jpg", "h1"),
        f("/m/b", "poster.jpg", "h1"),
        f("/m/a", "fanart.jpg", "h2"),
        f("/m/a", "x.jpg", "h1"),
        f("/m/a", "y.jpg", "h1"),
    ];
    assert_eq!(duplicate_removals(&files), vec![true, true, false, false, false, true]);
}

#[test]
fn season_and_show_folders_of_episodes() {
    let files = vec![
        s("/tv/Show/Season 01/e1.mkv"),
        s("/tv/Show/Season 01/e2.mkv"),
        s("/tv/Show/Season 02/e1.mkv"),
    ];
    assert_eq!(episode_cleanup_folders(&files), vec![(0, 1), (0, 2), (2, 1)]);
    assert_eq!(episode_cleanup_folders(&[s("e.mkv")]), vec![(0, 1)]);
    assert_eq!(episode_cleanup_folders(&[s("/")]), Vec::<(usize, u8)>::new());
}

#[test]
fn sidecars_go_with_their_video() {
    let v = "/m/Heat (1995)/Heat.mkv";
    assert!(is_sidecar_file(v, "Heat.srt"));
    assert!(is_sidecar_file(v, "Heat.en.SRT"));
    assert!(is_sidecar_file(v, "Heat.nfo"));
    assert!(is_sidecar_file(v, "Heat.forced.vtt"));
    assert!(!is_sidecar_file(v, "Heatwave.srt"));
    assert!(!is_sidecar_file(v, "Heat-poster.jpg"));
    assert!(!is_sidecar_file(v, "Heat.jpg"));
    assert!(!is_sidecar_file(v, "Other.srt"));
    assert!(!is_sidecar_file("/", "x.srt"));
}
