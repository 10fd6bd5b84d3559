use media_core::models::Resolution;
use media_core::parser::{clean_dir_name_as_show_title, parse_file_path, parse_filename};

#[test]
fn test_parse_movie() {
    let p = parse_filename("Inception.2010.1080p.mkv");
    assert_eq!(p.title, "Inception");
    assert_eq!(p.year, Some(2010));
    assert!(!p.is_tv);
}

#[test]
fn test_parse_tv() {
    let p = parse_filename("The.Office.S01E01.720p.mkv");
    assert_eq!(p.title, "The Office");
    assert_eq!(p.season, Some(1));
    assert_eq!(p.episode, Some(1));
    assert!(p.is_tv);
}

#[test]
fn test_parse_bare_sxxexx() {
    let p = parse_filename("S01E01 - Winter Is Coming.mkv");
    assert_eq!(p.title, "");
    assert_eq!(p.season, Some(1));
    assert_eq!(p.episode, Some(1));
    assert!(p.is_tv);
}

#[test]
fn test_clean_dir_name_as_show_title() {
    assert_eq!(
        clean_dir_name_as_show_title("Better.Call.Saul.S04.1080p.BluRay.x265-KONTRAST"),
        "Better Call Saul"
    );
    assert_eq!(
        clean_dir_name_as_show_title("Band.Of.Brothers.S01.720p.BRRip.MkvCage"),
        "Band Of Brothers"
    );
    assert_eq!(clean_dir_name_as_show_title("Better Call Saul"), "Better Call Saul");
    assert_eq!(
        clean_dir_name_as_show_title("Better.Call.Saul.S05.COMPLETE.720p"),
        "Better Call Saul"
    );
    assert_eq!(clean_dir_name_as_show_title("Game Of Thrones 2012"), "Game Of Thrones");
    assert_eq!(clean_dir_name_as_show_title("Game.Of.Thrones.2012"), "Game Of Thrones");
    assert_eq!(
        clean_dir_name_as_show_title("[TorrentCouch net] Game of Thrones"),
        "Game of Thrones"
    );
    assert_eq!(
        clean_dir_name_as_show_title("[www.1337x.to] Better.Call.Saul.S04.1080p"),
        "Better Call Saul"
    );
}

#[test]
fn test_parse_file_path_bare_sxxexx() {
    let p = parse_file_path(
        "/media/tv/Game of Thrones/Season 01/S01E01 - Winter Is Coming.mkv",
        "/media/tv",
        true,
    );
    assert_eq!(p.title, "Game of Thrones");
    assert_eq!(p.season, Some(1));
    assert_eq!(p.episode, Some(1));
    assert!(p.is_tv);
}

#[test]
fn test_parse_file_path_release_folder() {
    let p = parse_file_path(
        "/media/tv/Better.Call.Saul.S04.1080p.BluRay.x265-KONTRAST/S04E01.mkv",
        "/media/tv",
        true,
    );
    assert_eq!(p.title, "Better Call Saul");
    assert_eq!(p.season, Some(4));
    assert_eq!(p.episode, Some(1));
    assert!(p.is_tv);
}

#[test]
fn test_parse_file_path_torrent_prefix() {
    let p = parse_file_path(
        "/media/tv/[TorrentCouch net] Game of Thrones/Season 08/S08E01.mkv",
        "/media/tv",
        true,
    );
    assert_eq!(p.title, "Game of Thrones");
    assert_eq!(p.season, Some(8));
    assert_eq!(p.episode, Some(1));
}

#[test]
fn test_parse_file_path_year_in_folder() {
    let p = parse_file_path("/media/tv/Game Of Thrones 2012/Season 02/S02E01.mkv", "/media/tv", true);
    assert_eq!(p.title, "Game Of Thrones");
    assert_eq!(p.season, Some(2));
    assert_eq!(p.episode, Some(1));
}

#[test]
fn test_parse_file_path_movie() {
    let p = parse_file_path(
        "/media/movies/Inception.2010.1080p.BluRay/inception.mkv",
        "/media/movies",
        false,
    );
    assert_eq!(p.title, "Inception");
    assert_eq!(p.year, Some(2010));
    assert!(!p.is_tv);
}

#[test]
fn parse_filename_keeps_first_resolution() {
    let p = parse_filename("Movie.Name.2019.2160p.1080p.mkv");
    assert_eq!(p.resolution, Some(Resolution::R2160p));
    assert_eq!(p.title, "Movie Name");
    assert_eq!(p.year, Some(2019));
}

#[test]
fn parse_filename_episode_uses_two_digits() {
    let p = parse_filename("Show_Name - s2e123.avi");
    assert_eq!(p.title, "Show Name");
    assert_eq!(p.season, Some(2));
    assert_eq!(p.episode, Some(12));
    assert!(p.is_tv);
}

#[test]
fn parse_filename_without_markers_is_a_movie_title() {
    let p = parse_filename("home_video.mp4");
    assert_eq!(p.title, "home video");
    assert_eq!(p.year, None);
    assert_eq!(p.resolution, None);
    assert!(!p.is_tv);
}

#[test]
fn parse_filename_of_a_path_reads_its_last_component() {
    let p = parse_filename("/films/Alien (1979) [imax].mkv");
    assert_eq!(p.title, "Alien");
    assert_eq!(p.year, Some(1979));
    assert_eq!(p.resolution, Some(Resolution::Imax));
}

#[test]
fn clean_dir_name_of_pure_noise_is_empty() {
    assert_eq!(clean_dir_name_as_show_title("1080p.BluRay"), "");
    assert_eq!(clean_dir_name_as_show_title("   "), "");
}
