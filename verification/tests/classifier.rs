use vidsort::classifier::{filter_video_files, try_movie, try_show};
use vidsort::types::TorrentFile;

fn mkfile(name: &str, mb: u64) -> TorrentFile {
    TorrentFile {
        name: name.to_string(),
        length: mb * 1024 * 1024,
    }
}

// --- filtering ---

#[test]
fn no_video_files_gives_empty() {
    let files = vec![mkfile("readme.txt", 1)];
    assert!(filter_video_files(&files).is_empty());
}

#[test]
fn all_samples_gives_empty() {
    let files = vec![mkfile("sample.mkv", 10), mkfile("extra.nfo", 1)];
    assert!(filter_video_files(&files).is_empty());
}

#[test]
fn extras_only_gives_empty() {
    let files = vec![
        mkfile("featurette.mkv", 200),
        mkfile("trailer.mkv", 100),
        mkfile("interview.mkv", 80),
    ];
    assert!(filter_video_files(&files).is_empty());
}

#[test]
fn sample_excluded_from_video_files() {
    let files = vec![
        mkfile("Harrow.S01E01.720p.mkv", 700),
        mkfile("sample.mkv", 10),
    ];
    assert_eq!(filter_video_files(&files).len(), 1);
}

#[test]
fn featurettes_directory_excluded() {
    // Real-world season pack: episode files alongside a Featurettes/ subtree.
    // Files inside Featurettes/ must be filtered out even when their own
    // filename doesn't match any extras keyword.
    let root =
        "Nurse Jackie (2009) Season 1-7 S01-S07 (1080p BluRay x265 HEVC 10bit AAC 7.1 Panda)";
    let files = vec![
        mkfile(
            &format!(
                "{root}/Season 7/Nurse Jackie (2009) - S07E12 - I Say a Little Prayer (1080p BluRay x265 Panda).mkv"
            ),
            2_000,
        ),
        mkfile(
            &format!("{root}/Featurettes/Season 1/Prepping Nurse Jackie.mkv"),
            300,
        ),
        mkfile(
            &format!("{root}/Featurettes/Season 1/Unsung Heroes.mkv"),
            300,
        ),
        mkfile(
            &format!("{root}/Featurettes/Season 2/All About Eve.mkv"),
            300,
        ),
        mkfile(
            &format!("{root}/Featurettes/Season 5/Deleted Scenes - Season 5.mkv"),
            300,
        ),
    ];
    let video = filter_video_files(&files);
    assert_eq!(video.len(), 1);
    assert!(video[0].name.as_str().contains("S07E12"));
}

// --- show ---

#[test]
fn single_episode_file() {
    let files = vec![mkfile("Harrow.S02E10.720p.WEBRip.x264-GalaxyTV.mkv", 700)];
    let c = try_show(&files).expect("expected show candidate");
    assert_eq!(c.raw_title, "Harrow");
    assert_eq!(c.season, 2);
    assert_eq!(c.episode, 10);
    assert_eq!(c.video_files.len(), 1);
    assert_eq!(c.video_files[0].episode_id.season, 2);
    assert_eq!(c.video_files[0].episode_id.episode, 10);
}

#[test]
fn season_pack_show() {
    let files = vec![
        mkfile("Harrow/Harrow.S01E01.720p.WEBRip.mkv", 700),
        mkfile("Harrow/Harrow.S01E02.720p.WEBRip.mkv", 700),
        mkfile("Harrow/Harrow.S01E03.720p.WEBRip.mkv", 700),
    ];
    let c = try_show(&files).expect("expected show candidate");
    assert_eq!(c.raw_title, "Harrow");
    assert_eq!(c.season, 1);
    assert_eq!(c.video_files.len(), 3);
    assert!(
        c.video_files
            .iter()
            .enumerate()
            .all(|(i, sf)| sf.episode_id.episode == (i + 1) as u32)
    );
}

#[test]
fn show_episode_title_from_parent_dir_when_file_has_leading_number() {
    let files = vec![mkfile(
        "Sullivan's Crossing/09 - Can't Help Falling.mkv",
        1_500,
    )];
    let c = try_show(&files).expect("expected show candidate");
    assert_eq!(c.raw_title, "Sullivan's Crossing");
    assert_eq!(c.season, 1);
    assert_eq!(c.episode, 9);
}

#[test]
fn flat_file_with_leading_number_and_no_parent_is_none() {
    let files = vec![mkfile("09 - Can't Help Falling.mkv", 1_500)];
    assert!(try_show(&files).is_none());
}

#[test]
fn show_title_from_parent_directory() {
    let files = vec![mkfile(
        "Being Human US/Being.Human.US.S04E11.Ramona.the.Pest.1080p.mkv",
        1_500,
    )];
    let c = try_show(&files).expect("expected show candidate");
    assert_eq!(c.raw_title, "Being Human US");
    assert_eq!((c.season, c.episode), (4, 11));
}

#[test]
fn year_in_show_title_preserved() {
    let files = vec![mkfile("Scrubs.2026.S01E05.1080p.x265-ELiTE.mkv", 800)];
    let c = try_show(&files).expect("expected show candidate");
    assert_eq!(c.raw_title, "Scrubs 2026");
    assert_eq!((c.season, c.episode), (1, 5));
}

#[test]
fn show_duplicate_episode_ids_returns_none() {
    // Two files that both parse to S01E01 (e.g. different language tracks)
    // must not be accepted as a valid show candidate.
    let files = vec![
        mkfile("Show/Show.S01E01.EN.mkv", 700),
        mkfile("Show/Show.S01E01.RU.mkv", 700),
    ];
    assert!(try_show(&files).is_none());
}

// --- movie ---

#[test]
fn single_movie_file() {
    let files = vec![mkfile("Inception.2010.1080p.BluRay.x264.mkv", 8_000)];
    let c = try_movie(&files).expect("expected movie candidate");
    assert_eq!(c.raw_title, "Inception");
    assert_eq!(c.year_hint, Some(2010));
    assert_eq!(c.video_files.len(), 1);
}

#[test]
fn movie_extras_excluded_from_video_files() {
    let all = vec![
        mkfile("Blade.1998.1080p.BluRay.mkv", 8_000),
        mkfile("featurette.mkv", 500),
        mkfile("trailer.mkv", 200),
    ];
    let video = filter_video_files(&all);
    let c = try_movie(&video).expect("expected movie candidate");
    assert_eq!(c.raw_title, "Blade");
    assert_eq!(c.video_files.len(), 1);
    assert_eq!(all.len(), 3); // all_files preserved by caller
}

#[test]
fn movie_no_year() {
    let files = vec![mkfile("Oppenheimer.HEVC.x265.mkv", 12_000)];
    let c = try_movie(&files).expect("expected movie candidate");
    assert_eq!(c.raw_title, "Oppenheimer");
    assert_eq!(c.year_hint, None);
}

#[test]
fn movie_multi_file_returns_none() {
    // Two video files → not a movie (season pack or multi-part release)
    let files = vec![
        mkfile("Inception.2010.Part1.1080p.BluRay.mkv", 8_000),
        mkfile("Inception.2010.Part2.1080p.BluRay.mkv", 8_000),
    ];
    assert!(try_movie(&files).is_none());
}
