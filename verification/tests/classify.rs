use vidsort::classifier::{
    classify, classify_with, has_episode_markers, is_blacklisted, is_extra, is_sample,
    largest_file, sample_by, Classification, ClassificationKind, ClassifyStep, MovieCandidate,
    ShowCandidate, SAMPLE_SIZE_THRESHOLD,
};
use vidsort::parser::movie::MovieMetadata;
use vidsort::parser::tvshow::{EpisodeId, EpisodeMetadata};
use vidsort::tvdb::{MovieMeta, ShowMeta};
use vidsort::types::{TorrentFile, TorrentId, TorrentInfo};

fn mkfile(name: &str, mb: u64) -> TorrentFile {
    TorrentFile { name: name.to_string(), length: mb * 1024 * 1024 }
}

fn torrent(files: Vec<TorrentFile>) -> TorrentInfo {
    TorrentInfo {
        id: TorrentId(1),
        name: "torrent".to_string(),
        download_dir: "/dl".to_string(),
        files,
    }
}

fn show(imdb: &str) -> ShowMeta {
    ShowMeta {
        canonical_title: "Harrow".to_string(),
        release_year: Some(2018),
        imdb_id: Some(imdb.to_string()),
        season: 1,
        episode: 1,
    }
}

fn movie(imdb: &str) -> MovieMeta {
    MovieMeta {
        canonical_title: "Inception".to_string(),
        release_year: Some(2010),
        imdb_id: Some(imdb.to_string()),
    }
}

fn label(c: &Classification) -> &'static str {
    match c.kind {
        ClassificationKind::Show(_) => "show",
        ClassificationKind::Movie(_) => "movie",
        ClassificationKind::Other => "other",
    }
}

#[test]
fn samples_by_size_and_name() {
    assert_eq!(SAMPLE_SIZE_THRESHOLD, 50 * 1024 * 1024);
    assert!(!is_sample(&mkfile("movie.mkv", 50)));
    let small = TorrentFile { name: "movie.mkv".to_string(), length: SAMPLE_SIZE_THRESHOLD - 1 };
    assert!(is_sample(&small));
    assert!(is_sample(&mkfile("Movie-SAMPLE.mkv", 500)));
    assert!(is_sample(&mkfile("movie.Sample.mkv", 500)));
    assert!(!is_sample(&mkfile("sample/movie.mkv", 500)));
    assert!(sample_by(SAMPLE_SIZE_THRESHOLD, Some("a sample")));
    assert!(!sample_by(SAMPLE_SIZE_THRESHOLD, Some("a SAMPLE")));
    assert!(!sample_by(SAMPLE_SIZE_THRESHOLD, None));
}

#[test]
fn extras_by_name_and_directory() {
    assert!(is_extra(&mkfile("Show/Behind.The.Scenes/x.mkv", 500)));
    assert!(is_extra(&mkfile("Show Trailer.mkv", 500)));
    assert!(is_extra(&mkfile("Interview/Season 1/x.mkv", 500)));
    assert!(!is_extra(&mkfile("Trailers/x.mkv", 500)));
    assert!(!is_extra(&mkfile("Show/x.mkv", 500)));
}

#[test]
fn largest_file_is_the_last_of_the_largest() {
    let files = [mkfile("a.mkv", 5), mkfile("b.mkv", 9), mkfile("c.mkv", 9), mkfile("d.mkv", 1)];
    assert_eq!(largest_file(&files).name, "c.mkv");
    assert_eq!(largest_file(&files[..1]).name, "a.mkv");
}

#[test]
fn torrent_without_videos_is_other() {
    let step = classify(torrent(vec![mkfile("readme.txt", 1), mkfile("x.mkv", 3)]));
    let ClassifyStep::Done(c) = step else { panic!("no lookup is needed") };
    assert_eq!(label(&c), "other");
    assert_eq!(c.all_files.len(), 2);
}

#[test]
fn show_is_looked_up_first() {
    let files = vec![
        mkfile("Harrow/Harrow.S01E02.mkv", 700),
        mkfile("Harrow/Harrow Trailer.mkv", 600),
        mkfile("Harrow/harrow.nfo", 1),
    ];
    let ClassifyStep::EnrichShow(pending) = classify(torrent(files)) else {
        panic!("a show is suggested")
    };
    assert_eq!(pending.candidate.raw_title, "Harrow");
    assert_eq!((pending.candidate.season, pending.candidate.episode), (1, 2));
}

#[test]
fn files_without_a_number_get_the_one_that_was_found() {
    let files = vec![mkfile("Show S02E05/part.mkv", 900), mkfile("Show S02E05/x S02E06.mkv", 800)];
    let ClassifyStep::EnrichShow(pending) = classify(torrent(files)) else {
        panic!("a show is suggested")
    };
    let ids: Vec<(u32, u32)> = pending
        .candidate
        .video_files
        .iter()
        .map(|f| (f.episode_id.season, f.episode_id.episode))
        .collect();
    assert_eq!(ids, [(2, 5), (2, 6)]);
    assert_eq!(pending.candidate.raw_title, "Show");
}

#[test]
fn show_that_is_found() {
    let files = vec![mkfile("Harrow.S01E02.mkv", 700), mkfile("harrow.nfo", 1)];
    let c = classify_with(torrent(files), Some(show("tt1")), Some(movie("tt2")), &[]);
    assert_eq!(c.all_files.len(), 2);
    let ClassificationKind::Show(result) = c.kind else { panic!("it is a show") };
    assert_eq!(result.meta.canonical_title, "Harrow");
    assert_eq!(result.video_files.len(), 1);
    assert_eq!(result.video_files[0].episode_id, EpisodeId { season: 1, episode: 2 });
}

#[test]
fn show_that_is_not_found_is_no_movie_if_its_file_has_a_marker() {
    let files = vec![mkfile("Harrow.S01E02.mkv", 700)];
    let c = classify_with(torrent(files), None, Some(movie("tt2")), &[]);
    assert_eq!(label(&c), "other");
}

#[test]
fn show_that_is_not_found_may_be_a_movie() {
    let files = vec![mkfile("Boxset S01E01/Inception.2010.1080p.mkv", 7000)];
    let c = classify_with(torrent(files), None, Some(movie("tt2")), &[]);
    let ClassificationKind::Movie(result) = c.kind else { panic!("it is a movie") };
    assert_eq!(result.meta.canonical_title, "Inception");
    assert_eq!(result.video_files.len(), 1);
}

#[test]
fn blacklisted_show_is_other() {
    let blacklist = ["tt9".to_string(), "tt1".to_string()];
    let files = vec![mkfile("Harrow.S01E02.mkv", 700)];
    let c = classify_with(torrent(files), Some(show("tt1")), Some(movie("tt2")), &blacklist);
    assert_eq!(label(&c), "other");
    let files = vec![mkfile("Boxset S01E01/Inception.2010.1080p.mkv", 7000)];
    let c = classify_with(torrent(files), Some(show("tt1")), Some(movie("tt2")), &blacklist);
    assert_eq!(label(&c), "other");
    assert_eq!(c.all_files.len(), 1);
}

#[test]
fn movie_is_looked_up_with_its_year() {
    let files = vec![mkfile("Inception.2010.1080p.mkv", 7000), mkfile("Inception.srt", 1)];
    let ClassifyStep::EnrichMovie(pending) = classify(torrent(files)) else {
        panic!("a movie is suggested")
    };
    assert_eq!(pending.candidate.raw_title, "Inception");
    assert_eq!(pending.candidate.year_hint, Some(2010));
    let c = pending.resume(Some(movie("tt2")), &[]);
    assert_eq!(label(&c), "movie");
    assert_eq!(c.all_files.len(), 2);
}

#[test]
fn movie_that_is_not_found_or_blacklisted_is_other() {
    let files = || torrent(vec![mkfile("Inception.2010.1080p.mkv", 7000)]);
    assert_eq!(label(&classify_with(files(), None, None, &[])), "other");
    let blacklist = ["tt2".to_string()];
    let c = classify_with(files(), None, Some(movie("tt2")), &blacklist);
    assert_eq!(label(&c), "other");
    let c = classify_with(files(), None, Some(movie("tt22")), &blacklist);
    assert_eq!(label(&c), "movie");
}

#[test]
fn blacklist_is_exact() {
    let blacklist = ["tt1".to_string(), "tt2".to_string()];
    assert!(is_blacklisted(Some("tt2"), &blacklist));
    assert!(!is_blacklisted(Some("tt"), &blacklist));
    assert!(!is_blacklisted(None, &blacklist));
    assert!(!is_blacklisted(Some("tt1"), &[]));
}

#[test]
fn marker_is_looked_for_in_the_largest_file() {
    let files = [mkfile("a S01E01.mkv", 100), mkfile("b.mkv", 200)];
    assert!(!has_episode_markers(&files));
    assert!(has_episode_markers(&files[..1]));
}

#[test]
fn candidates_are_assembled() {
    let files = [mkfile("a.mkv", 100), mkfile("b.mkv", 200)];
    let id = |episode: u32| EpisodeId { season: 1, episode };
    let found = |show: &str| EpisodeMetadata { show: show.to_string(), episode: id(4) };
    let dirs = vec!["Outer".to_string(), "Inner".to_string()];
    let c = ShowCandidate::assemble(&files, &vec![Some(id(2)), None], found(""), &dirs).unwrap();
    assert_eq!(c.raw_title, "Outer");
    assert_eq!(c.video_files[0].episode_id, id(2));
    assert_eq!(c.video_files[1].episode_id, id(4));
    let c = ShowCandidate::assemble(&files, &vec![Some(id(2)), None], found("X"), &dirs).unwrap();
    assert_eq!(c.raw_title, "X");
    assert!(ShowCandidate::assemble(&files, &vec![None, None], found("X"), &dirs).is_none());
    let none = Vec::new();
    assert!(ShowCandidate::assemble(&files, &vec![Some(id(2)), None], found(""), &none).is_none());
    let movie = || Some(MovieMetadata { title: "M".to_string(), year: None });
    assert!(MovieCandidate::assemble(&files, movie()).is_none());
    assert!(MovieCandidate::assemble(&files[..1], None).is_none());
    let c = MovieCandidate::assemble(&files[..1], movie()).unwrap();
    assert_eq!((c.raw_title.as_str(), c.year_hint, c.video_files.len()), ("M", None, 1));
}
