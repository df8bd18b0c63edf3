use vidsort::classifier::{
    classify_with, Classification, ClassificationKind, MovieResult, ShowFile, ShowResult,
};
use vidsort::config::{DirConfig, TransmissionConfig};
use vidsort::linker::{after_directory, after_link, LinkReport, LinkResult, LinkStep};
use vidsort::parser::tvshow::EpisodeId;
use vidsort::pipeline::{
    kind_label, processed, run, run_worker, PipelineContext, PlanKind, WorkerAction, WorkerEvent,
};
use vidsort::summary;
use vidsort::transmission::{
    completed_files, Client, FetchError, ReportedFile, ReportedTorrent,
};
use vidsort::tvdb::{MovieMeta, ShowMeta};
use vidsort::types::{TorrentFile, TorrentId, TorrentInfo};

fn context(dry_run: bool) -> PipelineContext {
    PipelineContext {
        dirs: DirConfig {
            movies: "/lib/movies".to_string(),
            shows: "/lib/shows".to_string(),
            other: "/lib/other".to_string(),
        },
        dry_run,
        imdb_blacklist: Vec::new(),
    }
}

fn file(name: &str) -> TorrentFile {
    TorrentFile { name: name.to_string(), length: 700 * 1024 * 1024 }
}

fn show_meta() -> ShowMeta {
    ShowMeta {
        canonical_title: "Harrow".to_string(),
        release_year: Some(2018),
        imdb_id: None,
        season: 1,
        episode: 1,
    }
}

fn show() -> Classification {
    let episode = |name: &str, episode: u32| ShowFile {
        file: file(name),
        episode_id: EpisodeId { season: 1, episode },
    };
    Classification {
        all_files: vec![file("a.mkv"), file("b.mp4"), file("c.nfo")],
        kind: ClassificationKind::Show(ShowResult {
            meta: show_meta(),
            video_files: vec![episode("a.mkv", 1), episode("b.mp4", 12)],
        }),
    }
}

fn movie() -> Classification {
    Classification {
        all_files: vec![file("x/Alien.mkv"), file("x/Alien.nfo")],
        kind: ClassificationKind::Movie(MovieResult {
            meta: MovieMeta {
                canonical_title: "Alien".to_string(),
                release_year: Some(1979),
                imdb_id: None,
            },
            video_files: vec![file("x/Alien.mkv")],
        }),
    }
}

fn other() -> Classification {
    Classification {
        all_files: vec![file("x/a.iso"), file("x/b.nfo")],
        kind: ClassificationKind::Other,
    }
}

#[test]
fn links_of_a_show() {
    let plan = run(Some(show()), &[], "/dl", &context(false));
    assert_eq!(plan.kind, PlanKind::Show);
    assert!(!plan.dry_run);
    let links: Vec<(&str, &str)> =
        plan.links.iter().map(|l| (l.src.as_str(), l.dst.as_str())).collect();
    assert_eq!(
        links,
        [
            ("/dl/a.mkv", "/lib/shows/Harrow (2018)/Season 01/Harrow S01E01.mkv"),
            ("/dl/b.mp4", "/lib/shows/Harrow (2018)/Season 01/Harrow S01E12.mp4"),
        ]
    );
}

#[test]
fn links_of_a_movie() {
    let plan = run(Some(movie()), &[], "/dl", &context(true));
    assert_eq!(plan.kind, PlanKind::Movie);
    assert!(plan.dry_run);
    assert_eq!(plan.links.len(), 1);
    assert_eq!(plan.links[0].dst, "/lib/movies/Alien (1979)/Alien.mkv");
}

#[test]
fn other_and_failed_torrents_are_linked_as_they_are() {
    let plan = run(Some(other()), &[], "/dl", &context(false));
    assert_eq!(plan.kind, PlanKind::Other);
    assert_eq!(plan.links[0].dst, "/lib/other/x/a.iso");
    assert_eq!(plan.links[1].dst, "/lib/other/x/b.nfo");
    let failed = run(None, &[file("x/a.iso"), file("x/b.nfo")], "/dl", &context(false));
    assert_eq!(failed.kind, PlanKind::Failed);
    let ends = |p: &vidsort::pipeline::Plan| -> Vec<(String, String)> {
        p.links.iter().map(|l| (l.src.clone(), l.dst.clone())).collect()
    };
    assert_eq!(ends(&plan), ends(&failed));
}

#[test]
fn links_of_a_season_pack_do_not_collide() {
    let info = TorrentInfo {
        id: TorrentId(1),
        name: "pack".to_string(),
        download_dir: "/dl".to_string(),
        files: (1..=12).map(|n| file(&format!("Harrow/Harrow.S01E{n:02}.mkv"))).collect(),
    };
    let c = classify_with(info, Some(show_meta()), None, &[]);
    let plan = run(Some(c), &[], "/dl", &context(false));
    let mut ends: Vec<String> = plan.links.iter().map(|l| l.dst.clone()).collect();
    assert_eq!(ends.len(), 12);
    ends.sort();
    ends.dedup();
    assert_eq!(ends.len(), 12);
    assert!(ends.iter().all(|e| e.starts_with("/lib/shows/Harrow (2018)/")));
    assert!(plan.links.iter().all(|l| l.src.starts_with("/dl/Harrow/Harrow.S01E")));
}

#[test]
fn results_are_cloned() {
    let ClassificationKind::Show(result) = show().kind else { panic!("it is a show") };
    let copy = result.clone();
    assert_eq!(copy.meta.canonical_title, result.meta.canonical_title);
    assert_eq!(copy.video_files.len(), 2);
    assert_eq!(copy.video_files[1].file.name, "b.mp4");
    let ClassificationKind::Movie(result) = movie().kind else { panic!("it is a movie") };
    let copy = result.clone();
    assert_eq!(copy.meta.release_year, Some(1979));
    assert_eq!(copy.video_files[0].name, "x/Alien.mkv");
}

#[test]
fn labels() {
    assert_eq!(kind_label(&show().kind), "show");
    assert_eq!(kind_label(&movie().kind), "movie");
    assert_eq!(kind_label(&other().kind), "other");
}

#[test]
fn worker_events() {
    assert!(matches!(run_worker(WorkerEvent::Cancelled), WorkerAction::FlushAndStop));
    assert!(matches!(run_worker(WorkerEvent::Closed), WorkerAction::FlushAndStop));
    let info = TorrentInfo {
        id: TorrentId(9),
        name: "t".to_string(),
        download_dir: "/dl".to_string(),
        files: Vec::new(),
    };
    let action = run_worker(WorkerEvent::Received(info));
    assert!(matches!(action, WorkerAction::Process(t) if t.id == TorrentId(9)));
}

#[test]
fn ends_of_a_link() {
    assert!(matches!(after_directory(true), LinkStep::LinkFile));
    let failed = after_directory(false);
    assert!(matches!(failed, LinkStep::Finished(LinkReport::DirectoryFailed)));
    assert_eq!(after_link(LinkResult::Made), LinkReport::Linked);
    assert_eq!(after_link(LinkResult::Exists), LinkReport::AlreadyExists);
    assert_eq!(after_link(LinkResult::Failed), LinkReport::LinkFailed);
    assert_eq!(LinkReport::Linked.counter(), Some("vidsort_links_created_total"));
    assert_eq!(LinkReport::LinkFailed.counter(), Some("vidsort_link_errors_total"));
    assert_eq!(LinkReport::AlreadyExists.counter(), None);
    assert_eq!(LinkReport::DirectoryFailed.counter(), None);
}

#[test]
fn processed_torrents() {
    let good = [LinkReport::Linked, LinkReport::AlreadyExists];
    assert!(processed(PlanKind::Show, &good));
    assert!(processed(PlanKind::Other, &[]));
    assert!(!processed(PlanKind::Failed, &good));
    assert!(!processed(PlanKind::Movie, &[LinkReport::Linked, LinkReport::LinkFailed]));
    assert!(!processed(PlanKind::Movie, &[LinkReport::DirectoryFailed]));
}

#[test]
fn summaries() {
    let s = summary::run(Some(&show()), true, true).unwrap();
    assert_eq!((s.kind, s.total, s.rows.len()), (PlanKind::Show, 3, 2));
    assert_eq!(s.rows[1].name, "b.mp4");
    assert_eq!(s.rows[1].length, 700 * 1024 * 1024);
    assert_eq!(
        s.rows[1].dest.as_deref(),
        Some("Harrow (2018)/Season 01/Harrow S01E12.mp4")
    );
    let s = summary::run(Some(&movie()), true, false).unwrap();
    assert_eq!(s.rows[0].dest.as_deref(), Some("Alien (1979)/Alien.mkv"));
    let s = summary::run(Some(&movie()), false, false).unwrap();
    assert_eq!((s.total, s.rows.len()), (2, 0));
    let s = summary::run(Some(&other()), true, false).unwrap();
    assert_eq!((s.kind, s.rows.len()), (PlanKind::Other, 2));
    assert_eq!(s.rows[0].dest, None);
    assert!(summary::run(Some(&other()), true, true).is_none());
    assert!(summary::run(None, true, true).is_none());
    let s = summary::run(None, true, false).unwrap();
    assert_eq!((s.kind, s.total, s.rows.len()), (PlanKind::Failed, 0, 0));
}

fn settings(user: Option<&str>, password: Option<&str>, attempts: u32) -> TransmissionConfig {
    TransmissionConfig {
        username: user.map(str::to_string),
        password: password.map(str::to_string),
        transmission_retry_attempts: attempts,
    }
}

fn client() -> Client {
    Client::new(&settings(None, None, 3))
}

fn reported(id: Option<i64>, name: Option<&str>, dir: Option<&str>, finished: bool) -> ReportedTorrent {
    let file = |name: &str, length: i64, bytes_completed: i64| ReportedFile {
        name: name.to_string(),
        length,
        bytes_completed,
    };
    ReportedTorrent {
        id,
        name: name.map(str::to_string),
        download_dir: dir.map(str::to_string),
        files: Some(vec![
            file("whole", 10, 10),
            file("part", 10, 9),
            file("empty", 0, 0),
            file("odd", -1, 5),
            file("more", 7, 8),
        ]),
        finished,
    }
}

#[test]
fn torrent_that_is_fetched() {
    let reply = vec![
        reported(Some(1), Some("first"), Some("/a"), false),
        reported(None, Some("last"), Some("/b"), false),
    ];
    let info = client().fetch(TorrentId(7), &reply).unwrap();
    assert_eq!(info.id, TorrentId(7));
    assert_eq!((info.name.as_str(), info.download_dir.as_str()), ("last", "/b"));
    let files: Vec<(&str, u64)> = info.files.iter().map(|f| (f.name.as_str(), f.length)).collect();
    assert_eq!(files, [("whole", 10), ("more", 7)]);
}

#[test]
fn torrent_that_cannot_be_fetched() {
    assert_eq!(client().fetch(TorrentId(7), &Vec::new()).unwrap_err(), FetchError::NotFound);
    let nameless = vec![reported(Some(7), None, None, true)];
    assert_eq!(client().fetch(TorrentId(7), &nameless).unwrap_err(), FetchError::MissingName);
    let homeless = vec![reported(Some(7), Some("x"), None, true)];
    assert_eq!(client().fetch(TorrentId(7), &homeless).unwrap_err(), FetchError::MissingDownloadDir);
    assert_eq!(FetchError::NotFound.message(TorrentId(7)), "torrent 7 not found");
    assert_eq!(FetchError::MissingName.message(TorrentId(-7)), "torrent -7 missing name");
    assert_eq!(
        FetchError::MissingDownloadDir.message(TorrentId(0)),
        "torrent 0 missing download_dir"
    );
}

#[test]
fn torrents_that_are_completed() {
    let reply = vec![
        reported(Some(1), Some("a"), Some("/a"), true),
        reported(Some(2), Some("b"), Some("/b"), false),
        reported(None, Some("c"), Some("/c"), true),
        reported(Some(4), None, Some("/d"), true),
        reported(Some(5), Some("e"), None, true),
        reported(Some(6), Some("f"), Some("/f"), true),
    ];
    let infos = client().fetch_all_completed(&reply);
    let ids: Vec<i64> = infos.iter().map(|t| t.id.0).collect();
    assert_eq!(ids, [1, 6]);
    assert_eq!(infos[1].download_dir, "/f");
    assert!(completed_files(&None).is_empty());
}

#[test]
fn authentication_needs_both_parts() {
    let auth = Client::new(&settings(Some("u"), Some("p"), 3)).auth.unwrap();
    assert_eq!((auth.user.as_str(), auth.password.as_str()), ("u", "p"));
    assert!(Client::new(&settings(Some("u"), None, 3)).auth.is_none());
    assert!(Client::new(&settings(None, Some("p"), 3)).auth.is_none());
}

#[test]
fn daemon_is_asked_at_least_once() {
    assert_eq!(Client::new(&settings(None, None, 0)).retry_attempts, 1);
    assert_eq!(Client::new(&settings(None, None, 4)).retry_attempts, 4);
}
