use vidsort::classifier::ShowFile;
use vidsort::config::DirConfig;
use vidsort::linker::{
    after_link, folder_name, link_movie, link_other, link_show, show_dest, LinkReport, LinkResult,
};
use vidsort::parser::tvshow::EpisodeId;
use vidsort::path::stem_or_empty;
use vidsort::tvdb::{MovieMeta, ShowMeta};
use vidsort::types::TorrentFile;

fn dirs() -> DirConfig {
    DirConfig {
        movies: "/lib/movies".to_string(),
        shows: "/lib/shows".to_string(),
        other: "/lib/other".to_string(),
    }
}

fn make_file(rel: &str) -> TorrentFile {
    TorrentFile {
        name: rel.to_string(),
        length: 1024,
    }
}

#[test]
fn link_show_creates_correct_path() {
    let show_file = ShowFile {
        file: make_file("Harrow.S02E10.720p.WEBRip.mkv"),
        episode_id: EpisodeId {
            season: 2,
            episode: 10,
        },
    };
    let meta = ShowMeta {
        canonical_title: "Harrow".to_string(),
        release_year: Some(2018),
        imdb_id: Some("tt6164502".to_string()),
        season: 2,
        episode: 10,
    };
    let links = link_show(&meta, &[show_file], "/dl", &dirs());
    assert_eq!(links.len(), 1);
    assert_eq!(links[0].src, "/dl/Harrow.S02E10.720p.WEBRip.mkv");
    assert_eq!(
        links[0].dst,
        "/lib/shows/Harrow (2018) [tt6164502]/Season 02/Harrow S02E10.mkv"
    );
}

#[test]
fn link_show_season_pack_per_file_episode() {
    let sf1 = ShowFile {
        file: make_file("Harrow.S01E01.720p.mkv"),
        episode_id: EpisodeId {
            season: 1,
            episode: 1,
        },
    };
    let sf2 = ShowFile {
        file: make_file("Harrow.S01E02.720p.mkv"),
        episode_id: EpisodeId {
            season: 1,
            episode: 2,
        },
    };
    let meta = ShowMeta {
        canonical_title: "Harrow".to_string(),
        release_year: Some(2018),
        imdb_id: None,
        season: 1,
        episode: 1,
    };
    let links = link_show(&meta, &[sf1, sf2], "/dl", &dirs());
    assert_eq!(links.len(), 2);
    assert_eq!(
        links[0].dst,
        "/lib/shows/Harrow (2018)/Season 01/Harrow S01E01.mkv"
    );
    assert_eq!(
        links[1].dst,
        "/lib/shows/Harrow (2018)/Season 01/Harrow S01E02.mkv"
    );
}

#[test]
fn link_show_exist_is_non_fatal() {
    let show_file = ShowFile {
        file: make_file("Show.S01E01.mkv"),
        episode_id: EpisodeId {
            season: 1,
            episode: 1,
        },
    };
    let meta = ShowMeta {
        canonical_title: "Show".to_string(),
        release_year: None,
        imdb_id: None,
        season: 1,
        episode: 1,
    };
    let first = link_show(&meta, std::slice::from_ref(&show_file), "/dl", &dirs());
    let second = link_show(&meta, &[show_file], "/dl", &dirs());
    assert_eq!(first[0].dst, second[0].dst);
    assert_eq!(first[0].dst, "/lib/shows/Show/Season 01/Show S01E01.mkv");
    // The second link finds the first in its place.
    assert_eq!(after_link(LinkResult::Made), LinkReport::Linked);
    let report = after_link(LinkResult::Exists);
    assert_eq!(report, LinkReport::AlreadyExists);
    assert_eq!(report.counter(), None);
}

#[test]
fn destination_is_read_as_its_episode() {
    for title in ["Harrow", "Mr. Robot", "", "9-1-1", "E5", ".."] {
        for name in ["a.mkv", "b", "c.", ".hidden", "d/e.tar.gz"] {
            for (season, episode) in [(1, 1), (0, 0), (12, 100), (u32::MAX, 3)] {
                let file = ShowFile {
                    file: make_file(name),
                    episode_id: EpisodeId { season, episode },
                };
                let meta = ShowMeta {
                    canonical_title: title.to_string(),
                    release_year: Some(2018),
                    imdb_id: None,
                    season,
                    episode,
                };
                let stem = stem_or_empty(&show_dest(&meta, &file));
                assert_eq!(stem, format!("{title} S{season:02}E{episode:02}"));
                assert_eq!(EpisodeId::from_filename(&stem), Some(file.episode_id));
            }
        }
    }
}

#[test]
fn link_movie_creates_correct_path() {
    let meta = MovieMeta {
        canonical_title: "Inception".to_string(),
        release_year: Some(2010),
        imdb_id: Some("tt1375666".to_string()),
    };
    let file = make_file("Inception.2010.1080p.BluRay.mkv");
    let links = link_movie(&meta, &[file], "/dl", &dirs());
    assert_eq!(links.len(), 1);
    assert_eq!(links[0].src, "/dl/Inception.2010.1080p.BluRay.mkv");
    assert_eq!(
        links[0].dst,
        "/lib/movies/Inception (2010) [tt1375666]/Inception.mkv"
    );
}

#[test]
fn link_movie_no_year_no_imdb() {
    let meta = MovieMeta {
        canonical_title: "Alien".to_string(),
        release_year: None,
        imdb_id: None,
    };
    let links = link_movie(&meta, &[make_file("Alien.mkv")], "/dl", &dirs());
    assert_eq!(links[0].dst, "/lib/movies/Alien/Alien.mkv");
}

#[test]
fn link_other_flat_file() {
    let links = link_other(&[make_file("some.random.file.mkv")], "/dl", &dirs());
    assert_eq!(links.len(), 1);
    assert_eq!(links[0].src, "/dl/some.random.file.mkv");
    assert_eq!(links[0].dst, "/lib/other/some.random.file.mkv");
}

#[test]
fn link_other_preserves_directory_structure() {
    let f1 = make_file("Show Name/Season 01/Show.S01E01.mkv");
    let f2 = make_file("Show Name/Season 01/Show.S01E02.mkv");
    let f3 = make_file("Show Name/show.nfo");
    let links = link_other(&[f1, f2, f3], "/dl", &dirs());
    assert_eq!(links.len(), 3);
    assert_eq!(
        links[0].dst,
        "/lib/other/Show Name/Season 01/Show.S01E01.mkv"
    );
    assert_eq!(
        links[1].dst,
        "/lib/other/Show Name/Season 01/Show.S01E02.mkv"
    );
    assert_eq!(links[2].dst, "/lib/other/Show Name/show.nfo");
}

#[test]
fn folder_name_all_fields() {
    assert_eq!(
        folder_name("Inception", Some(2010), Some("tt1375666")),
        "Inception (2010) [tt1375666]"
    );
}

#[test]
fn folder_name_year_only() {
    assert_eq!(folder_name("Alien", Some(1979), None), "Alien (1979)");
}

#[test]
fn folder_name_title_only() {
    assert_eq!(folder_name("Unknown", None, None), "Unknown");
}

#[test]
fn folder_name_year_already_in_title() {
    // TVDB sometimes returns the year as part of the canonical title (e.g. "Paradise (2025)").
    // The year suffix must not be duplicated.
    assert_eq!(
        folder_name("Paradise (2025)", Some(2025), Some("tt27444205")),
        "Paradise (2025) [tt27444205]"
    );
}
