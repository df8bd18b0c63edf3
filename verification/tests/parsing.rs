use vidsort::parser::movie::MovieMetadata;
use vidsort::parser::tvshow::{normalize_title, title_words, EpisodeId, EpisodeMetadata, Marker};
use vidsort::pattern::Captured;

#[test]
fn markers_are_tried_in_order() {
    let m = EpisodeMetadata::from_filename("09 - Show E03 S02E01").unwrap();
    assert_eq!((m.episode.season, m.episode.episode), (2, 1));
    let m = EpisodeMetadata::from_filename("09 - Show E03").unwrap();
    assert_eq!((m.episode.season, m.episode.episode), (1, 3));
    assert_eq!(m.show, "09 Show");
    let m = EpisodeMetadata::from_filename("09 - Show").unwrap();
    assert_eq!((m.episode.season, m.episode.episode), (1, 9));
    assert_eq!(m.show, "");
    assert!(EpisodeMetadata::from_filename("Show").is_none());
}

#[test]
fn what_follows_the_marker_is_ignored() {
    let names = ["Harrow.S02E10", "x s1 - _.e2", "S1s2e3", "a S01E02 b", "S٠١E٠٢", "\u{17f}1E2"];
    let rests = ["", ".", ".S09E09", " S9E9", "E7", "_E07", "-1080p", ".5", "s3e4", "\n0", ". 09 - x"];
    let parse = |name: &str| {
        EpisodeMetadata::from_filename(name)
            .map(|m| (m.show, m.episode.season, m.episode.episode))
    };
    for name in names {
        for rest in rests {
            assert_eq!(parse(&format!("{name}{rest}")), parse(name), "{name:?} {rest:?}");
        }
    }
    assert_eq!(parse("Harrow.S02E10"), Some(("Harrow".to_string(), 2, 10)));
    assert_eq!(parse("S٠١E٠٢"), None);
    assert_eq!(parse("\u{17f}1E2"), Some((String::new(), 1, 2)));
}

#[test]
fn marker_behind_a_name_is_read_back() {
    let fronts = ["Harrow", "The.Show.(1994)", "S1", "S1E", "x S", "", "09 - a", "E5", "a -", "é ſ1"];
    for front in fronts {
        for gap in ["", " ", ".", "_", "-", " - "] {
            for (season, episode) in [(2, 10), (0, 0), (100, 7), (u32::MAX, u32::MAX)] {
                let name = format!("{front}.S{season:02}{gap}E{episode:02}");
                let m = EpisodeMetadata::from_filename(&name).unwrap();
                assert_eq!((m.episode.season, m.episode.episode), (season, episode), "{name}");
                assert_eq!(m.show, normalize_title(front), "{name}");
            }
        }
    }
}

#[test]
fn quality_tag_behind_a_name_changes_nothing() {
    let fronts = [
        "Inception.2010", "Alien", "", "Heat.1995.WEB-DL", "A.web-", "x.bl", "Movie 2010 ", "720",
        "Blade_Runner_1982", "2012", "Film.19991999", "Dolby-", "A 2010 B 2011.HDR10",
    ];
    for front in fronts {
        for rest in ["", "x264", "2020.720p", "p", " 1999", "vision"] {
            let read = |name: &str| MovieMetadata::from_filename(name).map(|m| (m.title, m.year));
            assert_eq!(read(&format!("{front}.1080p.{rest}")), read(front), "{front:?} {rest:?}");
        }
    }
}

#[test]
fn separator_at_the_end_of_a_title_changes_nothing() {
    for raw in ["Harrow", "ER (1994)", "ER (1994", "", "a.b"] {
        for c in [' ', '.', '_', '-'] {
            assert_eq!(normalize_title(&format!("{raw}{c}")), normalize_title(raw));
        }
    }
}

#[test]
fn leading_number_may_be_followed_by_an_en_dash() {
    let id = EpisodeId::from_filename("12 – Title").unwrap();
    assert_eq!((id.season, id.episode), (1, 12));
    assert!(EpisodeId::from_filename("1234 - Title").is_none());
    assert!(EpisodeId::from_filename("12 Title").is_none());
}

#[test]
fn number_that_is_too_large_makes_no_episode() {
    assert!(EpisodeMetadata::from_filename("Show S01E4294967296").is_none());
    assert!(EpisodeMetadata::from_filename("Show S4294967296E01 E02").is_none());
    let id = EpisodeId::from_filename("Show S01E4294967295").unwrap();
    assert_eq!(id.episode, u32::MAX);
}

#[test]
fn numbers_of_an_episode() {
    let m = EpisodeMetadata::numbered("Show".to_string(), Some("02"), "10").unwrap();
    assert_eq!(m.show, "Show");
    assert_eq!((m.episode.season, m.episode.episode), (2, 10));
    let m = EpisodeMetadata::numbered("Show".to_string(), None, "7").unwrap();
    assert_eq!((m.episode.season, m.episode.episode), (1, 7));
    assert!(EpisodeMetadata::numbered("Show".to_string(), Some("x"), "7").is_none());
    assert!(EpisodeMetadata::numbered("Show".to_string(), None, "").is_none());
}

#[test]
fn season_is_the_first_unless_it_is_given() {
    let captured = Captured {
        before: "The.Show.(1994).".to_string(),
        groups: vec!["E05".to_string(), "05".to_string()],
    };
    let m = EpisodeMetadata::from_match(Marker::EpisodeOnly, &captured).unwrap();
    assert_eq!((m.show.as_str(), m.episode.season, m.episode.episode), ("The Show", 1, 5));
    let m = EpisodeMetadata::from_match(Marker::LeadingNumber, &captured).unwrap();
    assert_eq!((m.show.as_str(), m.episode.season, m.episode.episode), ("", 1, 5));
}

#[test]
fn titles_are_clean_and_stable() {
    for raw in ["..The._Show--", " A  - B ", "x", "", "...", "ER (1994) - ", "\u{a0}a\u{a0}.b"] {
        let title = normalize_title(raw);
        assert!(!title.starts_with(' ') && !title.ends_with(' ') && !title.contains("  "));
        assert!(!title.contains(['.', '_', '-']));
        assert_eq!(title_words(&title), title);
    }
    assert_eq!(normalize_title("ER (1994) - "), "ER");
    assert_eq!(normalize_title("The.Show_Two-"), "The Show Two");
    assert_eq!(title_words("ER (1994)"), "ER (1994)");
}

#[test]
fn movie_regions() {
    let m = MovieMetadata::from_region("2001 A Space Odyssey 1968 ", Some("1968")).unwrap();
    assert_eq!(m.title, "2001 A Space Odyssey");
    assert_eq!(m.year, Some(1968));
    let m = MovieMetadata::from_region("  Alien..3  ", None).unwrap();
    assert_eq!(m.title, "Alien 3");
    assert_eq!(m.year, None);
    assert!(MovieMetadata::from_region("2012", Some("2012")).is_none());
    assert!(MovieMetadata::from_region(" . ", None).is_none());
    let m = MovieMetadata::from_region("Heat", Some("?")).unwrap();
    assert_eq!(m.year, None);
}

#[test]
fn movie_names_without_a_title() {
    assert!(MovieMetadata::from_filename("1080p.BluRay").is_none());
    assert!(MovieMetadata::from_filename("").is_none());
    let m = MovieMetadata::from_filename("Blade_Runner.1982.1992.1080p").unwrap();
    assert_eq!(m.year, Some(1992));
    assert_eq!(m.title, "Blade Runner 1982");
    let m = MovieMetadata::from_filename("__The_Thing__1982_").unwrap();
    assert_eq!((m.title.as_str(), m.year), ("The Thing", Some(1982)));
    let m = MovieMetadata::from_filename("Movie 1999 20٠١").unwrap();
    assert_eq!((m.title.as_str(), m.year), ("Movie 1999 20٠١", None));
}
