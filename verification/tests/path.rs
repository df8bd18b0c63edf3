use vidsort::classifier::is_video;
use vidsort::config::DirConfig;
use vidsort::linker::{link_other, Link, LinkStep};
use vidsort::path::{parent_components, stem_or_empty};
use vidsort::types::TorrentFile;

fn file(name: &str) -> TorrentFile {
    TorrentFile { name: name.to_string(), length: 1 }
}

fn joined(base: &str, name: &str) -> String {
    let dirs = DirConfig {
        movies: "m".to_string(),
        shows: "s".to_string(),
        other: base.to_string(),
    };
    let links = link_other(&[file(name)], "", &dirs);
    links[0].dst.clone()
}

#[test]
fn stems() {
    assert_eq!(stem_or_empty("a/b/Harrow.S01E01.mkv"), "Harrow.S01E01");
    assert_eq!(stem_or_empty("noext"), "noext");
    assert_eq!(stem_or_empty(".hidden"), ".hidden");
    assert_eq!(stem_or_empty("foo."), "foo");
    assert_eq!(stem_or_empty("..foo"), ".");
    assert_eq!(stem_or_empty("dir/x.mkv/"), "x");
    assert_eq!(stem_or_empty("dir/x.mkv/."), "x");
    assert_eq!(stem_or_empty("dir/.."), "");
    assert_eq!(stem_or_empty("."), "");
    assert_eq!(stem_or_empty("/"), "");
    assert_eq!(stem_or_empty(""), "");
}

#[test]
fn parents() {
    assert_eq!(parent_components("a/b/c.mkv"), ["a", "b"]);
    assert_eq!(parent_components("a//b/./c.mkv/"), ["a", "b"]);
    assert_eq!(parent_components("./a/b"), [".", "a"]);
    assert_eq!(parent_components("../a/b"), ["..", "a"]);
    assert_eq!(parent_components("/a/b"), ["/", "a"]);
    assert_eq!(parent_components("/a"), ["/"]);
    assert_eq!(parent_components("/./a"), ["/"]);
    let none: [&str; 0] = [];
    assert_eq!(parent_components("a"), none);
    assert_eq!(parent_components("."), none);
    assert_eq!(parent_components("./."), none);
    assert_eq!(parent_components("/"), none);
    assert_eq!(parent_components(""), none);
}

#[test]
fn extensions() {
    assert!(is_video(&file("a/b.mkv")));
    assert!(is_video(&file("b.x.m4v")));
    assert!(!is_video(&file("b.MKV")));
    assert!(!is_video(&file(".mkv")));
    assert!(!is_video(&file("mkv")));
    assert!(!is_video(&file("b.mkv.")));
    assert!(!is_video(&file("b.mkv/..")));
    assert!(!is_video(&file("")));
    for ext in ["mkv", "mp4", "avi", "mov", "wmv", "m4v"] {
        assert!(is_video(&file(&format!("x.{ext}"))));
    }
    assert!(!is_video(&file("x.srt")));
}

#[test]
fn joins() {
    assert_eq!(joined("/lib/other", "a/b.nfo"), "/lib/other/a/b.nfo");
    assert_eq!(joined("/lib/other/", "a"), "/lib/other/a");
    assert_eq!(joined("", "a"), "a");
    assert_eq!(joined("/lib", "/abs"), "/abs");
    assert_eq!(joined("/lib", ""), "/lib/");
    assert_eq!(joined("/", "a"), "/a");
}

#[test]
fn directory_of_a_link() {
    let step = |dst: &str| Link { src: "s".to_string(), dst: dst.to_string() }.first_step();
    assert!(matches!(step("/lib/a/b.mkv"), LinkStep::CreateDirectory(d) if d == "/lib/a"));
    assert!(matches!(step("b.mkv"), LinkStep::CreateDirectory(d) if d.is_empty()));
    assert!(matches!(step("/"), LinkStep::LinkFile));
    assert!(matches!(step(""), LinkStep::LinkFile));
}
