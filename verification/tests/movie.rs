use vidsort::parser::movie::MovieMetadata;

fn parse_movie(input: &str) -> Option<(String, Option<u32>)> {
    MovieMetadata::from_filename(input).map(|m| (m.title, m.year))
}

#[test]
fn simple_title_with_year() {
    let (title, year) = parse_movie("Inception.2010.1080p.BluRay.x264").unwrap();
    assert_eq!(title, "Inception");
    assert_eq!(year, Some(2010));
}

#[test]
fn title_with_spaces() {
    let (title, year) = parse_movie("The Dark Knight 2008 720p BluRay").unwrap();
    assert_eq!(title, "The Dark Knight");
    assert_eq!(year, Some(2008));
}

#[test]
fn title_no_year() {
    let (title, year) = parse_movie("Oppenheimer.HEVC.x265.mkv").unwrap();
    assert_eq!(title, "Oppenheimer");
    assert_eq!(year, None);
}

#[test]
fn title_with_year_in_parens_style() {
    // Year immediately followed by quality tag
    let (title, year) = parse_movie("Interstellar.2014.BluRay.1080p.DTS").unwrap();
    assert_eq!(title, "Interstellar");
    assert_eq!(year, Some(2014));
}

#[test]
fn web_dl_source() {
    let (title, year) = parse_movie("Dune.Part.Two.2024.WEB-DL.1080p.H264").unwrap();
    assert_eq!(title, "Dune Part Two");
    assert_eq!(year, Some(2024));
}

#[test]
fn multi_word_title_dots() {
    let (title, year) = parse_movie("The.Grand.Budapest.Hotel.2014.1080p").unwrap();
    assert_eq!(title, "The Grand Budapest Hotel");
    assert_eq!(year, Some(2014));
}

#[test]
fn empty_title_returns_none() {
    assert!(parse_movie("1080p.BluRay.x264").is_none());
}

#[test]
fn title_only_no_quality_tags() {
    let (title, year) = parse_movie("Alien").unwrap();
    assert_eq!(title, "Alien");
    assert_eq!(year, None);
}

#[test]
fn hdr_remux() {
    let (title, year) =
        parse_movie("Everything.Everywhere.All.at.Once.2022.2160p.BluRay.REMUX.HDR").unwrap();
    assert_eq!(title, "Everything Everywhere All at Once");
    assert_eq!(year, Some(2022));
}

#[test]
fn movie_real_world_examples() {
    let examples = [
        "Alien 1979 DC REMASTERED 1080p BluRay HEVC x265 5.1 BONE.mkv",
        "Alien Romulus 2024 1080p BluRay HEVC x265 5.1 BONE.mkv",
        "Blade 1998 1080p BluRay HEVC x265 5.1 BONE.mkv",
        "Blade II 2002 1080p BluRay HEVC x265 5.1 BONE.mkv",
        "Blade Trinity 2004 UNRATED 1080p BluRay HEVC x265 5.1 BONE.mkv",
        "Code.3.2025.1080p.WEBRip.10Bit.DDP5.1.x265-NeoNoir.mkv",
        "Dracula A Love Tale 2025 1080p HDRip HC HEVC x265 5.1 BONE.mkv",
        "Enders Game 2013 UHD BluRay 1080p DD 5 1 DoVi HDR x265-SM737.mkv",
        "Interview.with.the.Vampire.1994.1080p.BluRay.x264-OFT.mkv",
        "Men in Black International 2019 1080p WEB-DL DD5 1 H264-FGT.mkv",
        "Predator Badlands 2025 1080p HDRip HEVC x265 BONE.mkv",
        "Rogue One A Star Wars Story 2016 1080p BluRay H264 AAC 5.1.eng.srt",
        "Rogue One A Star Wars Story 2016 1080p BluRay H264 AAC 5.1.mp4",
        "Sinners 2025 1080p BluRay x264 DD 5.1.mp4",
        "Star.Wars.Episode.II.Attack.Of.The.Clones.2002.REMASTERED.1080p.BluRay.H265.5.1-RBG.mp4",
        "Star.Wars.Episode.III.Revenge.Of.The.Sith.2005.REMASTERED.1080p.BluRay.H265.5.1-RBG.mp4",
        "Star.Wars.Episode.I.The.Phantom.Menace.1999.REMASTERED.1080p.BluRay.H265.5.1-RBG.eng.srt",
        "Star.Wars.Episode.I.The.Phantom.Menace.1999.REMASTERED.1080p.BluRay.H265.5.1-RBG.mp4",
        "Star.Wars.Episode.IV.A.New.Hope.1977.REMASTERED.1080p.BluRay.H265 5.1-RBG.mp4",
        "Star.Wars.Episode.VI.Return.Of.The.Jedi.1983.REMASTERED.1080p.BluRay.H265 5.1-RBG.mp4",
        "Star.Wars.Episode.V.The.Empire.Strikes.Back.1980.REMASTERED.1080p.BluRay.H265 5.1-RBG.mp4",
        "The.Lost.Boys.1987.1080p.BluRay.x264.YIFY.mp4",
        "The Shining 1980 REMASTERED 1080p BluRay HEVC x265 5.1 BONE.mkv",
        "The.Sixth.Sense.1999.1080p.BluRay.DDP5.1.x265.10bit-GalaxyRG265.mkv",
    ];

    for input in examples {
        // Strip extension before parsing (as classifier will do)
        let stem = input.rsplit_once('.').map_or(input, |(s, _)| s);
        match MovieMetadata::from_filename(stem) {
            Some(m) => println!("{input:?}\n  => title={:?}, year={:?}\n", m.title, m.year),
            None => println!("{input:?}\n  => NONE\n"),
        }
    }
}
