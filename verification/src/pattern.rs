//! The regular expressions that file names are read with, and the calls into
//! the `regex` crate that apply them.

use vstd::prelude::*;

use crate::text::{all_digits, is_digit, texts, view_of};

verus! {

/// `SxxExx` and its common variants, with spaces, dots, underscores or dashes
/// between the two parts: `S01E05`, `S04 E04`, `S02.E05`, `S02-E05`.
pub const FULL_ID_PAT: &'static str = r"(?i)[sS](\d+)[\s._-]*[eE](\d+)";

/// `Exx` on its own, as a word: the season is not given.
pub const EP_ONLY_PAT: &'static str = r"\b[eE](\d+)\b";

/// An episode number in front, as in `09 - Title`: neither season nor show is
/// given.
pub const LEADING_NUM_PAT: &'static str = r"^(\d{1,3})\s*[-–]\s*\S";

/// A year in parentheses, which tells shows of the same name apart.
pub const YEAR_PARENS_PAT: &'static str = r"\(\d{4}\)";

/// A year from 1900 to 2099, as a word.
pub const YEAR_PAT: &'static str = r"\b((?:19|20)\d{2})\b";

/// What marks the start of quality and release metadata in a movie's file name.
pub const QUALITY_TAG_PAT: &'static str = r"(?ix)
        \b(
            # resolution / scan
            [0-9]{3,4}[ip] | uhd | 4k | 2160p | 1440p
            # video codec
            | [xh]\.?26[45]
            | hevc | avc | xvid | divx
            # source
            | blu[-.]?ray | bluray | bdrip | bdrip | remux | dvdrip | dvdscr
            | web[-.]?dl | webrip | web | hdrip | hdtv | pdtv | ts | cam
            # audio
            | dts | dolby | truehd | atmos | aac | ac3 | dd[0-9p]* | flac
            | [257]\.[01]
            # hdr
            | hdr(?:10)? | dv | dolby[-.]?vision
            # release flags
            | repack | proper | extended | theatrical | dc | unrated
            | remastered | complete | season | S\d{2}
        )\b
        ";

/// What marks bonus material: trailers, featurettes, interviews and the like.
pub const EXTRAS_PAT: &'static str =
    r"(?i)\b(featurettes?|trailer|behind[._-]the[._-]scenes|deleted[._-]scene|interview)\b";

/// Whether a text is one of the regular expressions above.
pub open spec fn is_pattern(pattern: Seq<char>) -> bool {
    ||| has_groups(pattern)
    ||| pattern == YEAR_PARENS_PAT@
    ||| pattern == QUALITY_TAG_PAT@
    ||| pattern == EXTRAS_PAT@
}

/// Whether a text is one of the regular expressions above whose groups take part
/// in every match.
pub open spec fn has_groups(pattern: Seq<char>) -> bool {
    ||| pattern == FULL_ID_PAT@
    ||| pattern == EP_ONLY_PAT@
    ||| pattern == LEADING_NUM_PAT@
    ||| pattern == YEAR_PAT@
}

/// Whether a match of `pattern` has `count` groups, the whole match among them.
pub open spec fn groups_fit(pattern: Seq<char>, count: nat) -> bool {
    &&& pattern == FULL_ID_PAT@ ==> count == 3
    &&& pattern == EP_ONLY_PAT@ ==> count == 2
    &&& pattern == LEADING_NUM_PAT@ ==> count == 2
    &&& pattern == YEAR_PAT@ ==> count == 2
}

/// Whether `part` is how `text` begins.
pub open spec fn begins_with(text: Seq<char>, part: Seq<char>) -> bool {
    part.len() <= text.len() && text.take(part.len() as int) == part
}

/// What stands in front of a match is how the text begins.
pub proof fn lemma_front(text: Seq<char>, before: Seq<char>, matched: Seq<char>)
    requires
        begins_with(text, before + matched),
    ensures
        before.len() <= text.len(),
        text.take(before.len() as int) == before,
{
    assert((before + matched).take(before.len() as int) =~= before);
    assert(text.take((before + matched).len() as int).take(before.len() as int) =~= text.take(
        before.len() as int,
    ));
}

/// Whether a text, put behind another, leaves the number at its end as it is: it is
/// empty, or begins with an ASCII character that is no digit.
pub open spec fn stands_apart(rest: Seq<char>) -> bool {
    rest.len() > 0 ==> (rest[0] as int) < 128 && !is_digit(rest[0])
}

/// Whether a character may stand in front of a marker with season and episode, or
/// between its parts.
pub open spec fn is_gap(c: char) -> bool {
    c == ' ' || c == '.' || c == '_' || c == '-'
}

/// A marker with season and episode.
pub open spec fn marker_of(season: Seq<char>, gap: Seq<char>, episode: Seq<char>) -> Seq<char> {
    seq!['S'] + season + gap + seq!['E'] + episode
}

/// A text with a marker at its end, and `c` in front of that.
pub open spec fn marked(
    front: Seq<char>,
    c: char,
    season: Seq<char>,
    gap: Seq<char>,
    episode: Seq<char>,
) -> Seq<char> {
    front.push(c) + marker_of(season, gap, episode)
}

/// Whether season and episode are numbers, and only gaps stand around the season.
pub open spec fn is_marker(c: char, season: Seq<char>, gap: Seq<char>, episode: Seq<char>) -> bool {
    &&& is_gap(c)
    &&& all_digits(season)
    &&& all_digits(episode)
    &&& forall|i: int| 0 <= i < gap.len() ==> is_gap(#[trigger] gap[i])
}

/// A text with a quality tag between spaces in it.
pub open spec fn tagged(front: Seq<char>, rest: Seq<char>) -> Seq<char> {
    front + " 1080p "@ + rest
}

/// A match: the text in front of it, and the text of each group, the whole match
/// first.
#[derive(Debug)]
pub struct Captured {
    pub before: String,
    pub groups: Vec<String>,
}

impl View for Captured {
    type V = (Seq<char>, Seq<Seq<char>>);

    open spec fn view(&self) -> (Seq<char>, Seq<Seq<char>>) {
        (self.before@, texts(self.groups@))
    }
}

/// What a sequence of matches holds.
pub open spec fn matches_of(all: Seq<Captured>) -> Seq<(Seq<char>, Seq<Seq<char>>)> {
    all.map_values(|c: Captured| c@)
}

/// What `regex::Regex::is_match` says of a pattern and a text.
pub uninterp spec fn regex_is_match(pattern: Seq<char>, text: Seq<char>) -> bool;

/// What `regex::Regex::find` finds of a pattern in a text: the text in front of
/// the match, and the match.
pub uninterp spec fn regex_find(pattern: Seq<char>, text: Seq<char>) -> Option<
    (Seq<char>, Seq<char>),
>;

/// What `regex::Regex::captures` finds of a pattern in a text: the text in front
/// of the match, and its groups.
pub uninterp spec fn regex_captures(pattern: Seq<char>, text: Seq<char>) -> Option<
    (Seq<char>, Seq<Seq<char>>),
>;

/// What `regex::Regex::captures_iter` finds of a pattern in a text: each match
/// in turn, with the text in front of it and its groups.
pub uninterp spec fn regex_captures_iter(pattern: Seq<char>, text: Seq<char>) -> Seq<
    (Seq<char>, Seq<Seq<char>>),
>;

/// What `regex::Regex::replace_all` makes of a text.
pub uninterp spec fn regex_replace_all(
    pattern: Seq<char>,
    text: Seq<char>,
    replacement: Seq<char>,
) -> Seq<char>;

/// Calls `regex::Regex::is_match`. The result depends on the pattern and the
/// text alone; each of the patterns above compiles.
#[verifier::external_body]
pub(crate) fn is_match(pattern: &str, text: &str) -> (r: bool)
    requires
        is_pattern(pattern@),
    ensures
        r == regex_is_match(pattern@, text@),
{
    regex::Regex::new(pattern).unwrap().is_match(text)
}

/// Calls `regex::Regex::find`, which returns the leftmost match. The result
/// depends on the pattern and the text alone, and the text begins with what
/// stands in front of the match and then the match.
///
/// A match of [`QUALITY_TAG_PAT`] holds no space, and a space bounds words as the end
/// of a text does. So a text with ` 1080p ` in it has the match that its part in front
/// of that has; if that part has none, the match is this `1080p`.
#[verifier::external_body]
pub(crate) fn find(pattern: &str, text: &str) -> (r: Option<(String, String)>)
    requires
        is_pattern(pattern@),
    ensures
        (match r {
            Some((before, matched)) => Some((before@, matched@)),
            None => None,
        }) == regex_find(pattern@, text@),
        r matches Some((before, matched)) ==> begins_with(text@, before@ + matched@),
        pattern@ == QUALITY_TAG_PAT@ ==> forall|front: Seq<char>, rest: Seq<char>|
            text@ == #[trigger] tagged(front, rest) ==> (match r {
                Some((before, matched)) => Some((before@, matched@)),
                None => None,
            }) == match regex_find(pattern@, front) {
                Some(m) => Some(m),
                None => Some((front.push(' '), "1080p"@)),
            },
{
    regex::Regex::new(pattern).unwrap().find(text).map(
        |m| (text[..m.start()].to_owned(), m.as_str().to_owned()),
    )
}

/// Calls `regex::Regex::captures`, which returns the groups of the leftmost
/// match. The result depends on the pattern and the text alone; the text begins
/// with what stands in front of the match and then the match, and the number of
/// groups is the one that the pattern has.
///
/// A match of [`FULL_ID_PAT`] stays the leftmost one, and as long as it is, whatever
/// is put behind the text without going on with its digits: a match that begins
/// further left and reaches behind the text would have to run over the `S` of this
/// one, which the pattern allows at its beginning only; each of its repetitions is
/// greedy, and what may follow one of them is nothing that it could take. For the
/// same reasons a marker at the end of a text, behind a part without a match and one
/// character of a gap, is the match, and its numbers are the groups.
#[verifier::external_body]
pub(crate) fn captures(pattern: &str, text: &str) -> (r: Option<Captured>)
    requires
        has_groups(pattern@),
    ensures
        view_of(r) == regex_captures(pattern@, text@),
        r matches Some(c) ==> groups_fit(pattern@, c.groups@.len()) && begins_with(
            text@,
            c.before@ + c.groups@[0]@,
        ),
        r is Some && pattern@ == FULL_ID_PAT@ ==> forall|rest: Seq<char>|
            stands_apart(rest) ==> #[trigger] regex_captures(pattern@, text@ + rest) == view_of(r),
        pattern@ == FULL_ID_PAT@ ==> forall|
            front: Seq<char>,
            c: char,
            season: Seq<char>,
            gap: Seq<char>,
            episode: Seq<char>,
        |
            text@ == #[trigger] marked(front, c, season, gap, episode) && is_marker(
                c,
                season,
                gap,
                episode,
            ) && regex_captures(pattern@, front) is None ==> view_of(r) == Some(
                (
                    front.push(c),
                    seq![marker_of(season, gap, episode), season, episode],
                ),
            ),
{
    regex::Regex::new(pattern).unwrap().captures(text).map(
        |c|
            Captured {
                before: text[..c.get_match().start()].to_owned(),
                groups: c.iter().map(|g| g.unwrap().as_str().to_owned()).collect(),
            },
    )
}

/// Calls `regex::Regex::captures_iter`, which goes through the matches from left
/// to right. The result depends on the pattern and the text alone, and each match
/// has the number of groups that the pattern has. A space at the end of a text bounds
/// words as the end itself does, so without it [`YEAR_PAT`] has the same matches.
#[verifier::external_body]
pub(crate) fn captures_iter(pattern: &str, text: &str) -> (r: Vec<Captured>)
    requires
        has_groups(pattern@),
    ensures
        matches_of(r@) == regex_captures_iter(pattern@, text@),
        forall|i: int|
            0 <= i < r@.len() ==> groups_fit(pattern@, (#[trigger] r@[i]).groups@.len()),
        pattern@ == YEAR_PAT@ && text@.len() > 0 && text@.last() == ' ' ==> matches_of(r@)
            == regex_captures_iter(pattern@, text@.drop_last()),
{
    let found = regex::Regex::new(pattern).unwrap();
    found.captures_iter(text).map(
        |c|
            Captured {
                before: text[..c.get_match().start()].to_owned(),
                groups: c.iter().map(|g| g.unwrap().as_str().to_owned()).collect(),
            },
    ).collect()
}

/// Calls `regex::Regex::replace_all`, which replaces each match. The result
/// depends on the pattern, the text and the replacement alone. A match of
/// [`YEAR_PARENS_PAT`] ends with `)`, so any other character at the end of a text
/// stays there.
#[verifier::external_body]
pub(crate) fn replace_all(pattern: &str, text: &str, replacement: &str) -> (r: String)
    requires
        is_pattern(pattern@),
    ensures
        r@ == regex_replace_all(pattern@, text@, replacement@),
        pattern@ == YEAR_PARENS_PAT@ && text@.len() > 0 && text@.last() != ')' ==> r@
            == regex_replace_all(pattern@, text@.drop_last(), replacement@).push(text@.last()),
{
    regex::Regex::new(pattern).unwrap().replace_all(text, replacement).into_owned()
}

// ── laws ─────────────────────────────────────────────────────────────────────

/// What stands for matches leaves nothing out.
pub proof fn matches_show_everything(all: Seq<Captured>)
    ensures
        matches_of(all).len() == all.len(),
        forall|i: int|
            0 <= i < all.len() ==> #[trigger] matches_of(all)[i] == (
                all[i].before@,
                texts(all[i].groups@),
            ),
{
}

/// What each regular expression is written as.
pub proof fn expressions_are_as_written()
    ensures
        FULL_ID_PAT@ == r"(?i)[sS](\d+)[\s._-]*[eE](\d+)"@,
        EP_ONLY_PAT@ == r"\b[eE](\d+)\b"@,
        LEADING_NUM_PAT@ == r"^(\d{1,3})\s*[-–]\s*\S"@,
        YEAR_PARENS_PAT@ == r"\(\d{4}\)"@,
        YEAR_PAT@ == r"\b((?:19|20)\d{2})\b"@,
        EXTRAS_PAT@
            == r"(?i)\b(featurettes?|trailer|behind[._-]the[._-]scenes|deleted[._-]scene|interview)\b"@,
        QUALITY_TAG_PAT@ == r"(?ix)
        \b(
            # resolution / scan
            [0-9]{3,4}[ip] | uhd | 4k | 2160p | 1440p
            # video codec
            | [xh]\.?26[45]
            | hevc | avc | xvid | divx
            # source
            | blu[-.]?ray | bluray | bdrip | bdrip | remux | dvdrip | dvdscr
            | web[-.]?dl | webrip | web | hdrip | hdtv | pdtv | ts | cam
            # audio
            | dts | dolby | truehd | atmos | aac | ac3 | dd[0-9p]* | flac
            | [257]\.[01]
            # hdr
            | hdr(?:10)? | dv | dolby[-.]?vision
            # release flags
            | repack | proper | extended | theatrical | dc | unrated
            | remastered | complete | season | S\d{2}
        )\b
        "@,
{
}

} // verus!
