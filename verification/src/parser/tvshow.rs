//! Episode numbers and show titles.

use vstd::prelude::*;

use crate::pattern::{
    captures, is_gap, is_marker, lemma_front, marked, marker_of, regex_captures, regex_replace_all,
    replace_all, stands_apart, Captured, EP_ONLY_PAT, FULL_ID_PAT, LEADING_NUM_PAT,
    YEAR_PARENS_PAT,
};
use crate::text::{
    are_words, is_single_spaced, is_white_space, join, joined, joining_goes_text_by_text,
    keep_non_empty, lemma_joined_push, lemma_joined_words, lemma_non_empty_drops_last,
    lemma_non_empty_keeps_words, lemma_pieces_are_free, lemma_split_joined, lemma_trimmed_word,
    lemma_trimmed_words, lemma_two_digits_value, non_empty, parse_u32, split, split_on,
    splitting_goes_piece_by_piece, texts, texts_that_are_not_empty_are_kept, trim, trimmed,
    two_digits, two_digits_round_trip, u32_of, view_of,
};

verus! {

/// What a file name says of an episode: the title of the show, which may be
/// empty, and the number of the episode.
#[derive(Debug)]
pub struct EpisodeMetadata {
    pub show: String,
    pub episode: EpisodeId,
}

/// The number of an episode within its show.
#[derive(Debug, Clone, Copy, PartialEq, Eq, Hash, Structural)]
pub struct EpisodeId {
    pub season: u32,
    pub episode: u32,
}

impl View for EpisodeMetadata {
    type V = (Seq<char>, EpisodeId);

    open spec fn view(&self) -> (Seq<char>, EpisodeId) {
        (self.show@, self.episode)
    }
}

impl Clone for EpisodeMetadata {
    fn clone(&self) -> (r: Self)
        ensures
            r == *self,
    {
        EpisodeMetadata { show: self.show.clone(), episode: self.episode }
    }
}

/// The ways in which a file name numbers an episode.
#[derive(Debug, Clone, Copy, PartialEq, Eq, Structural)]
pub enum Marker {
    /// Season and episode, as in `S01E05`.
    FullId,
    /// The episode alone, as in `E05`.
    EpisodeOnly,
    /// The episode in front, as in `05 - Title`.
    LeadingNumber,
}

/// The characters between the words of a title.
pub open spec fn title_separators() -> Seq<char> {
    seq![' ', '.', '_', '-']
}

/// The words of a text in which years in parentheses are already gone, with one
/// space between them.
pub open spec fn title_of(stripped: Seq<char>) -> Seq<char> {
    joined(
        non_empty(
            split_on(stripped, title_separators()).map_values(|p: Seq<char>| trimmed(p)),
        ),
        " "@,
    )
}

/// A show's title, read from the part of the file name that holds it.
pub open spec fn normalized_title(raw: Seq<char>) -> Seq<char> {
    title_of(regex_replace_all(YEAR_PARENS_PAT@, raw, ""@))
}

/// An episode whose numbers are given as texts; without a season text the season
/// is the first. A number that cannot be read makes it none.
pub open spec fn numbered(show: Seq<char>, season: Option<Seq<char>>, episode: Seq<char>) -> Option<
    (Seq<char>, EpisodeId),
> {
    let season_number = match season {
        Some(t) => u32_of(t),
        None => Some(1u32),
    };
    match (season_number, u32_of(episode)) {
        (Some(s), Some(e)) => Some((show, EpisodeId { season: s, episode: e })),
        _ => None,
    }
}

/// The episode that a match of a marker describes.
pub open spec fn episode_of_match(marker: Marker, captured: (Seq<char>, Seq<Seq<char>>)) -> Option<
    (Seq<char>, EpisodeId),
> {
    match marker {
        Marker::FullId => numbered(
            normalized_title(captured.0),
            Some(captured.1[1]),
            captured.1[2],
        ),
        Marker::EpisodeOnly => numbered(normalized_title(captured.0), None, captured.1[1]),
        Marker::LeadingNumber => numbered(Seq::<char>::empty(), None, captured.1[1]),
    }
}

/// The episode that a file name without extension describes: the first marker
/// that occurs decides.
pub open spec fn episode_of(value: Seq<char>) -> Option<(Seq<char>, EpisodeId)> {
    match regex_captures(FULL_ID_PAT@, value) {
        Some(c) => episode_of_match(Marker::FullId, c),
        None => match regex_captures(EP_ONLY_PAT@, value) {
            Some(c) => episode_of_match(Marker::EpisodeOnly, c),
            None => match regex_captures(LEADING_NUM_PAT@, value) {
                Some(c) => episode_of_match(Marker::LeadingNumber, c),
                None => None,
            },
        },
    }
}

/// A name made of a text, a gap and a marker with the given numbers.
pub open spec fn marked_name(
    front: Seq<char>,
    c: char,
    season: u32,
    gap: Seq<char>,
    episode: u32,
) -> Seq<char> {
    marked(front, c, two_digits(season as nat), gap, two_digits(episode as nat))
}

/// Whether a text holds no marker with season and episode, and only gaps stand around
/// the season of one that is put behind it.
pub open spec fn takes_marker(front: Seq<char>, c: char, gap: Seq<char>) -> bool {
    &&& regex_captures(FULL_ID_PAT@, front) is None
    &&& is_gap(c)
    &&& forall|i: int| 0 <= i < gap.len() ==> is_gap(#[trigger] gap[i])
}

/// What the number of an episode is read as: the one that the name describes, which
/// is that of a marker put behind a text without one.
pub open spec fn is_read_as(value: Seq<char>, id: Option<EpisodeId>) -> bool {
    &&& id == match episode_of(value) {
        Some(m) => Some(m.1),
        None => None,
    }
    &&& forall|front: Seq<char>, c: char, season: u32, gap: Seq<char>, episode: u32|
        value == #[trigger] marked_name(front, c, season, gap, episode) && takes_marker(
            front,
            c,
            gap,
        ) ==> id == Some(EpisodeId { season, episode })
}

/// Puts the words of a title together, with one space between them.
pub fn title_words(stripped: &str) -> (r: String)
    ensures
        r@ == title_of(stripped@),
{
    let pieces = split(stripped, &[' ', '.', '_', '-']);
    assert([' ', '.', '_', '-']@ == title_separators());
    let ghost all = split_on(stripped@, title_separators());
    let mut words: Vec<String> = Vec::new();
    let mut i: usize = 0;
    while i < pieces.len()
        invariant
            i <= pieces.len(),
            texts(pieces@) == all,
            texts(words@) == all.take(i as int).map_values(|p: Seq<char>| trimmed(p)),
        decreases pieces.len() - i,
    {
        let ghost before = words@;
        assert(pieces@[i as int]@ == texts(pieces@)[i as int]);
        words.push(trim(pieces[i].as_str()));
        i += 1;
        proof {
            let f = |p: Seq<char>| trimmed(p);
            assert(texts(words@) == texts(before).push(f(all[i - 1])));
            assert(all.take(i as int).map_values(f) == all.take(i - 1).map_values(f).push(
                f(all[i - 1]),
            ));
        }
    }
    assert(all.take(all.len() as int) == all);
    join(&keep_non_empty(words), " ")
}

/// A separator at the end of a text is no part of its title.
proof fn lemma_title_without_last(stripped: Seq<char>)
    requires
        stripped.len() > 0,
        title_separators().contains(stripped.last()),
    ensures
        title_of(stripped) == title_of(stripped.drop_last()),
{
    let trim = |p: Seq<char>| trimmed(p);
    let pieces = split_on(stripped.drop_last(), title_separators());
    let none = Seq::<char>::empty();
    assert(split_on(stripped, title_separators()) == pieces.push(none));
    assert(trimmed(none) == none);
    assert(pieces.push(none).map_values(trim) =~= pieces.map_values(trim).push(none));
    lemma_non_empty_drops_last(pieces.map_values(trim));
}

/// Reads a show's title: years in parentheses are dropped, and the words are put
/// together with one space between them. A separator at the end changes nothing.
pub fn normalize_title(raw: &str) -> (r: String)
    ensures
        r@ == normalized_title(raw@),
        raw@.len() > 0 && title_separators().contains(raw@.last()) ==> r@ == normalized_title(
            raw@.drop_last(),
        ),
{
    let stripped = replace_all(YEAR_PARENS_PAT, raw, "");
    proof {
        if raw@.len() > 0 && title_separators().contains(raw@.last()) {
            let front = regex_replace_all(YEAR_PARENS_PAT@, raw@.drop_last(), ""@);
            assert(stripped@ == front.push(raw@.last()));
            assert(stripped@.drop_last() =~= front);
            lemma_title_without_last(stripped@);
        }
    }
    title_words(stripped.as_str())
}

impl EpisodeMetadata {
    /// Reads the numbers of an episode of a given show.
    pub fn numbered(show: String, season: Option<&str>, episode: &str) -> (r: Option<Self>)
        ensures
            view_of(r) == numbered(show@, view_of(season), episode@),
    {
        let season: u32 = match season {
            Some(t) => match parse_u32(t) {
                Some(n) => n,
                None => return None,
            },
            None => 1,
        };
        match parse_u32(episode) {
            Some(episode) => Some(
                EpisodeMetadata { show, episode: EpisodeId { season, episode } },
            ),
            None => None,
        }
    }

    /// Reads the episode that a match of a marker describes. A separator in front of
    /// the marker is no part of the title.
    pub fn from_match(marker: Marker, captured: &Captured) -> (r: Option<Self>)
        requires
            captured.groups@.len() >= 2,
            marker == Marker::FullId ==> captured.groups@.len() >= 3,
        ensures
            view_of(r) == episode_of_match(marker, captured@),
            captured.before@.len() > 0 && title_separators().contains(captured.before@.last())
                ==> view_of(r) == episode_of_match(
                marker,
                (captured.before@.drop_last(), texts(captured.groups@)),
            ),
    {
        match marker {
            Marker::FullId => {
                let show = normalize_title(captured.before.as_str());
                Self::numbered(
                    show,
                    Some(captured.groups[1].as_str()),
                    captured.groups[2].as_str(),
                )
            },
            Marker::EpisodeOnly => {
                let show = normalize_title(captured.before.as_str());
                Self::numbered(show, None, captured.groups[1].as_str())
            },
            Marker::LeadingNumber => Self::numbered(
                String::new(),
                None,
                captured.groups[1].as_str(),
            ),
        }
    }

    /// Reads episode metadata from a file name without its extension.
    ///
    /// The title is what precedes the episode marker. For an episode number in
    /// front the title is empty: the show's name has to come from elsewhere. What
    /// follows a marker with season and episode is ignored. A text without such a marker
    /// and one put behind it are read as they were put together.
    pub fn from_filename(value: &str) -> (r: Option<Self>)
        ensures
            view_of(r) == episode_of(value@),
            r matches Some(m) ==> m.show@.len() == 0 || exists|n: int|
                0 <= n <= value@.len() && m.show@ == normalized_title(#[trigger] value@.take(n)),
            regex_captures(FULL_ID_PAT@, value@) is Some ==> forall|rest: Seq<char>|
                stands_apart(rest) ==> #[trigger] episode_of(value@ + rest) == view_of(r),
            forall|front: Seq<char>, c: char, season: u32, gap: Seq<char>, episode: u32|
                value@ == #[trigger] marked_name(front, c, season, gap, episode) && takes_marker(
                    front,
                    c,
                    gap,
                ) ==> view_of(r) == Some(
                    (normalized_title(front), EpisodeId { season, episode }),
                ),
    {
        let full = captures(FULL_ID_PAT, value);
        proof {
            assert forall|front: Seq<char>, c: char, season: u32, gap: Seq<char>, episode: u32|
                value@ == #[trigger] marked_name(front, c, season, gap, episode) && takes_marker(
                    front,
                    c,
                    gap,
                ) implies view_of(full) matches Some(m) && m.0.len() > 0
                && title_separators().contains(m.0.last()) && episode_of_match(
                Marker::FullId,
                (m.0.drop_last(), m.1),
            ) == Some((normalized_title(front), EpisodeId { season, episode })) by {
                let (a, b) = (two_digits(season as nat), two_digits(episode as nat));
                lemma_two_digits_value(season as nat);
                lemma_two_digits_value(episode as nat);
                assert(is_marker(c, a, gap, b));
                assert(value@ == marked(front, c, a, gap, b));
                assert(view_of(full) == Some((front.push(c), seq![marker_of(a, gap, b), a, b])));
                two_digits_round_trip(season);
                two_digits_round_trip(episode);
                assert(front.push(c).drop_last() =~= front);
                let separators = title_separators();
                assert(separators[0] == ' ' && separators[1] == '.' && separators[2] == '_'
                    && separators[3] == '-');
            }
        }
        if let Some(c) = full {
            proof {
                lemma_front(value@, c.before@, c.groups@[0]@);
            }
            return Self::from_match(Marker::FullId, &c);
        }
        if let Some(c) = captures(EP_ONLY_PAT, value) {
            proof {
                lemma_front(value@, c.before@, c.groups@[0]@);
            }
            return Self::from_match(Marker::EpisodeOnly, &c);
        }
        if let Some(c) = captures(LEADING_NUM_PAT, value) {
            return Self::from_match(Marker::LeadingNumber, &c);
        }
        None
    }
}

impl EpisodeId {
    /// Reads the number of an episode from a file name without its extension.
    pub fn from_filename(value: &str) -> (r: Option<Self>)
        ensures
            is_read_as(value@, r),
    {
        match EpisodeMetadata::from_filename(value) {
            Some(m) => Some(m.episode),
            None => None,
        }
    }
}

// ── laws ─────────────────────────────────────────────────────────────────────

/// The words that a title is made of.
spec fn title_pieces(stripped: Seq<char>) -> Seq<Seq<char>> {
    non_empty(split_on(stripped, title_separators()).map_values(|p: Seq<char>| trimmed(p)))
}

proof fn lemma_title_pieces(stripped: Seq<char>)
    ensures
        title_separators().contains(' '),
        are_words(title_pieces(stripped), title_separators()),
        forall|i: int|
            0 <= i < title_pieces(stripped).len() ==> trimmed(#[trigger] title_pieces(stripped)[i])
                == title_pieces(stripped)[i],
{
    assert(title_separators()[0] == ' ');
    lemma_pieces_are_free(stripped, title_separators());
    lemma_trimmed_words(split_on(stripped, title_separators()), title_separators());
}

/// A title is clean: there is one space between its words, none at its ends, and
/// no other separator.
pub proof fn titles_are_clean(stripped: Seq<char>)
    ensures
        is_single_spaced(title_of(stripped)),
        forall|i: int|
            0 <= i < title_of(stripped).len() ==> (title_separators().contains(
                #[trigger] title_of(stripped)[i],
            ) ==> title_of(stripped)[i] == ' '),
{
    lemma_title_pieces(stripped);
    lemma_joined_words(title_pieces(stripped), title_separators());
}

/// A title that is put together once is put together for good.
pub proof fn titles_are_stable(stripped: Seq<char>)
    ensures
        title_of(title_of(stripped)) == title_of(stripped),
{
    let words = title_pieces(stripped);
    let trim = |p: Seq<char>| trimmed(p);
    lemma_title_pieces(stripped);
    if words.len() == 0 {
        let none = Seq::<char>::empty();
        reveal_with_fuel(Seq::filter, 2);
        assert(split_on(none, title_separators()).map_values(trim) =~= seq![none]);
        assert(seq![none].drop_last() =~= Seq::<Seq<char>>::empty());
        assert(title_pieces(none) =~= Seq::<Seq<char>>::empty());
    } else {
        lemma_split_joined(words, title_separators());
        assert(words.map_values(trim) =~= words);
        lemma_non_empty_keeps_words(words, title_separators());
    }
}

/// What follows a marker with season and episode is ignored: names in which the
/// marker is found alike describe the same episode.
pub proof fn what_follows_the_marker_is_ignored(v: Seq<char>, w: Seq<char>)
    requires
        regex_captures(FULL_ID_PAT@, v) is Some,
        regex_captures(FULL_ID_PAT@, w) == regex_captures(FULL_ID_PAT@, v),
    ensures
        episode_of(w) == episode_of(v),
{
}

/// An episode without a season in its name belongs to the first season, and one
/// whose number is in front has no title.
pub proof fn season_is_the_first_unless_given(captured: (Seq<char>, Seq<Seq<char>>))
    ensures
        episode_of_match(Marker::EpisodeOnly, captured) matches Some(m) ==> m.1.season == 1,
        episode_of_match(Marker::LeadingNumber, captured) matches Some(m) ==> m.1.season == 1
            && m.0.len() == 0,
{
}

/// What a name says of an episode is all there is of it.
pub proof fn episode_shows_everything(m: EpisodeMetadata)
    ensures
        m@ == (m.show@, m.episode),
{
}

/// A title grows by whatever is put behind a separator: by the text between two
/// separators, without the white space around it, and with one space in front of it. A
/// text without separators is a title of its own; separators alone add nothing.
pub proof fn titles_grow_piece_by_piece(s: Seq<char>, c: char, piece: Seq<char>)
    requires
        c == ' ' || c == '.' || c == '_' || c == '-',
        forall|i: int|
            0 <= i < piece.len() ==> #[trigger] piece[i] != ' ' && piece[i] != '.' && piece[i] != '_'
                && piece[i] != '-',
    ensures
        title_of(Seq::empty()) == Seq::<char>::empty(),
        title_of(piece) == trimmed(piece),
        title_of(s.push(c) + piece) == (if trimmed(piece).len() == 0 {
            title_of(s)
        } else if title_of(s).len() == 0 {
            trimmed(piece)
        } else {
            title_of(s).push(' ') + trimmed(piece)
        }),
{
    let separators = title_separators();
    let trim = |p: Seq<char>| trimmed(p);
    assert(separators[0] == ' ' && separators[1] == '.' && separators[2] == '_' && separators[3]
        == '-');
    assert(forall|i: int|
        0 <= i < piece.len() ==> !separators.contains(#[trigger] piece[i]));
    let none = Seq::<char>::empty();
    splitting_goes_piece_by_piece(none, c, none, separators);
    splitting_goes_piece_by_piece(piece, c, none, separators);
    splitting_goes_piece_by_piece(s, c, piece, separators);
    let pieces = split_on(s, separators);
    let nothing = Seq::<Seq<char>>::empty();
    assert(trimmed(none) == none);
    assert(seq![none].map_values(trim) =~= nothing.push(none));
    assert(seq![piece].map_values(trim) =~= nothing.push(trimmed(piece)));
    texts_that_are_not_empty_are_kept(nothing, none);
    texts_that_are_not_empty_are_kept(nothing, trimmed(piece));
    assert(non_empty(nothing) =~= nothing);
    assert(nothing.push(trimmed(piece)) =~= seq![trimmed(piece)]);
    joining_goes_text_by_text(nothing, trimmed(piece), " "@);
    assert((pieces + seq![piece]).map_values(trim) =~= pieces.map_values(trim).push(
        trimmed(piece),
    ));
    texts_that_are_not_empty_are_kept(pieces.map_values(trim), trimmed(piece));
    lemma_title_pieces(s);
    lemma_joined_push(title_pieces(s), trimmed(piece), separators);
}

/// No word of a title is lost: words with any one separator between them are read as
/// those words, with spaces between them, however many there are.
pub proof fn no_word_of_a_title_is_lost(words: Seq<Seq<char>>, c: char)
    requires
        c == ' ' || c == '.' || c == '_' || c == '-',
        forall|i: int|
            0 <= i < words.len() ==> (#[trigger] words[i]).len() > 0 && !is_white_space(words[i][0])
                && !is_white_space(words[i].last()),
        forall|i: int, j: int|
            0 <= i < words.len() && 0 <= j < words[i].len() ==> #[trigger] words[i][j] != ' '
                && words[i][j] != '.' && words[i][j] != '_' && words[i][j] != '-',
    ensures
        title_of(joined(words, seq![c])) == joined(words, seq![' ']),
        words.len() > 0 ==> joined(words, seq![' ']).len() > 0,
    decreases words.len(),
{
    let none = Seq::<char>::empty();
    if words.len() == 0 {
        titles_grow_piece_by_piece(none, c, none);
    } else {
        let front = words.drop_last();
        let word = words[words.len() - 1];
        assert(forall|i: int| 0 <= i < front.len() ==> #[trigger] front[i] == words[i]);
        no_word_of_a_title_is_lost(front, c);
        lemma_trimmed_word(word);
        titles_grow_piece_by_piece(joined(front, seq![c]), c, word);
        assert(joined(front, seq![c]) + seq![c] + word =~= joined(front, seq![c]).push(c) + word);
        assert(joined(front, seq![' ']) + seq![' '] + word =~= joined(front, seq![' ']).push(' ')
            + word);
    }
}

/// A show's title is made of what is left when the years in parentheses are gone.
pub proof fn years_in_parentheses_are_dropped(raw: Seq<char>, left: Seq<char>)
    requires
        left == regex_replace_all(YEAR_PARENS_PAT@, raw, Seq::empty()),
    ensures
        normalized_title(raw) == title_of(left),
{
    reveal_strlit("");
    assert(""@ =~= Seq::<char>::empty());
}

/// An episode has the numbers that are written, the first season if none is, and the
/// show that is given; it is none exactly if one of the numbers cannot be read.
pub proof fn episodes_have_the_numbers_written(
    show: Seq<char>,
    season: Seq<char>,
    episode: Seq<char>,
)
    ensures
        numbered(show, Some(season), episode) == (match (u32_of(season), u32_of(episode)) {
            (Some(s), Some(e)) => Some((show, EpisodeId { season: s, episode: e })),
            _ => None,
        }),
        numbered(show, None, episode) == (match u32_of(episode) {
            Some(e) => Some((show, EpisodeId { season: 1, episode: e })),
            None => None,
        }),
{
}

/// A marker with season and episode decides wherever it stands; without one, a marker
/// with the episode alone does; without that, a number in front; without any, there is no
/// episode. What precedes a marker is the title, and a number in front has none.
pub proof fn markers_decide_in_their_order(value: Seq<char>)
    ensures
        ({
            let full = regex_captures(FULL_ID_PAT@, value);
            let alone = regex_captures(EP_ONLY_PAT@, value);
            let leading = regex_captures(LEADING_NUM_PAT@, value);
            &&& full matches Some(c) ==> episode_of(value) == numbered(
                normalized_title(c.0),
                Some(c.1[1]),
                c.1[2],
            )
            &&& full is None ==> (alone matches Some(c) ==> episode_of(value) == numbered(
                normalized_title(c.0),
                None,
                c.1[1],
            ))
            &&& full is None && alone is None ==> (leading matches Some(c) ==> episode_of(value)
                == numbered(Seq::empty(), None, c.1[1]))
            &&& full is None && alone is None && leading is None ==> episode_of(value) is None
        }),
{
}

} // verus!
