//! Movie titles and release years.

use vstd::prelude::*;

use crate::pattern::{
    captures_iter, find, lemma_front, matches_of, regex_captures_iter, regex_find, tagged,
    QUALITY_TAG_PAT, YEAR_PAT,
};
use crate::text::{
    all_digits, decimal, decimal_text, has_part, is_digit, is_free_of, is_single_spaced, join,
    joined, joining_goes_text_by_text, keep_non_empty, lemma_decimal_value, lemma_joined_push,
    lemma_joined_words, lemma_non_empty_drops_last, lemma_non_empty_keeps_words,
    lemma_pieces_are_free, lemma_plain_words, lemma_split_joined, non_empty, parse_u32, remove_all,
    split, split_on, splitting_goes_piece_by_piece,
    texts_that_are_not_empty_are_kept, to_chars, u32_of, u32_round_trip, view_of, without,
};

verus! {

/// What a file name says of a movie: its title, which is not empty, and its
/// release year.
#[derive(Debug)]
pub struct MovieMetadata {
    pub title: String,
    pub year: Option<u32>,
}

impl View for MovieMetadata {
    type V = (Seq<char>, Option<u32>);

    open spec fn view(&self) -> (Seq<char>, Option<u32>) {
        (self.title@, self.year)
    }
}

impl Clone for MovieMetadata {
    fn clone(&self) -> (r: Self)
        ensures
            r == *self,
    {
        MovieMetadata { title: self.title.clone(), year: self.year }
    }
}

/// A file name with dots and underscores read as spaces.
pub open spec fn spaced(value: Seq<char>) -> Seq<char> {
    value.map_values(
        |c: char|
            if c == '.' || c == '_' {
                ' '
            } else {
                c
            },
    )
}

/// The part of a file name in front of its first quality tag.
pub open spec fn title_region(normalised: Seq<char>) -> Seq<char> {
    match regex_find(QUALITY_TAG_PAT@, normalised) {
        Some(m) => m.0,
        None => normalised,
    }
}

/// The last year that a text mentions, as it is written there.
pub open spec fn year_text(region: Seq<char>) -> Option<Seq<char>> {
    let years = regex_captures_iter(YEAR_PAT@, region);
    if years.len() > 0 {
        Some(years.last().1[1])
    } else {
        None
    }
}

/// The year that an optional text denotes; none, if its digits are not all ASCII.
pub open spec fn year_of(year: Option<Seq<char>>) -> Option<u32> {
    match year {
        Some(t) => u32_of(t),
        None => None,
    }
}

/// The words of a text, with one space between them.
pub open spec fn words_of(s: Seq<char>) -> Seq<char> {
    joined(non_empty(split_on(s, seq![' ', '.'])), " "@)
}

/// The movie that a title region and the year written in it describe: the year
/// is taken out of the title, and a movie without a title is none.
pub open spec fn movie_of_region(region: Seq<char>, year: Option<Seq<char>>) -> Option<
    (Seq<char>, Option<u32>),
> {
    let number = year_of(year);
    let title = words_of(
        match number {
            Some(y) => without(region, decimal(y as nat)),
            None => region,
        },
    );
    if title.len() == 0 {
        None
    } else {
        Some((title, number))
    }
}

/// The movie that a file name without extension describes.
pub open spec fn movie_of(value: Seq<char>) -> Option<(Seq<char>, Option<u32>)> {
    let region = title_region(spaced(value));
    movie_of_region(region, year_text(region))
}

/// Reads dots and underscores as spaces.
fn with_spaces(value: &str) -> (r: String)
    ensures
        r@ == spaced(value@),
{
    let chars = to_chars(value);
    let mut r = String::new();
    let mut i: usize = 0;
    while i < chars.len()
        invariant
            i <= chars.len(),
            r@ == spaced(chars@.take(i as int)),
        decreases chars.len() - i,
    {
        let c = chars[i];
        r.push(
            if c == '.' || c == '_' {
                ' '
            } else {
                c
            },
        );
        i += 1;
        assert(r@ == spaced(chars@.take(i as int)));
    }
    assert(chars@.take(chars@.len() as int) == chars@);
    r
}

/// Taking a number out of a text leaves a space at its end alone.
proof fn lemma_without_before_space(s: Seq<char>, part: Seq<char>)
    requires
        all_digits(part),
    ensures
        without(s.push(' '), part) == without(s, part).push(' '),
    decreases s.len(),
{
    let spaced = s.push(' ');
    let n = part.len() as int;
    if s.len() < n {
        if spaced.len() == n {
            assert(spaced.take(n)[n - 1] == ' ');
            assert(is_digit(part[n - 1]));
            assert(spaced.drop_first().len() < n);
            assert(without(spaced.drop_first(), part) == spaced.drop_first());
            assert(seq![spaced[0]] + spaced.drop_first() =~= spaced);
        }
    } else {
        assert(spaced.take(n) =~= s.take(n));
        if s.take(n) == part {
            assert(spaced.skip(n) =~= s.skip(n).push(' '));
            lemma_without_before_space(s.skip(n), part);
        } else {
            assert(spaced.drop_first() =~= s.drop_first().push(' '));
            lemma_without_before_space(s.drop_first(), part);
            assert(seq![s[0]] + without(s.drop_first(), part).push(' ') =~= (seq![s[0]] + without(
                s.drop_first(),
                part,
            )).push(' '));
        }
    }
}

/// A space at the end of a region changes nothing.
proof fn lemma_trailing_space(region: Seq<char>, year: Option<Seq<char>>)
    ensures
        movie_of_region(region.push(' '), year) == movie_of_region(region, year),
{
    let text = match year_of(year) {
        Some(y) => {
            lemma_decimal_value(y as nat);
            lemma_without_before_space(region, decimal(y as nat));
            without(region, decimal(y as nat))
        },
        None => region,
    };
    let separators = seq![' ', '.'];
    assert(separators[0] == ' ');
    assert(text.push(' ').drop_last() =~= text);
    lemma_non_empty_drops_last(split_on(text, separators));
    assert(words_of(text.push(' ')) == words_of(text));
}

impl MovieMetadata {
    /// Reads a movie from the part of its file name in front of the quality tags,
    /// and the year that is written there.
    pub fn from_region(region: &str, year: Option<&str>) -> (r: Option<Self>)
        ensures
            view_of(r) == movie_of_region(region@, view_of(year)),
    {
        let year: Option<u32> = match year {
            Some(t) => parse_u32(t),
            None => None,
        };
        let without_year = match year {
            Some(y) => remove_all(region, decimal_text(y as u64).as_str()),
            None => region.to_owned(),
        };
        let words = keep_non_empty(split(without_year.as_str(), &[' ', '.']));
        assert([' ', '.']@ == seq![' ', '.']);
        let title = join(&words, " ");
        if title.as_str().is_empty() {
            return None;
        }
        Some(MovieMetadata { title, year })
    }

    /// Reads a movie from a file name without its extension: what precedes the
    /// first quality tag holds the title and, last of all years in it, the release
    /// year. A quality tag put behind a name, and whatever follows it, changes nothing.
    pub fn from_filename(value: &str) -> (r: Option<Self>)
        ensures
            view_of(r) == movie_of(value@),
            forall|front: Seq<char>, rest: Seq<char>|
                value@ == #[trigger] (front + ".1080p."@ + rest) ==> view_of(r) == movie_of(front),
            exists|n: int|
                0 <= n <= value@.len() && view_of(r) == movie_of_region(
                    spaced(#[trigger] value@.take(n)),
                    year_text(spaced(value@.take(n))),
                ),
    {
        let normalised = with_spaces(value);
        let region = match find(QUALITY_TAG_PAT, normalised.as_str()) {
            Some((before, matched)) => {
                proof {
                    lemma_front(normalised@, before@, matched@);
                }
                before
            },
            None => normalised,
        };
        proof {
            let n = region@.len() as int;
            assert(spaced(value@).take(n) =~= region@);
            assert(spaced(value@.take(n)) =~= region@);
        }
        let years = captures_iter(YEAR_PAT, region.as_str());
        proof {
            assert forall|front: Seq<char>, rest: Seq<char>|
                value@ == #[trigger] (front + ".1080p."@ + rest) implies movie_of(value@)
                == movie_of(front) by {
                reveal_strlit(".1080p.");
                reveal_strlit(" 1080p ");
                assert(spaced(value@) =~= tagged(spaced(front), spaced(rest)));
                assert(region@ == title_region(spaced(value@)));
                if regex_find(QUALITY_TAG_PAT@, spaced(front)) is None {
                    assert(region@ == spaced(front).push(' '));
                    assert(region@.drop_last() =~= spaced(front));
                    lemma_trailing_space(spaced(front), year_text(spaced(front)));
                }
            }
        }
        if years.len() > 0 {
            let last = &years[years.len() - 1];
            assert(matches_of(years@).last() == last@);
            Self::from_region(region.as_str(), Some(last.groups[1].as_str()))
        } else {
            Self::from_region(region.as_str(), None)
        }
    }
}

// ── laws ─────────────────────────────────────────────────────────────────────

/// Taking something out of a text puts nothing in.
proof fn lemma_without_is_free(s: Seq<char>, part: Seq<char>, separators: Seq<char>)
    requires
        is_free_of(s, separators),
    ensures
        is_free_of(without(s, part), separators),
    decreases s.len(),
{
    if part.len() > 0 && s.len() >= part.len() {
        if s.take(part.len() as int) == part {
            let rest = s.skip(part.len() as int);
            assert(forall|i: int|
                0 <= i < rest.len() ==> #[trigger] rest[i] == s[i + part.len()]);
            lemma_without_is_free(rest, part, separators);
        } else {
            let rest = s.drop_first();
            assert(forall|i: int| 0 <= i < rest.len() ==> #[trigger] rest[i] == s[i + 1]);
            lemma_without_is_free(rest, part, separators);
            let after = without(s, part);
            assert forall|i: int| 0 <= i < after.len() implies !separators.contains(
                #[trigger] after[i],
            ) by {
                if i == 0 {
                    assert(after[0] == s[0]);
                } else {
                    assert(after[i] == without(rest, part)[i - 1]);
                }
            }
        }
    }
}

/// A text without underscores is not split at them.
proof fn lemma_split_without_underscores(s: Seq<char>)
    requires
        is_free_of(s, seq!['_']),
    ensures
        split_on(s, seq![' ', '.']) == split_on(s, seq![' ', '.', '_']),
    decreases s.len(),
{
    if s.len() > 0 {
        let front = s.drop_last();
        assert(forall|i: int| 0 <= i < front.len() ==> #[trigger] front[i] == s[i]);
        lemma_split_without_underscores(front);
        let (two, three) = (seq![' ', '.'], seq![' ', '.', '_']);
        assert(seq!['_'][0] == '_');
        assert(two[0] == ' ' && two[1] == '.');
        assert(three[0] == ' ' && three[1] == '.' && three[2] == '_');
        assert(s.last() == s[s.len() - 1]);
        assert(two.contains(s.last()) == three.contains(s.last()));
    }
}

/// A movie's title is not empty, and clean: there is one space between its words,
/// none at its ends, and no dot; read from a file name, it holds no underscore
/// either.
pub proof fn movie_titles_are_clean(region: Seq<char>, year: Option<Seq<char>>)
    ensures
        movie_of_region(region, year) matches Some(m) ==> m.0.len() > 0 && is_single_spaced(m.0)
            && forall|i: int| 0 <= i < m.0.len() ==> #[trigger] m.0[i] != '.',
        (exists|value: Seq<char>| region == #[trigger] spaced(value)) ==> (movie_of_region(
            region,
            year,
        ) matches Some(m) ==> forall|i: int| 0 <= i < m.0.len() ==> #[trigger] m.0[i] != '_'),
{
    let separators = seq![' ', '.'];
    assert(separators[0] == ' ' && separators[1] == '.');
    let text = match year_of(year) {
        Some(y) => without(region, decimal(y as nat)),
        None => region,
    };
    lemma_pieces_are_free(text, separators);
    lemma_plain_words(split_on(text, separators), separators);
    lemma_joined_words(non_empty(split_on(text, separators)), separators);
    if exists|value: Seq<char>| region == #[trigger] spaced(value) {
        let more = seq![' ', '.', '_'];
        assert(more[0] == ' ' && more[2] == '_');
        assert(is_free_of(region, seq!['_']));
        if let Some(y) = year_of(year) {
            lemma_without_is_free(region, decimal(y as nat), seq!['_']);
        }
        lemma_split_without_underscores(text);
        lemma_pieces_are_free(text, more);
        lemma_plain_words(split_on(text, more), more);
        lemma_joined_words(non_empty(split_on(text, more)), more);
    }
}

/// A title that is put together once is put together for good.
pub proof fn movie_titles_are_stable(s: Seq<char>)
    ensures
        words_of(words_of(s)) == words_of(s),
{
    let separators = seq![' ', '.'];
    assert(separators[0] == ' ');
    let words = non_empty(split_on(s, separators));
    lemma_pieces_are_free(s, separators);
    lemma_plain_words(split_on(s, separators), separators);
    if words.len() == 0 {
        let none = Seq::<char>::empty();
        reveal_with_fuel(Seq::filter, 2);
        assert(split_on(none, separators) =~= seq![none]);
        assert(seq![none].drop_last() =~= Seq::<Seq<char>>::empty());
        assert(non_empty(split_on(none, separators)) =~= Seq::<Seq<char>>::empty());
    } else {
        lemma_split_joined(words, separators);
        lemma_non_empty_keeps_words(words, separators);
    }
}

/// What a name says of a movie is all there is of it.
pub proof fn movie_shows_everything(m: MovieMetadata)
    ensures
        m@ == (m.title@, m.year),
{
}

/// Dots and underscores are read as spaces, and every other character as itself.
pub proof fn dots_and_underscores_are_spaces(value: Seq<char>)
    ensures
        spaced(value).len() == value.len(),
        forall|i: int|
            0 <= i < value.len() ==> #[trigger] spaced(value)[i] == (if value[i] == '.' || value[i]
                == '_' {
                ' '
            } else {
                value[i]
            }),
{
}

/// A title grows by whatever is put behind a space or a dot, with one space in front of
/// it; a word is a title of its own; spaces and dots alone add nothing.
pub proof fn movie_titles_grow_word_by_word(s: Seq<char>, c: char, word: Seq<char>)
    requires
        c == ' ' || c == '.',
        forall|i: int| 0 <= i < word.len() ==> #[trigger] word[i] != ' ' && word[i] != '.',
    ensures
        words_of(Seq::empty()) == Seq::<char>::empty(),
        words_of(word) == word,
        words_of(s.push(c) + word) == (if word.len() == 0 {
            words_of(s)
        } else if words_of(s).len() == 0 {
            word
        } else {
            words_of(s).push(' ') + word
        }),
{
    let separators = seq![' ', '.'];
    assert(separators[0] == ' ' && separators[1] == '.');
    assert(forall|i: int| 0 <= i < word.len() ==> !separators.contains(#[trigger] word[i]));
    let none = Seq::<char>::empty();
    splitting_goes_piece_by_piece(none, c, none, separators);
    splitting_goes_piece_by_piece(word, c, none, separators);
    splitting_goes_piece_by_piece(s, c, word, separators);
    let pieces = split_on(s, separators);
    let nothing = Seq::<Seq<char>>::empty();
    assert(seq![none] =~= nothing.push(none));
    assert(seq![word] =~= nothing.push(word));
    texts_that_are_not_empty_are_kept(nothing, none);
    texts_that_are_not_empty_are_kept(nothing, word);
    assert(non_empty(nothing) =~= nothing);
    joining_goes_text_by_text(nothing, word, " "@);
    assert(pieces + seq![word] =~= pieces.push(word));
    texts_that_are_not_empty_are_kept(pieces, word);
    lemma_pieces_are_free(s, separators);
    lemma_plain_words(pieces, separators);
    lemma_joined_push(non_empty(pieces), word, separators);
    if word.len() == 0 {
        assert(words_of(word) =~= word);
    }
}

/// No word of a title is lost: words with spaces or dots between them are read as those
/// words, with spaces between them, however many there are.
pub proof fn no_word_of_a_movie_title_is_lost(words: Seq<Seq<char>>, c: char)
    requires
        c == ' ' || c == '.',
        forall|i: int| 0 <= i < words.len() ==> (#[trigger] words[i]).len() > 0,
        forall|i: int, j: int|
            0 <= i < words.len() && 0 <= j < words[i].len() ==> #[trigger] words[i][j] != ' '
                && words[i][j] != '.',
    ensures
        words_of(joined(words, seq![c])) == joined(words, seq![' ']),
        words.len() > 0 ==> joined(words, seq![' ']).len() > 0,
    decreases words.len(),
{
    let none = Seq::<char>::empty();
    if words.len() == 0 {
        movie_titles_grow_word_by_word(none, c, none);
    } else {
        let front = words.drop_last();
        let word = words[words.len() - 1];
        assert(forall|i: int| 0 <= i < front.len() ==> #[trigger] front[i] == words[i]);
        no_word_of_a_movie_title_is_lost(front, c);
        movie_titles_grow_word_by_word(joined(front, seq![c]), c, word);
        assert(joined(front, seq![c]) + seq![c] + word =~= joined(front, seq![c]).push(c) + word);
        assert(joined(front, seq![' ']) + seq![' '] + word =~= joined(front, seq![' ']).push(' ')
            + word);
    }
}

/// The title is made of the words of the region, without the year that is written there;
/// a year that cannot be read stays in the title. There is a movie exactly if a word is
/// left.
pub proof fn year_is_taken_out_of_the_title(region: Seq<char>, year: Option<Seq<char>>)
    ensures
        ({
            let number = match year {
                Some(t) => u32_of(t),
                None => None,
            };
            let title = match number {
                Some(y) => words_of(without(region, decimal(y as nat))),
                None => words_of(region),
            };
            &&& title.len() > 0 ==> movie_of_region(region, year) == Some((title, number))
            &&& title.len() == 0 ==> movie_of_region(region, year) is None
        }),
{
}

/// A text in which a number does not occur does not begin with it, even if a space and
/// the number are put behind it.
proof fn lemma_number_is_not_in_front(s: Seq<char>, part: Seq<char>)
    requires
        all_digits(part),
        !has_part(s, part),
    ensures
        (s.push(' ') + part).take(part.len() as int) != part,
{
    let n = part.len() as int;
    let front = (s.push(' ') + part).take(n);
    if front == part {
        if s.len() >= n {
            assert(s.subrange(0, 0int + n) =~= front);
            assert(s.subrange(0, 0int + part.len()) == part);
        } else {
            assert(front[s.len() as int] == ' ');
            assert(is_digit(part[s.len() as int]));
        }
    }
}

/// What a text does not hold, its rest does not hold.
proof fn lemma_rest_has_no_part(s: Seq<char>, part: Seq<char>)
    requires
        s.len() > 0,
        !has_part(s, part),
    ensures
        !has_part(s.drop_first(), part),
{
    let rest = s.drop_first();
    if has_part(rest, part) {
        let i = choose|i: int|
            0 <= i <= rest.len() - part.len() && #[trigger] rest.subrange(i, i + part.len())
                == part;
        assert(s.subrange(i + 1, i + 1 + part.len()) =~= part);
    }
}

/// A number behind a text in which it does not occur is all that is taken out.
proof fn lemma_number_at_the_end(s: Seq<char>, part: Seq<char>)
    requires
        all_digits(part),
        !has_part(s, part),
    ensures
        without(s.push(' ') + part, part) == s.push(' '),
    decreases s.len(),
{
    let text = s.push(' ') + part;
    lemma_number_is_not_in_front(s, part);
    assert(without(text, part) == seq![text[0]] + without(text.drop_first(), part));
    if s.len() == 0 {
        let none = Seq::<char>::empty();
        assert(text.drop_first() =~= part);
        assert(part.take(part.len() as int) =~= part);
        assert(part.skip(part.len() as int) =~= none);
        assert(without(none, part) == none);
        assert(without(part, part) == none);
        assert(seq![text[0]] + none =~= s.push(' '));
    } else {
        let rest = s.drop_first();
        lemma_rest_has_no_part(s, part);
        assert(text.drop_first() =~= rest.push(' ') + part);
        lemma_number_at_the_end(rest, part);
        assert(seq![text[0]] + rest.push(' ') =~= s.push(' '));
    }
}

/// A title and a year put behind it are read back, whatever the year, if the title does
/// not hold it.
pub proof fn title_and_year_are_read_back(words: Seq<Seq<char>>, year: u32)
    requires
        words.len() > 0,
        forall|i: int| 0 <= i < words.len() ==> (#[trigger] words[i]).len() > 0,
        forall|i: int, j: int|
            0 <= i < words.len() && 0 <= j < words[i].len() ==> #[trigger] words[i][j] != ' '
                && words[i][j] != '.',
        !has_part(joined(words, seq![' ']), decimal(year as nat)),
    ensures
        movie_of_region(
            joined(words, seq![' ']).push(' ') + decimal(year as nat),
            Some(decimal(year as nat)),
        ) == Some((joined(words, seq![' ']), Some(year))),
{
    let title = joined(words, seq![' ']);
    let none = Seq::<char>::empty();
    u32_round_trip(year);
    lemma_decimal_value(year as nat);
    no_word_of_a_movie_title_is_lost(words, ' ');
    lemma_number_at_the_end(title, decimal(year as nat));
    movie_titles_grow_word_by_word(title, ' ', none);
    assert(title.push(' ') + none =~= title.push(' '));
}

/// The title and the year are looked for in front of the first quality tag, or in all of
/// a name without one; of several years the last counts.
pub proof fn region_ends_at_the_first_tag(value: Seq<char>)
    ensures
        ({
            let name = spaced(value);
            let region = match regex_find(QUALITY_TAG_PAT@, name) {
                Some(tag) => tag.0,
                None => name,
            };
            let years = regex_captures_iter(YEAR_PAT@, region);
            &&& years.len() == 0 ==> movie_of(value) == movie_of_region(region, None)
            &&& years.len() > 0 ==> movie_of(value) == movie_of_region(
                region,
                Some(years[years.len() - 1].1[1]),
            )
        }),
{
}

} // verus!
