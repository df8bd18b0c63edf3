//! Metadata of shows and movies, as the TVDB service gives it.

use vstd::prelude::*;

use crate::cache::{key_of, Cache, CacheKey};
use crate::config::TvdbConfig;
use crate::text::{
    copy_of, decimal, decimal_text, i64_of, lowercase, parse_i64, parse_u32, same_text,
    signed_decimal, signed_decimal_text, to_lowercase, u32_of, view_of,
};

verus! {

/// What is known of a show, for one of its episodes.
#[derive(Debug)]
pub struct ShowMeta {
    pub canonical_title: String,
    pub release_year: Option<u32>,
    pub imdb_id: Option<String>,
    pub season: u32,
    pub episode: u32,
}

/// What is known of a movie.
#[derive(Debug)]
pub struct MovieMeta {
    pub canonical_title: String,
    pub release_year: Option<u32>,
    pub imdb_id: Option<String>,
}

impl Clone for ShowMeta {
    fn clone(&self) -> (r: Self)
        ensures
            r == *self,
    {
        ShowMeta {
            canonical_title: self.canonical_title.clone(),
            release_year: self.release_year,
            imdb_id: copy_of(&self.imdb_id),
            season: self.season,
            episode: self.episode,
        }
    }
}

impl Clone for MovieMeta {
    fn clone(&self) -> (r: Self)
        ensures
            r == *self,
    {
        MovieMeta {
            canonical_title: self.canonical_title.clone(),
            release_year: self.release_year,
            imdb_id: copy_of(&self.imdb_id),
        }
    }
}

/// What is known of a show, whatever the episode. Lookups of other episodes of
/// the same show are answered from it.
#[derive(Debug)]
pub struct SeriesBase {
    pub canonical_title: String,
    pub release_year: Option<u32>,
    pub imdb_id: Option<String>,
}

impl Clone for SeriesBase {
    fn clone(&self) -> (r: Self)
        ensures
            r == *self,
    {
        SeriesBase {
            canonical_title: self.canonical_title.clone(),
            release_year: self.release_year,
            imdb_id: copy_of(&self.imdb_id),
        }
    }
}

/// What is known of a show, for one of its episodes.
pub open spec fn show_meta_of(base: SeriesBase, season: u32, episode: u32) -> ShowMeta {
    ShowMeta {
        canonical_title: base.canonical_title,
        release_year: base.release_year,
        imdb_id: base.imdb_id,
        season,
        episode,
    }
}

impl SeriesBase {
    /// What is known of the show, for one of its episodes.
    pub fn to_show_meta(&self, season: u32, episode: u32) -> (r: ShowMeta)
        ensures
            r == show_meta_of(*self, season, episode),
    {
        ShowMeta {
            canonical_title: self.canonical_title.clone(),
            release_year: self.release_year,
            imdb_id: copy_of(&self.imdb_id),
            season,
            episode,
        }
    }
}

// ── replies of the service ───────────────────────────────────────────────────

/// One result of a search.
#[derive(Debug)]
pub struct SearchResult {
    /// The TVDB ID, as a decimal number.
    pub tvdb_id: Option<String>,
    /// The release year, as a decimal number.
    pub year: Option<String>,
}

/// An ID that another service has for a show or a movie.
#[derive(Debug)]
pub struct RemoteId {
    pub id: String,
    pub source_name: String,
}

/// What the service knows of a show.
#[derive(Debug)]
pub struct SeriesExtended {
    pub name: String,
    /// The year of the date on which the show was first aired.
    pub first_aired_year: Option<i32>,
    pub remote_ids: Option<Vec<RemoteId>>,
}

/// A release of a movie.
#[derive(Debug)]
pub struct MovieRelease {
    /// The year of the date of the release.
    pub year: Option<i32>,
}

/// What the service knows of a movie.
#[derive(Debug)]
pub struct MovieExtended {
    pub name: String,
    /// The release year, as a decimal number.
    pub year: Option<String>,
    /// The releases, which give the year where it is not given itself.
    pub releases: Option<Vec<MovieRelease>>,
    pub remote_ids: Option<Vec<RemoteId>>,
}

/// Why the TVDB ID of a search result could not be read.
#[derive(Debug)]
pub enum TvdbIdError {
    Missing,
    /// The text is not a 64-bit integer.
    Invalid(String),
}

/// Where the first result of the given year stands.
pub open spec fn first_of_year(results: Seq<SearchResult>, year: Seq<char>) -> Option<int>
    decreases results.len(),
{
    if results.len() == 0 {
        None
    } else {
        match first_of_year(results.drop_last(), year) {
            Some(i) => Some(i),
            None => if view_of(results.last().year) == Some(year) {
                Some(results.len() - 1)
            } else {
                None
            },
        }
    }
}

/// Which result is taken: the first one of the year that is asked for, or else
/// the first.
pub open spec fn picked(results: Seq<SearchResult>, year_hint: Option<u32>) -> Option<int> {
    if results.len() == 0 {
        None
    } else {
        match year_hint {
            Some(year) => match first_of_year(results, decimal(year as nat)) {
                Some(i) => Some(i),
                None => Some(0),
            },
            None => Some(0),
        }
    }
}

/// The ID that an optional text denotes.
pub open spec fn tvdb_id_of(text: Option<String>) -> Result<i64, Option<Seq<char>>> {
    match text {
        Some(t) => match i64_of(t@) {
            Some(id) => Ok(id),
            None => Err(Some(t@)),
        },
        None => Err(None),
    }
}

/// What a [`TvdbIdError`] holds: the text that could not be read, if there is one.
pub open spec fn error_of(e: TvdbIdError) -> Option<Seq<char>> {
    match e {
        TvdbIdError::Missing => None,
        TvdbIdError::Invalid(t) => Some(t@),
    }
}

/// The ID that is looked up further after a search; none, if nothing was found.
pub open spec fn chosen_id(results: Seq<SearchResult>, year_hint: Option<u32>) -> Result<
    Option<i64>,
    Option<Seq<char>>,
> {
    match picked(results, year_hint) {
        Some(i) => match tvdb_id_of(results[i].tvdb_id) {
            Ok(id) => Ok(Some(id)),
            Err(e) => Err(e),
        },
        None => Ok(None),
    }
}

/// The first ID among some that IMDB gave.
pub open spec fn imdb_of(ids: Seq<RemoteId>) -> Option<String>
    decreases ids.len(),
{
    if ids.len() == 0 {
        None
    } else {
        match imdb_of(ids.drop_last()) {
            Some(id) => Some(id),
            None => if ids.last().source_name@ == "IMDB"@ {
                Some(ids.last().id)
            } else {
                None
            },
        }
    }
}

/// The ID that IMDB gave, if there are any IDs.
pub open spec fn imdb_id_of(ids: Option<Vec<RemoteId>>) -> Option<String> {
    match ids {
        Some(ids) => imdb_of(ids@),
        None => None,
    }
}

/// A year of the common era.
pub open spec fn common_year(year: Option<i32>) -> Option<u32> {
    match year {
        Some(y) if y >= 0 => Some(y as u32),
        _ => None,
    }
}

/// The year of the first release that has one.
pub open spec fn first_release_year(releases: Seq<MovieRelease>) -> Option<u32>
    decreases releases.len(),
{
    if releases.len() == 0 {
        None
    } else {
        match first_release_year(releases.drop_last()) {
            Some(y) => Some(y),
            None => common_year(releases.last().year),
        }
    }
}

/// The release year of a movie: the one that is given, if it can be read, or else
/// that of the first release that has one.
pub open spec fn movie_year_of(extended: MovieExtended) -> Option<u32> {
    let given = match extended.year {
        Some(y) => u32_of(y@),
        None => None,
    };
    match (given, extended.releases) {
        (Some(y), _) => Some(y),
        (None, Some(releases)) => first_release_year(releases@),
        (None, None) => None,
    }
}

/// What is kept of the service's reply on a show.
pub open spec fn series_base_of(extended: SeriesExtended) -> SeriesBase {
    SeriesBase {
        canonical_title: extended.name,
        release_year: common_year(extended.first_aired_year),
        imdb_id: imdb_id_of(extended.remote_ids),
    }
}

/// What is kept of the service's reply on a movie.
pub open spec fn movie_meta_of(extended: MovieExtended) -> MovieMeta {
    MovieMeta {
        canonical_title: extended.name,
        release_year: movie_year_of(extended),
        imdb_id: imdb_id_of(extended.remote_ids),
    }
}

/// Picks a search result: the first one of the year that is asked for, or else
/// the first.
pub fn pick_result(results: &[SearchResult], year_hint: Option<u32>) -> (r: Option<&SearchResult>)
    ensures
        match picked(results@, year_hint) {
            Some(i) => r == Some(&results@[i]),
            None => r is None,
        },
{
    if results.len() == 0 {
        return None;
    }
    if let Some(year) = year_hint {
        let wanted = decimal_text(year as u64);
        let mut i: usize = 0;
        assert(results@.take(0) == Seq::<SearchResult>::empty());
        while i < results.len()
            invariant
                i <= results.len(),
                wanted@ == decimal(year as nat),
                year_hint == Some(year),
                first_of_year(results@.take(i as int), wanted@) is None,
            decreases results.len() - i,
        {
            assert(results@.take(i + 1).drop_last() == results@.take(i as int));
            let same = match &results[i].year {
                Some(y) => same_text(y.as_str(), wanted.as_str()),
                None => false,
            };
            if same {
                proof {
                    assert(first_of_year(results@.take(i + 1), wanted@) == Some(i as int));
                    lemma_first_of_year_stays(results@, wanted@, i + 1);
                }
                return Some(&results[i]);
            }
            i += 1;
        }
        assert(results@.take(results@.len() as int) == results@);
    }
    Some(&results[0])
}

/// More results do not change which one is the first of its year.
proof fn lemma_first_of_year_stays(results: Seq<SearchResult>, year: Seq<char>, n: int)
    requires
        0 <= n <= results.len(),
        first_of_year(results.take(n), year) is Some,
    ensures
        first_of_year(results, year) == first_of_year(results.take(n), year),
    decreases results.len(),
{
    if n < results.len() {
        assert(results.drop_last().take(n) =~= results.take(n));
        lemma_first_of_year_stays(results.drop_last(), year, n);
    } else {
        assert(results.take(n) =~= results);
    }
}

/// Reads a TVDB ID.
pub fn parse_tvdb_id(s: Option<&String>) -> (r: Result<i64, TvdbIdError>)
    ensures
        match r {
            Ok(id) => s matches Some(t) && i64_of(t@) == Some(id),
            Err(TvdbIdError::Missing) => s is None,
            Err(TvdbIdError::Invalid(text)) => s matches Some(t) && i64_of(t@) is None && text@
                == t@,
        },
{
    match s {
        Some(text) => match parse_i64(text.as_str()) {
            Some(id) => Ok(id),
            None => Err(TvdbIdError::Invalid(text.clone())),
        },
        None => Err(TvdbIdError::Missing),
    }
}

/// The ID to look up further after a search; none, if nothing was found.
pub fn choose_id(results: &[SearchResult], year_hint: Option<u32>) -> (r: Result<
    Option<i64>,
    TvdbIdError,
>)
    ensures
        match r {
            Ok(id) => chosen_id(results@, year_hint) == Ok::<_, Option<Seq<char>>>(id),
            Err(e) => chosen_id(results@, year_hint) == Err::<Option<i64>, _>(error_of(e)),
        },
{
    match pick_result(results, year_hint) {
        Some(result) => {
            let id = match &result.tvdb_id {
                Some(text) => parse_tvdb_id(Some(text)),
                None => parse_tvdb_id(None),
            };
            match id {
                Ok(id) => Ok(Some(id)),
                Err(e) => Err(e),
            }
        },
        None => Ok(None),
    }
}

/// More IDs do not change which one is the first that IMDB gave.
proof fn lemma_imdb_stays(ids: Seq<RemoteId>, n: int)
    requires
        0 <= n <= ids.len(),
        imdb_of(ids.take(n)) is Some,
    ensures
        imdb_of(ids) == imdb_of(ids.take(n)),
    decreases ids.len(),
{
    if n < ids.len() {
        assert(ids.drop_last().take(n) =~= ids.take(n));
        lemma_imdb_stays(ids.drop_last(), n);
    } else {
        assert(ids.take(n) =~= ids);
    }
}

/// The first ID that IMDB gave.
pub fn extract_imdb(remote_ids: Option<&[RemoteId]>) -> (r: Option<String>)
    ensures
        r == (match remote_ids {
            Some(ids) => imdb_of(ids@),
            None => None,
        }),
{
    let ids = match remote_ids {
        Some(ids) => ids,
        None => return None,
    };
    let mut i: usize = 0;
    assert(ids@.take(0) == Seq::<RemoteId>::empty());
    while i < ids.len()
        invariant
            i <= ids.len(),
            remote_ids == Some(ids),
            imdb_of(ids@.take(i as int)) is None,
        decreases ids.len() - i,
    {
        assert(ids@.take(i + 1).drop_last() == ids@.take(i as int));
        if same_text(ids[i].source_name.as_str(), "IMDB") {
            proof {
                lemma_imdb_stays(ids@, i + 1);
            }
            return Some(ids[i].id.clone());
        }
        i += 1;
    }
    assert(ids@.take(ids@.len() as int) == ids@);
    None
}

/// The first ID that IMDB gave.
fn imdb_in(remote_ids: &Option<Vec<RemoteId>>) -> (r: Option<String>)
    ensures
        r == imdb_id_of(*remote_ids),
{
    match remote_ids {
        Some(ids) => extract_imdb(Some(ids.as_slice())),
        None => extract_imdb(None),
    }
}

/// A year of the common era.
fn to_common_year(year: Option<i32>) -> (r: Option<u32>)
    ensures
        r == common_year(year),
{
    match year {
        Some(y) => if y >= 0 {
            Some(y as u32)
        } else {
            None
        },
        None => None,
    }
}

/// More releases do not change which year is the first.
proof fn lemma_release_year_stays(releases: Seq<MovieRelease>, n: int)
    requires
        0 <= n <= releases.len(),
        first_release_year(releases.take(n)) is Some,
    ensures
        first_release_year(releases) == first_release_year(releases.take(n)),
    decreases releases.len(),
{
    if n < releases.len() {
        assert(releases.drop_last().take(n) =~= releases.take(n));
        lemma_release_year_stays(releases.drop_last(), n);
    } else {
        assert(releases.take(n) =~= releases);
    }
}

/// The year of the first release that has one.
fn release_year(releases: &Vec<MovieRelease>) -> (r: Option<u32>)
    ensures
        r == first_release_year(releases@),
{
    let mut i: usize = 0;
    assert(releases@.take(0) == Seq::<MovieRelease>::empty());
    while i < releases.len()
        invariant
            i <= releases.len(),
            first_release_year(releases@.take(i as int)) is None,
        decreases releases.len() - i,
    {
        assert(releases@.take(i + 1).drop_last() == releases@.take(i as int));
        let year = to_common_year(releases[i].year);
        if year.is_some() {
            proof {
                lemma_release_year_stays(releases@, i + 1);
            }
            return year;
        }
        i += 1;
    }
    assert(releases@.take(releases@.len() as int) == releases@);
    None
}

/// What is kept of the service's reply on a show.
pub fn series_base(extended: SeriesExtended) -> (r: SeriesBase)
    ensures
        r == series_base_of(extended),
{
    SeriesBase {
        release_year: to_common_year(extended.first_aired_year),
        imdb_id: imdb_in(&extended.remote_ids),
        canonical_title: extended.name,
    }
}

/// What is kept of the service's reply on a movie.
pub fn movie_meta(extended: MovieExtended) -> (r: MovieMeta)
    ensures
        r == movie_meta_of(extended),
{
    let given = match &extended.year {
        Some(y) => parse_u32(y.as_str()),
        None => None,
    };
    let year = match (given, &extended.releases) {
        (Some(y), _) => Some(y),
        (None, Some(releases)) => release_year(releases),
        (None, None) => None,
    };
    MovieMeta {
        release_year: year,
        imdb_id: imdb_in(&extended.remote_ids),
        canonical_title: extended.name,
    }
}

// ── client ───────────────────────────────────────────────────────────────────

/// A day in nanoseconds.
pub const DAY: u128 = 86400000000000;

/// How long a token is used, in nanoseconds: 25 days. The service lets a token
/// expire after 30.
pub const TOKEN_TTL: u128 = 2160000000000000;

/// A token of the service, and the time at which it was given, in nanoseconds.
#[derive(Debug)]
pub struct CachedToken {
    pub value: String,
    pub given_at: u128,
}

/// What a search for a show asks the service for.
pub const SERIES_KIND: &'static str = "series";

/// What a search for a movie asks the service for.
pub const MOVIE_KIND: &'static str = "movie";

/// What is known of the service: its token, and the lookups made so far.
#[derive(Debug)]
pub struct Client {
    pub api_key: String,
    pub retry_attempts: u32,
    pub token: Option<CachedToken>,
    pub show_cache: Cache<SeriesBase>,
    pub movie_cache: Cache<MovieMeta>,
}

/// A lookup of a show that the cache cannot answer.
#[derive(Debug)]
pub struct ShowQuery {
    /// The title to search for.
    pub title: String,
    pub key: CacheKey,
    pub year_hint: Option<u32>,
    pub season: u32,
    pub episode: u32,
}

/// A lookup of a movie that the cache cannot answer.
#[derive(Debug)]
pub struct MovieQuery {
    /// The title to search for.
    pub title: String,
    pub key: CacheKey,
    pub year_hint: Option<u32>,
}

/// What is to be done to look up a show.
#[derive(Debug)]
pub enum ShowLookup {
    /// Nothing: the cache has it.
    Hit(ShowMeta),
    /// Search the service for the title.
    Miss(ShowQuery),
}

/// What is to be done to look up a movie.
#[derive(Debug)]
pub enum MovieLookup {
    /// Nothing: the cache has it.
    Hit(MovieMeta),
    /// Search the service for the title.
    Miss(MovieQuery),
}

/// The key under which a lookup is cached: case does not matter.
pub open spec fn lookup_key(title: Seq<char>, year_hint: Option<u32>) -> (Seq<char>, Option<u32>) {
    (lowercase(title), year_hint)
}

/// What a cache of shows answers to a lookup.
pub open spec fn cached_show(
    cache: Map<(Seq<char>, Option<u32>), SeriesBase>,
    title: Seq<char>,
    year_hint: Option<u32>,
    season: u32,
    episode: u32,
) -> Option<ShowMeta> {
    if cache.dom().contains(lookup_key(title, year_hint)) {
        Some(show_meta_of(cache[lookup_key(title, year_hint)], season, episode))
    } else {
        None
    }
}

/// What a cache of movies answers to a lookup.
pub open spec fn cached_movie(
    cache: Map<(Seq<char>, Option<u32>), MovieMeta>,
    title: Seq<char>,
    year_hint: Option<u32>,
) -> Option<MovieMeta> {
    if cache.dom().contains(lookup_key(title, year_hint)) {
        Some(cache[lookup_key(title, year_hint)])
    } else {
        None
    }
}

/// The answer to a lookup of a show, and the cache afterwards, if the service
/// gives these replies. Only a show that was found is cached; what the cache has
/// is not asked for again.
pub open spec fn show_answer(
    cache: Map<(Seq<char>, Option<u32>), SeriesBase>,
    title: Seq<char>,
    year_hint: Option<u32>,
    season: u32,
    episode: u32,
    results: Seq<SearchResult>,
    extended: SeriesExtended,
) -> (Result<Option<ShowMeta>, Option<Seq<char>>>, Map<(Seq<char>, Option<u32>), SeriesBase>) {
    match (
        cached_show(cache, title, year_hint, season, episode),
        chosen_id(results, year_hint),
    ) {
        (Some(meta), _) => (Ok(Some(meta)), cache),
        (None, Ok(Some(_))) => {
            let base = series_base_of(extended);
            (
                Ok(Some(show_meta_of(base, season, episode))),
                cache.insert(lookup_key(title, year_hint), base),
            )
        },
        (None, Ok(None)) => (Ok(None), cache),
        (None, Err(e)) => (Err(e), cache),
    }
}

/// The answer to a lookup of a movie, and the cache afterwards, if the service
/// gives these replies. Only a movie that was found is cached; what the cache has
/// is not asked for again.
pub open spec fn movie_answer(
    cache: Map<(Seq<char>, Option<u32>), MovieMeta>,
    title: Seq<char>,
    year_hint: Option<u32>,
    results: Seq<SearchResult>,
    extended: MovieExtended,
) -> (Result<Option<MovieMeta>, Option<Seq<char>>>, Map<(Seq<char>, Option<u32>), MovieMeta>) {
    match (cached_movie(cache, title, year_hint), chosen_id(results, year_hint)) {
        (Some(meta), _) => (Ok(Some(meta)), cache),
        (None, Ok(Some(_))) => {
            let meta = movie_meta_of(extended);
            (Ok(Some(meta)), cache.insert(lookup_key(title, year_hint), meta))
        },
        (None, Ok(None)) => (Ok(None), cache),
        (None, Err(e)) => (Err(e), cache),
    }
}

/// The token that may be used at a given time.
pub open spec fn usable_token(token: Option<CachedToken>, now: u128) -> Option<String> {
    match token {
        Some(t) if now < t.given_at + TOKEN_TTL => Some(t.value),
        _ => None,
    }
}

/// The token that is kept after a login.
pub open spec fn token_after<E>(
    token: Option<CachedToken>,
    login: Result<String, E>,
    login_at: u128,
) -> Option<CachedToken> {
    match login {
        Ok(value) => Some(CachedToken { value, given_at: login_at }),
        Err(_) => token,
    }
}

/// The token that is returned, and the one that is kept, if a login would end as
/// given: there is one only where no token may be used.
pub open spec fn token_answer<E>(
    token: Option<CachedToken>,
    now: u128,
    login: Result<String, E>,
    login_at: u128,
) -> (Result<String, E>, Option<CachedToken>) {
    match usable_token(token, now) {
        Some(value) => (Ok(value), token),
        None => (login, token_after(token, login, login_at)),
    }
}

impl Client {
    /// Whether the client is in order: each request is tried at least once.
    pub open spec fn well_formed(&self) -> bool {
        self.retry_attempts >= 1
    }

    /// A client without a token, with the lookups that were stored.
    pub fn new(
        config: &TvdbConfig,
        show_cache: Cache<SeriesBase>,
        movie_cache: Cache<MovieMeta>,
    ) -> (r: Self)
        ensures
            r.well_formed(),
            r.api_key == config.tvdb_api_key,
            r.retry_attempts == (if config.retry_attempts == 0 {
                1
            } else {
                config.retry_attempts
            }),
            r.token is None,
            r.show_cache == show_cache,
            r.movie_cache == movie_cache,
    {
        Client {
            api_key: config.tvdb_api_key.clone(),
            retry_attempts: if config.retry_attempts == 0 {
                1
            } else {
                config.retry_attempts
            },
            token: None,
            show_cache,
            movie_cache,
        }
    }

    /// Looks up a show in the cache.
    pub fn enrich_show(
        &self,
        title: &str,
        year_hint: Option<u32>,
        season: u32,
        episode: u32,
    ) -> (r: ShowLookup)
        ensures
            match r {
                ShowLookup::Hit(meta) => cached_show(
                    self.show_cache@,
                    title@,
                    year_hint,
                    season,
                    episode,
                ) == Some(meta),
                ShowLookup::Miss(query) => {
                    &&& cached_show(self.show_cache@, title@, year_hint, season, episode) is None
                    &&& query.title@ == title@
                    &&& key_of(query.key) == lookup_key(title@, year_hint)
                    &&& query.year_hint == year_hint
                    &&& query.season == season
                    &&& query.episode == episode
                },
            },
    {
        let key: CacheKey = (to_lowercase(title), year_hint);
        match self.show_cache.get(&key) {
            Some(base) => ShowLookup::Hit(base.to_show_meta(season, episode)),
            None => ShowLookup::Miss(
                ShowQuery { title: title.to_owned(), key, year_hint, season, episode },
            ),
        }
    }

    /// Looks up a movie in the cache.
    pub fn enrich_movie(&self, title: &str, year_hint: Option<u32>) -> (r: MovieLookup)
        ensures
            match r {
                MovieLookup::Hit(meta) => cached_movie(self.movie_cache@, title@, year_hint)
                    == Some(meta),
                MovieLookup::Miss(query) => {
                    &&& cached_movie(self.movie_cache@, title@, year_hint) is None
                    &&& query.title@ == title@
                    &&& key_of(query.key) == lookup_key(title@, year_hint)
                    &&& query.year_hint == year_hint
                },
            },
    {
        let key: CacheKey = (to_lowercase(title), year_hint);
        match self.movie_cache.get(&key) {
            Some(meta) => MovieLookup::Hit(meta.clone()),
            None => MovieLookup::Miss(MovieQuery { title: title.to_owned(), key, year_hint }),
        }
    }

    /// Answers a lookup with the service's reply on the show, which is cached.
    pub fn record_show(&mut self, query: ShowQuery, base: SeriesBase) -> (r: ShowMeta)
        ensures
            final(self).well_formed() == old(self).well_formed(),
            r == show_meta_of(base, query.season, query.episode),
            final(self).show_cache@ == old(self).show_cache@.insert(key_of(query.key), base),
            final(self).movie_cache == old(self).movie_cache,
            final(self).token == old(self).token,
            final(self).api_key == old(self).api_key,
            final(self).retry_attempts == old(self).retry_attempts,
    {
        let meta = base.to_show_meta(query.season, query.episode);
        self.show_cache.insert(query.key, base);
        meta
    }

    /// Answers a lookup with the service's reply on the movie, which is cached.
    pub fn record_movie(&mut self, query: MovieQuery, movie: MovieMeta) -> (r: MovieMeta)
        ensures
            final(self).well_formed() == old(self).well_formed(),
            r == movie,
            final(self).movie_cache@ == old(self).movie_cache@.insert(key_of(query.key), movie),
            final(self).show_cache == old(self).show_cache,
            final(self).token == old(self).token,
            final(self).api_key == old(self).api_key,
            final(self).retry_attempts == old(self).retry_attempts,
    {
        let meta = movie.clone();
        self.movie_cache.insert(query.key, movie);
        meta
    }

    /// Looks up a show if the service's replies are known beforehand: the results
    /// of the search, and what it knows of the one that is picked.
    pub fn enrich_show_with(
        &mut self,
        title: &str,
        year_hint: Option<u32>,
        season: u32,
        episode: u32,
        results: &[SearchResult],
        extended: SeriesExtended,
    ) -> (r: Result<Option<ShowMeta>, TvdbIdError>)
        ensures
            final(self).well_formed() == old(self).well_formed(),
            (match r {
                Ok(meta) => Ok(meta),
                Err(e) => Err(error_of(e)),
            }, final(self).show_cache@) == show_answer(
                old(self).show_cache@,
                title@,
                year_hint,
                season,
                episode,
                results@,
                extended,
            ),
            final(self).movie_cache == old(self).movie_cache,
            final(self).token == old(self).token,
            final(self).api_key == old(self).api_key,
            final(self).retry_attempts == old(self).retry_attempts,
    {
        let query = match self.enrich_show(title, year_hint, season, episode) {
            ShowLookup::Hit(meta) => return Ok(Some(meta)),
            ShowLookup::Miss(query) => query,
        };
        match choose_id(results, query.year_hint) {
            Ok(Some(_)) => Ok(Some(self.record_show(query, series_base(extended)))),
            Ok(None) => Ok(None),
            Err(e) => Err(e),
        }
    }

    /// Looks up a movie if the service's replies are known beforehand: the results
    /// of the search, and what it knows of the one that is picked.
    pub fn enrich_movie_with(
        &mut self,
        title: &str,
        year_hint: Option<u32>,
        results: &[SearchResult],
        extended: MovieExtended,
    ) -> (r: Result<Option<MovieMeta>, TvdbIdError>)
        ensures
            final(self).well_formed() == old(self).well_formed(),
            (match r {
                Ok(meta) => Ok(meta),
                Err(e) => Err(error_of(e)),
            }, final(self).movie_cache@) == movie_answer(
                old(self).movie_cache@,
                title@,
                year_hint,
                results@,
                extended,
            ),
            final(self).show_cache == old(self).show_cache,
            final(self).token == old(self).token,
            final(self).api_key == old(self).api_key,
            final(self).retry_attempts == old(self).retry_attempts,
    {
        let query = match self.enrich_movie(title, year_hint) {
            MovieLookup::Hit(meta) => return Ok(Some(meta)),
            MovieLookup::Miss(query) => query,
        };
        match choose_id(results, query.year_hint) {
            Ok(Some(_)) => Ok(Some(self.record_movie(query, movie_meta(extended)))),
            Ok(None) => Ok(None),
            Err(e) => Err(e),
        }
    }

    /// The token that may be used now, if there is one; otherwise a login is needed.
    pub fn token(&self, now: u128) -> (r: Option<String>)
        ensures
            r == usable_token(self.token, now),
    {
        match &self.token {
            Some(t) => if now < t.given_at || now - t.given_at < TOKEN_TTL {
                Some(t.value.clone())
            } else {
                None
            },
            None => None,
        }
    }

    /// Ends a login: a token that the service gave now is kept; a login that failed
    /// leaves the token as it was.
    pub fn record_login<E>(&mut self, login: Result<String, E>, now: u128) -> (r: Result<String, E>)
        ensures
            final(self).well_formed() == old(self).well_formed(),
            r == login,
            final(self).token == token_after(old(self).token, login, now),
            final(self).show_cache == old(self).show_cache,
            final(self).movie_cache == old(self).movie_cache,
            final(self).api_key == old(self).api_key,
            final(self).retry_attempts == old(self).retry_attempts,
    {
        match login {
            Ok(value) => {
                self.token = Some(CachedToken { value: value.clone(), given_at: now });
                Ok(value)
            },
            Err(e) => Err(e),
        }
    }

    /// Gets a token if it is known beforehand how a login would end, and when: the
    /// one that may be used now, or else that of the login.
    pub fn token_with<E>(
        &mut self,
        now: u128,
        login: Result<String, E>,
        login_at: u128,
    ) -> (r: Result<String, E>)
        ensures
            final(self).well_formed() == old(self).well_formed(),
            (r, final(self).token) == token_answer(old(self).token, now, login, login_at),
            final(self).show_cache == old(self).show_cache,
            final(self).movie_cache == old(self).movie_cache,
            final(self).api_key == old(self).api_key,
            final(self).retry_attempts == old(self).retry_attempts,
    {
        match self.token(now) {
            Some(value) => Ok(value),
            None => self.record_login(login, login_at),
        }
    }
}

// ── addresses ────────────────────────────────────────────────────────────────

/// The address of the service.
pub const BASE_URL: &'static str = "https://api4.thetvdb.com";

/// Where a token is asked for.
pub fn login_url() -> (r: String)
    ensures
        r@ == BASE_URL@ + "/v4/login"@,
{
    let mut url = BASE_URL.to_owned();
    url.append("/v4/login");
    url
}

/// Where a search is made.
pub fn search_url() -> (r: String)
    ensures
        r@ == BASE_URL@ + "/v4/search"@,
{
    let mut url = BASE_URL.to_owned();
    url.append("/v4/search");
    url
}

/// Where all that is known of a show is found.
pub fn series_url(id: i64) -> (r: String)
    ensures
        r@ == BASE_URL@ + "/v4/series/"@ + signed_decimal(id as int) + "/extended"@,
{
    let mut url = BASE_URL.to_owned();
    url.append("/v4/series/");
    url.append(signed_decimal_text(id).as_str());
    url.append("/extended");
    url
}

/// Where all that is known of a movie is found.
pub fn movie_url(id: i64) -> (r: String)
    ensures
        r@ == BASE_URL@ + "/v4/movies/"@ + signed_decimal(id as int) + "/extended"@,
{
    let mut url = BASE_URL.to_owned();
    url.append("/v4/movies/");
    url.append(signed_decimal_text(id).as_str());
    url.append("/extended");
    url
}

// ── laws ─────────────────────────────────────────────────────────────────────

/// Once a show was looked up, later lookups of any of its episodes are answered
/// from the cache, in whatever case the title is written; lookups under other
/// keys are answered as before.
pub proof fn repeated_show_lookup_hits(
    cache: Map<(Seq<char>, Option<u32>), SeriesBase>,
    title: Seq<char>,
    year_hint: Option<u32>,
    base: SeriesBase,
    again: Seq<char>,
    again_hint: Option<u32>,
    season: u32,
    episode: u32,
)
    ensures
        ({
            let later = cache.insert(lookup_key(title, year_hint), base);
            cached_show(later, again, again_hint, season, episode) == if lowercase(again)
                == lowercase(title) && again_hint == year_hint {
                Some(show_meta_of(base, season, episode))
            } else {
                cached_show(cache, again, again_hint, season, episode)
            }
        }),
{
}

/// Once a movie was looked up, later lookups of it are answered from the cache,
/// in whatever case the title is written; lookups under other keys are answered
/// as before.
pub proof fn repeated_movie_lookup_hits(
    cache: Map<(Seq<char>, Option<u32>), MovieMeta>,
    title: Seq<char>,
    year_hint: Option<u32>,
    meta: MovieMeta,
    again: Seq<char>,
    again_hint: Option<u32>,
)
    ensures
        ({
            let later = cache.insert(lookup_key(title, year_hint), meta);
            cached_movie(later, again, again_hint) == if lowercase(again) == lowercase(title)
                && again_hint == year_hint {
                Some(meta)
            } else {
                cached_movie(cache, again, again_hint)
            }
        }),
{
}

/// A show that was found is found again, whatever the service would reply: the
/// second lookup gives the same metadata for its own episode, and changes nothing.
pub proof fn found_show_is_found_again(
    cache: Map<(Seq<char>, Option<u32>), SeriesBase>,
    title: Seq<char>,
    again: Seq<char>,
    year_hint: Option<u32>,
    season: u32,
    episode: u32,
    results: Seq<SearchResult>,
    extended: SeriesExtended,
    other_season: u32,
    other_episode: u32,
    other_results: Seq<SearchResult>,
    other_extended: SeriesExtended,
)
    requires
        lowercase(title) == lowercase(again),
    ensures
        ({
            let (first, later) = show_answer(
                cache,
                title,
                year_hint,
                season,
                episode,
                results,
                extended,
            );
            first matches Ok(Some(meta)) ==> show_answer(
                later,
                again,
                year_hint,
                other_season,
                other_episode,
                other_results,
                other_extended,
            ) == (
                Ok::<_, Option<Seq<char>>>(
                    Some(ShowMeta { season: other_season, episode: other_episode, ..meta }),
                ),
                later,
            )
        }),
{
}

/// A movie that was found is found again, whatever the service would reply: the
/// second lookup gives the same metadata, and changes nothing.
pub proof fn found_movie_is_found_again(
    cache: Map<(Seq<char>, Option<u32>), MovieMeta>,
    title: Seq<char>,
    again: Seq<char>,
    year_hint: Option<u32>,
    results: Seq<SearchResult>,
    extended: MovieExtended,
    other_results: Seq<SearchResult>,
    other_extended: MovieExtended,
)
    requires
        lowercase(title) == lowercase(again),
    ensures
        ({
            let (first, later) = movie_answer(cache, title, year_hint, results, extended);
            first matches Ok(Some(meta)) ==> movie_answer(
                later,
                again,
                year_hint,
                other_results,
                other_extended,
            ) == (Ok::<_, Option<Seq<char>>>(Some(meta)), later)
        }),
{
}

/// A token is used for 25 days after it was given, and not later; so it is never
/// used when the service has let it expire.
pub proof fn token_is_used_while_it_is_valid(value: String, given_at: u128, now: u128)
    ensures
        ({
            let token = Some(CachedToken { value, given_at });
            &&& now < given_at + 25 * DAY ==> usable_token(token, now) == Some(value)
            &&& now >= given_at + 25 * DAY ==> usable_token(token, now) is None
            &&& now >= given_at + 30 * DAY ==> usable_token(token, now) is None
        }),
{
}

/// After a login that gave a token, a call within 25 days returns that token, without
/// a login, and changes nothing. A later call takes a new login: its token is returned
/// and kept; if the login fails, so does the call, and the old token stays.
pub proof fn login_lasts_for_25_days<E>(
    before: Option<CachedToken>,
    value: String,
    login_at: u128,
    now: u128,
    next: Result<String, E>,
    next_at: u128,
)
    ensures
        ({
            let kept = token_after(before, Ok::<String, E>(value), login_at);
            let answer = token_answer(kept, now, next, next_at);
            &&& now < login_at + 25 * DAY ==> usable_token(kept, now) is Some && answer == (
                Ok::<String, E>(value),
                kept,
            )
            &&& now >= login_at + 25 * DAY ==> usable_token(kept, now) is None && match next {
                Ok(token) => answer == (
                    Ok::<String, E>(token),
                    Some(CachedToken { value: token, given_at: next_at }),
                ),
                Err(e) => answer == (Err::<String, E>(e), kept),
            }
        }),
{
}

/// A year that is asked for is decisive: the result that is picked is of that
/// year, if any result is.
pub proof fn picked_result_is_of_the_year(results: Seq<SearchResult>, year: u32, at: int)
    requires
        0 <= at < results.len(),
        view_of(results[at].year) == Some(decimal(year as nat)),
    ensures
        picked(results, Some(year)) matches Some(i) && 0 <= i <= at && view_of(results[i].year)
            == Some(decimal(year as nat)),
{
    lemma_first_of_year(results, decimal(year as nat), at);
}

/// The first result of a year is of that year, and none before it is.
proof fn lemma_first_of_year(results: Seq<SearchResult>, year: Seq<char>, at: int)
    requires
        0 <= at < results.len(),
        view_of(results[at].year) == Some(year),
    ensures
        first_of_year(results, year) matches Some(i) && 0 <= i <= at && view_of(results[i].year)
            == Some(year),
    decreases results.len(),
{
    let front = results.drop_last();
    if at < front.len() {
        assert(front[at] == results[at]);
        lemma_first_of_year(front, year, at);
    } else if let Some(i) = first_of_year(front, year) {
        lemma_first_of_year_range(front, year);
    }
}

/// The first result of a year is among the results, and of that year.
proof fn lemma_first_of_year_range(results: Seq<SearchResult>, year: Seq<char>)
    ensures
        first_of_year(results, year) matches Some(i) ==> 0 <= i < results.len() && view_of(
            results[i].year,
        ) == Some(year),
    decreases results.len(),
{
    if results.len() > 0 {
        lemma_first_of_year_range(results.drop_last(), year);
    }
}

/// Where no result is of the year that is asked for, the first one is picked.
pub proof fn picked_result_is_the_first_otherwise(results: Seq<SearchResult>, year: u32)
    requires
        results.len() > 0,
        forall|i: int|
            0 <= i < results.len() ==> view_of((#[trigger] results[i]).year) != Some(
                decimal(year as nat),
            ),
    ensures
        picked(results, Some(year)) == Some(0int),
{
    lemma_first_of_year_range(results, decimal(year as nat));
}

/// The IMDB ID is the first ID that IMDB gave, and there is none if IMDB gave none.
pub proof fn imdb_id_is_the_first_of_imdb(ids: Seq<RemoteId>, at: int)
    requires
        0 <= at <= ids.len(),
        forall|i: int| 0 <= i < at ==> (#[trigger] ids[i]).source_name@ != "IMDB"@,
        at < ids.len() ==> ids[at].source_name@ == "IMDB"@,
    ensures
        imdb_of(ids) == (if at < ids.len() {
            Some(ids[at].id)
        } else {
            None
        }),
    decreases ids.len(),
{
    if ids.len() > 0 {
        let front = ids.drop_last();
        let front_at = if at < ids.len() {
            at
        } else {
            at - 1
        };
        assert(forall|i: int| 0 <= i < front.len() ==> #[trigger] front[i] == ids[i]);
        assert(ids.last() == ids[ids.len() - 1]);
        imdb_id_is_the_first_of_imdb(front, front_at);
    }
}

/// The year of a movie's releases is that of the first release with a year of the
/// common era.
pub proof fn release_year_is_that_of_the_first_release(releases: Seq<MovieRelease>, at: int)
    requires
        0 <= at <= releases.len(),
        forall|i: int| 0 <= i < at ==> common_year((#[trigger] releases[i]).year) is None,
        at < releases.len() ==> common_year(releases[at].year) is Some,
    ensures
        first_release_year(releases) == (if at < releases.len() {
            common_year(releases[at].year)
        } else {
            None
        }),
    decreases releases.len(),
{
    if releases.len() > 0 {
        let front = releases.drop_last();
        let front_at = if at < releases.len() {
            at
        } else {
            at - 1
        };
        assert(forall|i: int| 0 <= i < front.len() ==> #[trigger] front[i] == releases[i]);
        assert(releases.last() == releases[releases.len() - 1]);
        release_year_is_that_of_the_first_release(front, front_at);
    }
}

/// What is known of a show holds for each of its episodes, with the numbers of that
/// episode.
pub proof fn episodes_share_what_is_known(base: SeriesBase, season: u32, episode: u32)
    ensures
        ({
            let meta = show_meta_of(base, season, episode);
            &&& meta.canonical_title == base.canonical_title
            &&& meta.release_year == base.release_year
            &&& meta.imdb_id == base.imdb_id
            &&& meta.season == season
            &&& meta.episode == episode
        }),
{
}

/// Of the service's reply on a show its name is kept, the year in which it was first aired
/// if that is not before the common era, and the first ID that IMDB gave.
pub proof fn reply_on_a_show_is_kept(extended: SeriesExtended)
    ensures
        ({
            let base = series_base_of(extended);
            &&& base.canonical_title == extended.name
            &&& match extended.first_aired_year {
                Some(year) if year >= 0 => base.release_year matches Some(y) && y as int
                    == year as int,
                _ => base.release_year is None,
            }
            &&& match extended.remote_ids {
                Some(ids) => base.imdb_id == imdb_of(ids@),
                None => base.imdb_id is None,
            }
        }),
{
}

/// Of the service's reply on a movie its name is kept, and the first ID that IMDB gave.
/// The year is the one that is given as a number; where none is, it is that of the first
/// release whose year is not before the common era.
pub proof fn reply_on_a_movie_is_kept(extended: MovieExtended, at: int)
    requires
        extended.releases matches Some(releases) ==> 0 <= at <= releases@.len() && (forall|i: int|
            0 <= i < at ==> ((#[trigger] releases@[i]).year matches Some(y) ==> y < 0)) && (at
            < releases@.len() ==> (releases@[at].year matches Some(y) && y >= 0)),
    ensures
        ({
            let meta = movie_meta_of(extended);
            let given = match extended.year {
                Some(text) => u32_of(text@),
                None => None,
            };
            &&& meta.canonical_title == extended.name
            &&& match extended.remote_ids {
                Some(ids) => meta.imdb_id == imdb_of(ids@),
                None => meta.imdb_id is None,
            }
            &&& given is Some ==> meta.release_year == given
            &&& given is None ==> match extended.releases {
                Some(releases) if at < releases@.len() => meta.release_year matches Some(y) && y as int
                    == releases@[at].year->0 as int,
                _ => meta.release_year is None,
            }
        }),
{
    if let Some(releases) = extended.releases {
        release_year_is_that_of_the_first_release(releases@, at);
    }
}

/// The ID of a result is the number in its text; it is missing exactly if there is no text,
/// and invalid exactly if the text is no number.
pub proof fn id_is_the_number_in_the_text(text: String)
    ensures
        tvdb_id_of(None) == Err::<i64, Option<Seq<char>>>(None),
        i64_of(text@) matches Some(id) ==> tvdb_id_of(Some(text)) == Ok::<i64, Option<Seq<char>>>(
            id,
        ),
        i64_of(text@) is None ==> tvdb_id_of(Some(text)) == Err::<i64, Option<Seq<char>>>(
            Some(text@),
        ),
        error_of(TvdbIdError::Missing) is None,
        error_of(TvdbIdError::Invalid(text)) == Some(text@),
{
}

/// A search without results gives no ID; any other gives the ID of the result that is
/// picked, or its error. Without a year the first result is picked.
pub proof fn search_gives_the_id_of_its_pick(results: Seq<SearchResult>, year_hint: Option<u32>)
    ensures
        results.len() == 0 ==> chosen_id(results, year_hint) == Ok::<_, Option<Seq<char>>>(
            None::<i64>,
        ),
        results.len() > 0 ==> picked(results, None) == Some(0int),
        results.len() > 0 ==> (picked(results, year_hint) matches Some(i) && 0 <= i < results.len()
            && match tvdb_id_of(results[i].tvdb_id) {
            Ok(id) => chosen_id(results, year_hint) == Ok::<_, Option<Seq<char>>>(Some(id)),
            Err(e) => chosen_id(results, year_hint) == Err::<Option<i64>, _>(e),
        }),
{
    if let Some(year) = year_hint {
        lemma_first_of_year_range(results, decimal(year as nat));
    }
}

/// A lookup under a key that the cache does not have is answered by the service: with the
/// reply on the result that is picked, which is then what the cache has for the key and all
/// that it gains; with nothing if there are no results, or the error of its ID, and then
/// the cache stays as it is. A lookup under a key that the cache has is answered from
/// it, whatever the service would say.
pub proof fn lookups_of_shows_are_answered(
    cache: Map<(Seq<char>, Option<u32>), SeriesBase>,
    title: Seq<char>,
    year_hint: Option<u32>,
    season: u32,
    episode: u32,
    results: Seq<SearchResult>,
    extended: SeriesExtended,
)
    ensures
        ({
            let key = (lowercase(title), year_hint);
            let answer = show_answer(
                cache,
                title,
                year_hint,
                season,
                episode,
                results,
                extended,
            );
            let base = series_base_of(extended);
            if cache.dom().contains(key) {
                answer == (
                    Ok::<_, Option<Seq<char>>>(Some(show_meta_of(cache[key], season, episode))),
                    cache,
                )
            } else {
                match chosen_id(results, year_hint) {
                    Ok(Some(_)) => answer == (
                        Ok::<_, Option<Seq<char>>>(Some(show_meta_of(base, season, episode))),
                        cache.insert(key, base),
                    ),
                    Ok(None) => answer == (Ok::<_, Option<Seq<char>>>(None::<ShowMeta>), cache),
                    Err(e) => answer == (Err::<Option<ShowMeta>, _>(e), cache),
                }
            }
        }),
{
}

/// Lookups of movies are answered as those of shows are.
pub proof fn lookups_of_movies_are_answered(
    cache: Map<(Seq<char>, Option<u32>), MovieMeta>,
    title: Seq<char>,
    year_hint: Option<u32>,
    results: Seq<SearchResult>,
    extended: MovieExtended,
)
    ensures
        ({
            let key = (lowercase(title), year_hint);
            let answer = movie_answer(cache, title, year_hint, results, extended);
            let meta = movie_meta_of(extended);
            if cache.dom().contains(key) {
                answer == (Ok::<_, Option<Seq<char>>>(Some(cache[key])), cache)
            } else {
                match chosen_id(results, year_hint) {
                    Ok(Some(_)) => answer == (
                        Ok::<_, Option<Seq<char>>>(Some(meta)),
                        cache.insert(key, meta),
                    ),
                    Ok(None) => answer == (Ok::<_, Option<Seq<char>>>(None::<MovieMeta>), cache),
                    Err(e) => answer == (Err::<Option<MovieMeta>, _>(e), cache),
                }
            }
        }),
{
}

/// What the caches answer is what was put under the title in lower case and the year.
pub proof fn caches_answer_by_title_and_year(
    shows: Map<(Seq<char>, Option<u32>), SeriesBase>,
    movies: Map<(Seq<char>, Option<u32>), MovieMeta>,
    title: Seq<char>,
    year_hint: Option<u32>,
    season: u32,
    episode: u32,
)
    ensures
        ({
            let key = (lowercase(title), year_hint);
            &&& lookup_key(title, year_hint) == key
            &&& cached_show(shows, title, year_hint, season, episode) == (if shows.dom().contains(
                key,
            ) {
                Some(show_meta_of(shows[key], season, episode))
            } else {
                None
            })
            &&& cached_movie(movies, title, year_hint) == (if movies.dom().contains(key) {
                Some(movies[key])
            } else {
                None
            })
        }),
{
}

} // verus!
