use vidsort::cache::{load_tree, persist_entry, Cache, StoredEntry};
use vidsort::config::TvdbConfig;
use vidsort::tvdb::{
    choose_id, extract_imdb, login_url, movie_meta, movie_url, parse_tvdb_id, pick_result,
    search_url, series_base, series_url, Client, MovieExtended, MovieLookup, MovieMeta,
    MovieRelease, RemoteId, SearchResult, SeriesBase, SeriesExtended, ShowLookup, TvdbIdError,
    DAY, MOVIE_KIND, SERIES_KIND, TOKEN_TTL,
};

fn client(retry_attempts: u32) -> Client {
    let config = TvdbConfig { tvdb_api_key: "key".to_string(), retry_attempts };
    Client::new(&config, Cache::new(), Cache::new())
}

fn result(id: Option<&str>, year: Option<&str>) -> SearchResult {
    SearchResult { tvdb_id: id.map(str::to_string), year: year.map(str::to_string) }
}

fn remote(id: &str, source: &str) -> RemoteId {
    RemoteId { id: id.to_string(), source_name: source.to_string() }
}

fn series(name: &str, year: Option<i32>) -> SeriesExtended {
    SeriesExtended {
        name: name.to_string(),
        first_aired_year: year,
        remote_ids: Some(vec![remote("1", "TMDB"), remote("tt6164502", "IMDB")]),
    }
}

fn movie(name: &str, year: Option<&str>, releases: Option<Vec<Option<i32>>>) -> MovieExtended {
    MovieExtended {
        name: name.to_string(),
        year: year.map(str::to_string),
        releases: releases.map(|r| r.into_iter().map(|year| MovieRelease { year }).collect()),
        remote_ids: Some(vec![remote("tt1375666", "IMDB"), remote("tt0", "IMDB")]),
    }
}

#[test]
fn enrich_show_harrow() {
    let mut client = client(3);
    let results = [result(Some("1"), Some("2001")), result(Some("347090"), Some("2018"))];
    let meta = client
        .enrich_show_with("Harrow", Some(2018), 2, 10, &results, series("Harrow", Some(2018)))
        .unwrap();
    let meta = meta.expect("expected a match");
    assert!(!meta.canonical_title.is_empty());
    assert_eq!(meta.season, 2);
    assert_eq!(meta.episode, 10);
    assert_eq!(meta.release_year, Some(2018));
    assert_eq!(meta.imdb_id.as_deref(), Some("tt6164502"));
}

#[test]
fn enrich_show_no_year_hint() {
    let mut client = client(3);
    let results = [result(Some("1"), None)];
    let meta = client
        .enrich_show_with("Being Human", None, 1, 1, &results, series("Being Human", None))
        .unwrap();
    assert!(meta.is_some());
}

#[test]
fn enrich_movie_inception() {
    let mut client = client(3);
    let results = [result(Some("113"), Some("2010"))];
    let meta = client
        .enrich_movie_with("Inception", Some(2010), &results, movie("Inception", Some("2010"), None))
        .unwrap();
    let meta = meta.expect("expected a match");
    assert!(!meta.canonical_title.is_empty());
    assert_eq!(meta.release_year, Some(2010));
    assert!(meta.imdb_id.as_deref().unwrap_or("").starts_with("tt"));
}

#[test]
fn enrich_movie_alien_1979() {
    let mut client = client(3);
    let results = [result(Some("7"), Some("1979"))];
    let meta = client
        .enrich_movie_with("Alien", Some(1979), &results, movie("Alien", Some("1979"), None))
        .unwrap();
    let meta = meta.expect("expected a match");
    assert_eq!(meta.release_year, Some(1979));
}

#[test]
fn result_of_the_year_is_picked() {
    let results = [
        result(Some("1"), Some("2009")),
        result(Some("2"), Some("2010")),
        result(Some("3"), Some("2010")),
        result(Some("4"), None),
    ];
    let id = |hint: Option<u32>| pick_result(&results, hint).unwrap().tvdb_id.clone().unwrap();
    assert_eq!(id(Some(2010)), "2");
    assert_eq!(id(Some(1999)), "1");
    assert_eq!(id(None), "1");
    assert!(pick_result(&[], Some(2010)).is_none());
}

#[test]
fn tvdb_ids() {
    assert!(matches!(parse_tvdb_id(Some(&"12345".to_string())), Ok(12345)));
    assert!(matches!(parse_tvdb_id(None), Err(TvdbIdError::Missing)));
    let text = "series-1".to_string();
    assert!(matches!(parse_tvdb_id(Some(&text)), Err(TvdbIdError::Invalid(t)) if t == "series-1"));
    assert!(matches!(choose_id(&[], None), Ok(None)));
    assert!(matches!(choose_id(&[result(Some("-4"), None)], None), Ok(Some(-4))));
    assert!(matches!(choose_id(&[result(None, None)], None), Err(TvdbIdError::Missing)));
    let bad = [result(Some("1"), None), result(Some("?"), Some("2010"))];
    assert!(matches!(choose_id(&bad, Some(2010)), Err(TvdbIdError::Invalid(t)) if t == "?"));
}

#[test]
fn imdb_id_is_the_first_of_imdb() {
    let ids = [remote("1", "imdb"), remote("tt2", "IMDB"), remote("tt3", "IMDB")];
    assert_eq!(extract_imdb(Some(&ids)), Some("tt2".to_string()));
    assert_eq!(extract_imdb(Some(&ids[..1])), None);
    assert_eq!(extract_imdb(None), None);
}

#[test]
fn years_of_replies() {
    assert_eq!(series_base(series("X", Some(1994))).release_year, Some(1994));
    assert_eq!(series_base(series("X", Some(-3))).release_year, None);
    assert_eq!(series_base(series("X", None)).release_year, None);
    let year = |y: Option<&str>, r: Option<Vec<Option<i32>>>| movie_meta(movie("X", y, r)).release_year;
    assert_eq!(year(Some("2010"), Some(vec![Some(2011)])), Some(2010));
    assert_eq!(year(Some("soon"), Some(vec![None, Some(-1), Some(2011), Some(2012)])), Some(2011));
    assert_eq!(year(None, Some(vec![None])), None);
    assert_eq!(year(None, None), None);
}

#[test]
fn found_show_is_found_again() {
    let mut client = client(1);
    let results = [result(Some("1"), None)];
    let first = client.enrich_show_with("HARROW", None, 1, 1, &results, series("Harrow", Some(2018)));
    assert!(first.unwrap().is_some());
    let again = client.enrich_show_with("harrow", None, 2, 10, &[], series("Other", None));
    let again = again.unwrap().unwrap();
    assert_eq!(again.canonical_title, "Harrow");
    assert_eq!((again.season, again.episode), (2, 10));
    assert!(matches!(client.enrich_show("Harrow", None, 1, 1), ShowLookup::Hit(_)));
    assert!(matches!(client.enrich_show("Harrow", Some(2018), 1, 1), ShowLookup::Miss(_)));
}

#[test]
fn found_movie_is_found_again() {
    let mut client = client(1);
    let results = [result(Some("1"), None)];
    let first = client.enrich_movie_with("ÄLIEN", Some(1979), &results, movie("Alien", None, None));
    assert!(first.unwrap().is_some());
    assert!(matches!(client.enrich_movie("älien", Some(1979)), MovieLookup::Hit(m)
        if m.canonical_title == "Alien"));
    assert!(matches!(client.enrich_movie("älien", None), MovieLookup::Miss(_)));
}

#[test]
fn lookup_that_fails_is_not_cached() {
    let mut client = client(1);
    let none = client.enrich_show_with("Harrow", None, 1, 1, &[], series("Harrow", None));
    assert!(matches!(none, Ok(None)));
    let bad = [result(None, None)];
    let failed = client.enrich_movie_with("Alien", None, &bad, movie("Alien", None, None));
    assert!(matches!(failed, Err(TvdbIdError::Missing)));
    assert!(matches!(client.enrich_show("Harrow", None, 1, 1), ShowLookup::Miss(_)));
    assert!(matches!(client.enrich_movie("Alien", None), MovieLookup::Miss(_)));
}

#[test]
fn missed_lookup_keeps_the_title_and_lowers_the_key() {
    let ShowLookup::Miss(query) = client(1).enrich_show("Being HUMAN", Some(2011), 4, 11) else {
        panic!("nothing is cached")
    };
    assert_eq!(query.title, "Being HUMAN");
    assert_eq!(query.key, ("being human".to_string(), Some(2011)));
    assert_eq!((query.year_hint, query.season, query.episode), (Some(2011), 4, 11));
}

#[test]
fn requests_are_tried_at_least_once() {
    assert_eq!(client(0).retry_attempts, 1);
    assert_eq!(client(1).retry_attempts, 1);
    assert_eq!(client(5).retry_attempts, 5);
}

#[test]
fn token_is_used_for_25_days() {
    let mut client = client(1);
    assert_eq!(client.token(0), None);
    let login: Result<String, ()> = Ok("abc".to_string());
    assert_eq!(client.record_login(login, 1_000), Ok("abc".to_string()));
    assert_eq!(DAY, 24 * 60 * 60 * 1_000_000_000);
    assert_eq!(TOKEN_TTL, 25 * DAY);
    assert_eq!(client.token(1_000).as_deref(), Some("abc"));
    assert_eq!(client.token(1_000 + 25 * DAY - 1).as_deref(), Some("abc"));
    assert_eq!(client.token(1_000 + 25 * DAY), None);
}

#[test]
fn token_may_be_given_at_any_time() {
    let mut client = client(1);
    let login: Result<String, ()> = Ok("abc".to_string());
    assert!(client.record_login(login, u128::MAX).is_ok());
    assert_eq!(client.token(u128::MAX).as_deref(), Some("abc"));
    assert_eq!(client.token(0).as_deref(), Some("abc"));
}

#[test]
fn login_lasts_for_25_days() {
    let mut client = client(1);
    let ok = |value: &str| -> Result<String, &str> { Ok(value.to_string()) };
    assert_eq!(client.token_with(0, Err("refused"), 1), Err("refused"));
    assert!(client.token.is_none());
    assert_eq!(client.token_with(5, ok("first"), 10), ok("first"));
    assert_eq!(client.token_with(10 + 25 * DAY - 1, ok("second"), 0), ok("first"));
    assert_eq!(client.token_with(10 + 25 * DAY, Err("refused"), 0), Err("refused"));
    assert_eq!(client.token.as_ref().map(|t| t.value.as_str()), Some("first"));
    assert_eq!(client.token_with(10 + 25 * DAY, ok("second"), 26 * DAY), ok("second"));
    assert_eq!(client.token(26 * DAY).as_deref(), Some("second"));
}

#[test]
fn addresses() {
    assert_eq!(login_url(), "https://api4.thetvdb.com/v4/login");
    assert_eq!(search_url(), "https://api4.thetvdb.com/v4/search");
    assert_eq!(series_url(347090), "https://api4.thetvdb.com/v4/series/347090/extended");
    assert_eq!(movie_url(-1), "https://api4.thetvdb.com/v4/movies/-1/extended");
    assert_eq!((SERIES_KIND, MOVIE_KIND), ("series", "movie"));
}

#[test]
fn cache_keeps_the_last_value() {
    let mut cache: Cache<u32> = Cache::new();
    let key = |title: &str, year: Option<u32>| (title.to_string(), year);
    assert_eq!(cache.get(&key("a", None)), None);
    cache.insert(key("a", None), 1);
    cache.insert(key("a", Some(2000)), 2);
    cache.insert(key("a", None), 3);
    assert_eq!(cache.get(&key("a", None)), Some(&3));
    assert_eq!(cache.get(&key("a", Some(2000))), Some(&2));
    assert_eq!(cache.get(&key("b", None)), None);
}

#[test]
fn keys_are_stored_as_json() {
    let key = ("harrow".to_string(), Some(2018));
    let (k, v) = persist_entry(&key, Some(vec![7])).unwrap();
    assert_eq!(k, br#"["harrow",2018]"#);
    assert_eq!(v, [7]);
    let (k, _) = persist_entry(&("a\"ż\n".to_string(), None), Some(vec![])).unwrap();
    assert_eq!(k, "[\"a\\\"ż\\n\",null]".as_bytes());
    assert!(persist_entry(&key, None).is_none());
}

#[test]
fn stored_entries_are_loaded() {
    let key = ("a\"ż\n\u{1}".to_string(), None);
    let (bytes, _) = persist_entry(&key, Some(vec![])).unwrap();
    let entries = vec![
        StoredEntry::Unreadable,
        StoredEntry::Read(b"nonsense".to_vec(), Some(1)),
        StoredEntry::Read(bytes.clone(), Some(2)),
        StoredEntry::Read(br#"["b",-1]"#.to_vec(), Some(3)),
        StoredEntry::Read(bytes, None),
        StoredEntry::Read(br#"["b",1999]"#.to_vec(), Some(4)),
    ];
    let (cache, skipped) = load_tree(entries);
    assert_eq!(cache.get(&key), Some(&2));
    assert_eq!(cache.get(&("b".to_string(), Some(1999))), Some(&4));
    assert_eq!(skipped, 4);
}

#[test]
fn loaded_caches_are_used() {
    let mut shows = Cache::new();
    shows.insert(
        ("harrow".to_string(), None),
        SeriesBase { canonical_title: "Harrow".to_string(), release_year: None, imdb_id: None },
    );
    let movies: Cache<MovieMeta> = Cache::new();
    let config = TvdbConfig { tvdb_api_key: "key".to_string(), retry_attempts: 2 };
    let client = Client::new(&config, shows, movies);
    assert_eq!(client.api_key, "key");
    assert!(matches!(client.enrich_show("Harrow", None, 3, 4), ShowLookup::Hit(m)
        if m.season == 3 && m.episode == 4));
}
