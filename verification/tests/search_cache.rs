use manga_core::cache::CacheService;
use manga_core::stats_text::parse_info_stats;
use manga_core::codec::Cacheable;
use manga_core::manga::Manga;
use manga_core::manga::MangaListResponse;
use manga_core::params::AdvancedSearchParams;
use manga_core::search::get_autocomplete_suggestions;
use manga_core::search::SearchService;

fn doc(id: u64, title: &str, updated_at: u64) -> Manga {
    Manga {
        id,
        title: String::from(title),
        description: String::new(),
        author: String::new(),
        artist: String::new(),
        status: String::from("ongoing"),
        tags: Vec::new(),
        year: Some(2000),
        rating: 450,
        popularity: 10,
        created_at: 1,
        updated_at,
    }
}

fn seeded_store() -> Vec<Manga> {
    vec![
        doc(1, "Naruto", 300),
        doc(2, "One Piece", 200),
        doc(3, "Naruto: Shippuden", 100),
    ]
}

fn naruto_request() -> AdvancedSearchParams {
    AdvancedSearchParams {
        query: Some(String::from("naruto")),
        page: Some(1),
        limit: Some(10),
        ..Default::default()
    }
}

#[test]
fn end_to_end_scenario() {
    let docs = seeded_store();
    let mut service = SearchService::new(Some(CacheService::new()));
    let now = 1_000;

    let first = service.advanced_search(&docs, &naruto_request(), now).unwrap();
    assert!(first.success);
    assert_eq!(first.total_count, 2);
    assert_eq!(first.manga.len(), 2);
    // Default sort: updated_at, newest first.
    assert_eq!(first.manga[0].title, "Naruto");
    assert_eq!(first.manga[1].title, "Naruto: Shippuden");
    assert_eq!(first.message, "Found 2 manga");
    assert_eq!(service.query_count(), 1);

    // A second identical call is served entirely from the cache.
    let second = service.advanced_search(&docs, &naruto_request(), now + 10).unwrap();
    assert_eq!(service.query_count(), 1);
    assert_eq!(second.total_count, 2);
    assert_eq!(second.manga.len(), 2);
    assert_eq!(second.manga[0].title, first.manga[0].title);
    assert_eq!(second.manga[1].title, first.manga[1].title);
    assert_eq!(second.message, first.message);
}

#[test]
fn search_matches_case_insensitively() {
    let docs = seeded_store();
    let mut service = SearchService::new(None);
    let params = AdvancedSearchParams {
        query: Some(String::from("NARUTO")),
        ..Default::default()
    };
    let r = service.advanced_search(&docs, &params, 0).unwrap();
    assert_eq!(r.total_count, 2);
}

#[test]
fn cache_expires_after_ttl() {
    let docs = seeded_store();
    let mut service = SearchService::new(Some(CacheService::new()));
    let now = 1_000;
    service.advanced_search(&docs, &naruto_request(), now).unwrap();
    assert_eq!(service.query_count(), 1);
    // Past the 300-second TTL the entry has expired and the store is
    // consulted again.
    let r = service.advanced_search(&docs, &naruto_request(), now + 301).unwrap();
    assert_eq!(service.query_count(), 2);
    assert_eq!(r.total_count, 2);
}

#[test]
fn corruption_heals_itself() {
    let mut cache = CacheService::new();
    let now = 50;
    cache.set_raw("search:advanced:feedbead00000000", vec![7, 7, 7], 300, now);
    assert!(cache.contains_key("search:advanced:feedbead00000000", now));
    let read: Option<MangaListResponse> = cache.get("search:advanced:feedbead00000000", now);
    assert!(read.is_none());
    // The corrupted entry was deleted on read.
    assert!(!cache.contains_key("search:advanced:feedbead00000000", now));
}

#[test]
fn invalidation_is_scoped_to_the_search_namespace() {
    let docs = seeded_store();
    let mut service = SearchService::new(Some(CacheService::new()));
    let now = 10;
    service.advanced_search(&docs, &naruto_request(), now).unwrap();
    let sugg = get_autocomplete_suggestions(&mut service, &docs, "naru", 10, now).unwrap();
    assert_eq!(sugg, vec!["Naruto", "Naruto: Shippuden"]);
    assert_eq!(service.query_count(), 2);

    service.invalidate_search_cache().unwrap();

    // The autocomplete entry survived: served from cache, no new query.
    let sugg2 = get_autocomplete_suggestions(&mut service, &docs, "naru", 10, now).unwrap();
    assert_eq!(sugg2, sugg);
    assert_eq!(service.query_count(), 2);
    // The search entry is gone: the store is consulted again.
    service.advanced_search(&docs, &naruto_request(), now).unwrap();
    assert_eq!(service.query_count(), 3);
}

#[test]
fn invalidation_at_the_cache_level() {
    let mut cache = CacheService::new();
    let now = 5;
    let suggestions: Vec<String> = vec![String::from("Naruto")];
    cache.set("search:advanced:0123456789abcdef", &suggestions, 300, now).unwrap();
    cache.set("autocomplete:na", &suggestions, 600, now).unwrap();
    let removed = cache.delete_pattern("search:*").unwrap();
    assert_eq!(removed, 1);
    assert!(!cache.contains_key("search:advanced:0123456789abcdef", now));
    assert!(cache.contains_key("autocomplete:na", now));
}

#[test]
fn autocomplete_needs_two_characters() {
    let docs = seeded_store();
    let mut service = SearchService::new(Some(CacheService::new()));
    let sugg = get_autocomplete_suggestions(&mut service, &docs, "n", 10, 0).unwrap();
    assert!(sugg.is_empty());
    assert_eq!(service.query_count(), 0);
}

#[test]
fn autocomplete_respects_the_limit() {
    let docs = seeded_store();
    let mut service = SearchService::new(None);
    let sugg = get_autocomplete_suggestions(&mut service, &docs, "naru", 1, 0).unwrap();
    assert_eq!(sugg, vec!["Naruto"]);
}

#[test]
fn filters_compose_conjunctively() {
    let mut tagged = doc(7, "Berserk", 500);
    tagged.tags = vec![String::from("seinen"), String::from("fantasy")];
    tagged.year = Some(1989);
    tagged.rating = 980;
    let docs = vec![doc(1, "Naruto", 300), tagged];
    let mut service = SearchService::new(None);
    let params = AdvancedSearchParams {
        tags: Some(vec![String::from("fantasy")]),
        year_from: Some(1980),
        year_to: Some(1995),
        min_rating: Some(900),
        ..Default::default()
    };
    let r = service.advanced_search(&docs, &params, 0).unwrap();
    assert_eq!(r.total_count, 1);
    assert_eq!(r.manga[0].title, "Berserk");

    // Tightening any one bound drops the match.
    let params2 = AdvancedSearchParams {
        min_rating: Some(990),
        ..params
    };
    let r2 = service.advanced_search(&docs, &params2, 0).unwrap();
    assert_eq!(r2.total_count, 0);
    assert_eq!(r2.message, "Found 0 manga");
}

#[test]
fn pagination_slices_the_sorted_results() {
    let docs: Vec<Manga> = (1..=5).map(|i| doc(i, &format!("Title {}", i), i * 10)).collect();
    let mut service = SearchService::new(None);
    let params = AdvancedSearchParams {
        page: Some(2),
        limit: Some(2),
        ..Default::default()
    };
    // updated_at desc: 50, 40, 30, 20, 10; page 2 of size 2 holds 30, 20.
    let r = service.advanced_search(&docs, &params, 0).unwrap();
    assert_eq!(r.total_count, 5);
    assert_eq!(r.manga.len(), 2);
    assert_eq!(r.manga[0].updated_at, 30);
    assert_eq!(r.manga[1].updated_at, 20);
}

#[test]
fn response_codec_round_trips() {
    let mut exotic = doc(9, "Caf\u{e9} \u{1F4d6}", 77);
    exotic.tags = vec![String::from("slice of life"), String::new()];
    exotic.year = None;
    let resp = MangaListResponse {
        success: true,
        manga: vec![exotic],
        total_count: 1,
        message: String::from("Found 1 manga"),
    };
    let bytes = resp.encode();
    let back = <MangaListResponse as Cacheable>::decode(&bytes).unwrap();
    assert_eq!(back.success, resp.success);
    assert_eq!(back.total_count, resp.total_count);
    assert_eq!(back.message, resp.message);
    assert_eq!(back.manga.len(), 1);
    assert_eq!(back.manga[0].title, "Caf\u{e9} \u{1F4d6}");
    assert_eq!(back.manga[0].tags, resp.manga[0].tags);
    assert_eq!(back.manga[0].year, None);

    // A truncated payload no longer decodes.
    let cut = bytes[..bytes.len() - 1].to_vec();
    assert!(<MangaListResponse as Cacheable>::decode(&cut).is_none());
}

#[test]
fn stats_report_hits_misses_and_rate() {
    let mut cache = CacheService::new();
    let now = 0;
    let miss: Option<Vec<String>> = cache.get("absent", now);
    assert!(miss.is_none());
    let value = vec![String::from("x")];
    cache.set("present", &value, 60, now).unwrap();
    let hit: Option<Vec<String>> = cache.get("present", now);
    assert_eq!(hit.unwrap(), value);
    let stats = cache.stats().unwrap();
    assert_eq!(stats.hits, 1);
    assert_eq!(stats.misses, 1);
    assert_eq!(stats.hit_rate, 50);
}

#[test]
fn info_text_yields_the_counters() {
    let info = "# Stats\r\ntotal_connections_received:5\r\nkeyspace_hits:42\r\nkeyspace_misses:14\r\nexpired_keys:3\r\n";
    let stats = parse_info_stats(info);
    assert_eq!(stats.hits, 42);
    assert_eq!(stats.misses, 14);
    assert_eq!(stats.hit_rate, 75);
}

#[test]
fn info_text_tolerates_absence_and_damage() {
    let empty = parse_info_stats("");
    assert_eq!((empty.hits, empty.misses, empty.hit_rate), (0, 0, 0));

    // A malformed number reads as zero, as does a missing line.
    let broken = parse_info_stats("keyspace_hits:4x2\nkeyspace_misses:\n");
    assert_eq!((broken.hits, broken.misses), (0, 0));

    // The last line for a counter wins.
    let twice = parse_info_stats("keyspace_hits:1\nkeyspace_hits:9\n");
    assert_eq!(twice.hits, 9);
    assert_eq!(twice.misses, 0);

    // A value too wide for the counter reads as zero.
    let wide = parse_info_stats("keyspace_hits:99999999999999999999999999\n");
    assert_eq!(wide.hits, 0);
}
