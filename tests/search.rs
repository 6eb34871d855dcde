use aursearch::{
    cached_search, inline_answer, null_to_none, page, parse_offset, query_key, search_params,
    store_search, sweep_again, write_decimal, AurResponse, Packages, RawPackage, RawResponse,
    Search, TtlCache, CACHE_TTL_MS, PAGE_SIZE,
};

fn rank_of(popularity: f32) -> u32 {
    popularity.to_bits()
}

fn raw_package(id: u64, name: &str, popularity: f32) -> RawPackage {
    RawPackage {
        id,
        name: name.to_string(),
        version: "1.0-1".to_string(),
        description: Some(format!("{} package", name)),
        popularity_rank: rank_of(popularity),
        popularity_text: format!("{}", popularity),
        num_votes: 7,
        maintainer: Some("someone".to_string()),
        package_url: None,
        package_base: name.to_string(),
        first_submitted: Some(0),
        last_modified: Some(1_700_000_000),
    }
}

fn package(id: u64, name: &str, popularity: f32) -> Packages {
    Packages::from_raw(raw_package(id, name, popularity)).unwrap()
}

fn result_of(packages: Vec<Packages>) -> AurResponse {
    AurResponse::Result { total: packages.len(), results: packages }
}

fn names(response: &AurResponse) -> Vec<String> {
    match response {
        AurResponse::Result { results, .. } => results.iter().map(|p| p.name.clone()).collect(),
        AurResponse::Error { .. } => panic!("expected a result"),
    }
}

/// Stands in for the catalog and counts how often it was asked.
struct Upstream {
    calls: usize,
}

impl Upstream {
    fn search(&mut self, query: &Search) -> AurResponse {
        self.calls += 1;
        let raw = RawResponse::Result { results: vec![raw_package(1, query.text(), 5.0)] };
        AurResponse::from_raw(raw)
    }
}

fn search_through(cache: &mut TtlCache<AurResponse>, upstream: &mut Upstream, query: Search, now: u64) {
    if cached_search(cache, &query, now).is_none() {
        let fetched = upstream.search(&query);
        store_search(cache, query, fetched, now);
    }
}

#[test]
fn test_request_functions() {
    let mut cache: TtlCache<AurResponse> = TtlCache::new();
    let mut upstream = Upstream { calls: 0 };
    search_through(&mut cache, &mut upstream, Search::from("paru"), 0);
    let result = cached_search(&cache, &Search::from("paru"), 0).unwrap();
    assert!(
        matches!(*result, AurResponse::Result { .. },),
        "Search failed with a response of error variant"
    );
    if let AurResponse::Result { results, total } = result {
        assert_ne!(*total, 0, "Number of packages returned from search is zero",);
        assert_eq!(results[0].name, "paru", "The packages sorting failed");
        assert_eq!(
            results[0].git(),
            "https://aur.archlinux.org/paru.git",
            "Invalid git url found for package"
        );
    }
    let result = cached_search(&cache, &Search::from("paru"), 0);
    assert_ne!(matches!(result, None), true, "Couldn't find cache hit");
}

#[test]
fn maintainer_prefix_is_stripped() {
    assert_eq!(Search::from("!m alice"), Search::Maintainer("alice".to_string()));
    assert_eq!(Search::from("!m "), Search::Maintainer(String::new()));
    assert_eq!(Search::from("!m !m x"), Search::Maintainer("!m x".to_string()));
}

#[test]
fn other_queries_search_by_name() {
    assert_eq!(Search::from("paru"), Search::Package("paru".to_string()));
    assert_eq!(Search::from("!mx"), Search::Package("!mx".to_string()));
    assert_eq!(Search::from(" !m a"), Search::Package(" !m a".to_string()));
    assert_eq!(Search::from(""), Search::Package(String::new()));
    assert_ne!(Search::from("!m paru"), Search::from("paru"));
}

#[test]
fn search_term_is_the_text() {
    let k = Search::from("!m bob");
    assert_eq!(k.text(), "bob");
    assert_eq!(&*k, "bob");
    assert!(k.is_maintainer());
    assert!(!Search::from("bob").is_maintainer());
    assert_eq!(k.clone(), k);
}

#[test]
fn keys_order_by_kind_then_term() {
    assert!(Search::from("a") < Search::from("b"));
    assert!(Search::from("zzz") < Search::from("!m aaa"));
    assert!(Search::from("!m a") < Search::from("!m b"));
}

#[test]
fn blank_queries_have_no_key() {
    for q in ["", "!", "!m", "!m "] {
        assert!(query_key(q).is_none(), "{:?}", q);
    }
    assert_eq!(query_key("!m a"), Some(Search::Maintainer("a".to_string())));
    assert_eq!(query_key("m"), Some(Search::Package("m".to_string())));
    assert_eq!(query_key("!x"), Some(Search::Package("!x".to_string())));
}

#[test]
fn markup_is_escaped() {
    assert_eq!(null_to_none(Some("a<b>c&d".to_string())), "a&lt;b&gt;c&amp;d");
    assert_eq!(null_to_none(Some("plain text".to_string())), "plain text");
    assert_eq!(null_to_none(Some(String::new())), "");
}

#[test]
fn null_field_reads_none() {
    assert_eq!(null_to_none(None), "None");
    let mut raw = raw_package(3, "x", 1.0);
    raw.description = None;
    raw.maintainer = Some("a<b>c&d".to_string());
    let p = Packages::from_raw(raw).unwrap();
    assert_eq!(p.description, "None");
    assert_eq!(p.maintainer, "a&lt;b&gt;c&amp;d");
    assert_eq!(p.package_url, "None");
}

#[test]
fn timestamps_are_written_in_utc_minutes() {
    let p = package(1, "x", 1.0);
    assert_eq!(p.first_submitted, "1970-01-01 00:00");
    assert_eq!(p.last_modified, "2023-11-14 22:13");
    let mut raw = raw_package(1, "x", 1.0);
    raw.first_submitted = None;
    raw.last_modified = Some(-60);
    let p = Packages::from_raw(raw).unwrap();
    assert_eq!(p.first_submitted, "");
    assert_eq!(p.last_modified, "1969-12-31 23:59");
}

#[test]
fn timestamp_outside_calendar_is_refused() {
    let mut raw = raw_package(1, "x", 1.0);
    raw.last_modified = Some(i64::MAX);
    assert!(Packages::from_raw(raw).is_none());
    let mut raw = raw_package(2, "y", 1.0);
    raw.first_submitted = Some(i64::MIN);
    let response = AurResponse::from_raw(RawResponse::Result { results: vec![raw] });
    match response {
        AurResponse::Error { error } => {
            assert_eq!(error, "the catalog sent a timestamp outside the calendar")
        }
        AurResponse::Result { .. } => panic!("expected an error"),
    }
}

#[test]
fn upstream_error_passes_verbatim() {
    let raw = RawResponse::Error { error: "Too many package results.".to_string() };
    match AurResponse::from_raw(raw).ranked() {
        AurResponse::Error { error } => assert_eq!(error, "Too many package results."),
        AurResponse::Result { .. } => panic!("expected an error"),
    }
}

#[test]
fn result_is_counted_and_kept_in_order() {
    let raw = RawResponse::Result {
        results: vec![raw_package(1, "a", 1.0), raw_package(2, "b", 2.0)],
    };
    let r = AurResponse::from_raw(raw);
    assert_eq!(names(&r), vec!["a", "b"]);
    match r {
        AurResponse::Result { total, .. } => assert_eq!(total, 2),
        AurResponse::Error { .. } => panic!("expected a result"),
    }
}

#[test]
fn results_are_sorted_by_popularity() {
    let r = result_of(vec![package(1, "three", 3.0), package(2, "nine", 9.0), package(3, "one", 1.0)]);
    let r = r.ranked();
    assert_eq!(names(&r), vec!["nine", "three", "one"]);
    match r {
        AurResponse::Result { total, results } => {
            assert_eq!(total, 3);
            assert_eq!(results[0].popularity_text, "9");
        }
        AurResponse::Error { .. } => panic!("expected a result"),
    }
}

#[test]
fn equal_popularity_keeps_upstream_order() {
    let r = result_of(vec![
        package(1, "a", 2.0),
        package(2, "b", 5.0),
        package(3, "c", 2.0),
        package(4, "d", 5.0),
        package(5, "e", 0.0),
    ]);
    assert_eq!(names(&r.ranked()), vec!["b", "d", "a", "c", "e"]);
    assert!(names(&result_of(vec![]).ranked()).is_empty());
}

#[test]
fn first_page_and_past_the_end() {
    let w = page(120, 0);
    assert_eq!((w.start, w.end, w.next_offset), (0, 50, 50));
    let w = page(120, 50);
    assert_eq!((w.start, w.end, w.next_offset), (50, 100, 100));
    let w = page(120, 100);
    assert_eq!((w.start, w.end, w.next_offset), (100, 120, 0));
    let w = page(30, 0);
    assert_eq!((w.start, w.end, w.next_offset), (0, 30, 0));
    let w = page(50, 0);
    assert_eq!((w.start, w.end, w.next_offset), (0, 50, 0));
    let w = page(51, 0);
    assert_eq!((w.start, w.end, w.next_offset), (0, 50, 50));
    let w = page(120, 120);
    assert_eq!((w.start, w.end, w.next_offset), (120, 120, 0));
    let w = page(0, 0);
    assert_eq!((w.start, w.end, w.next_offset), (0, 0, 0));
    let w = page(10, usize::MAX);
    assert_eq!((w.start, w.end, w.next_offset), (10, 10, 0));
    assert_eq!(PAGE_SIZE, 50);
}

#[test]
fn offsets_are_read_or_default_to_zero() {
    assert_eq!(parse_offset(""), 0);
    assert_eq!(parse_offset("abc"), 0);
    assert_eq!(parse_offset("50"), 50);
    assert_eq!(parse_offset("+7"), 7);
    assert_eq!(parse_offset("+"), 0);
    assert_eq!(parse_offset("-1"), 0);
    assert_eq!(parse_offset("12x"), 0);
    assert_eq!(parse_offset(" 5"), 0);
    assert_eq!(parse_offset("007"), 7);
    assert_eq!(parse_offset(&usize::MAX.to_string()), usize::MAX);
    assert_eq!(parse_offset("99999999999999999999999"), 0);
}

#[test]
fn entry_expires_after_its_time_to_live() {
    let mut cache: TtlCache<u32> = TtlCache::new();
    let k = Search::from("paru");
    cache.insert(k.clone(), 7, 60_000, 1_000);
    assert_eq!(cache.get(&k, 1_000), Some(&7));
    assert_eq!(cache.get(&k, 60_999), Some(&7));
    assert_eq!(cache.get(&k, 61_000), None);
    assert_eq!(cache.get(&Search::from("!m paru"), 1_000), None);
    assert_eq!(cache.len(), 1);
    assert_eq!(cache.purge(61_000, 0, 4), 1);
    assert_eq!(cache.len(), 0);
    assert_eq!(cache.get(&k, 61_000), None);
}

#[test]
fn insert_replaces_the_entry() {
    let mut cache: TtlCache<&str> = TtlCache::new();
    let k = Search::from("x");
    cache.insert(k.clone(), "old", 10, 0);
    cache.insert(Search::from("y"), "other", 10, 0);
    cache.insert(k.clone(), "new", 100, 50);
    assert_eq!(cache.len(), 2);
    assert_eq!(cache.get(&k, 120), Some(&"new"));
    assert_eq!(cache.get(&Search::from("y"), 5), Some(&"other"));
    assert_eq!(cache.get(&Search::from("y"), 10), None);
}

#[test]
fn sweep_examines_its_window_only() {
    let mut cache: TtlCache<u32> = TtlCache::new();
    for (i, name) in ["a", "b", "c", "d", "e"].iter().enumerate() {
        cache.insert(Search::from(name), i as u32, if i == 2 { 1_000 } else { 10 }, 0);
    }
    assert_eq!(cache.purge(500, 1, 2), 1);
    assert_eq!(cache.len(), 4);
    assert_eq!(cache.get(&Search::from("c"), 500), Some(&2));
    assert_eq!(cache.get(&Search::from("b"), 0), None);
    assert_eq!(cache.purge(500, 10, 4), 0);
    assert_eq!(cache.purge(500, 0, 100), 3);
    assert_eq!(cache.len(), 1);
}

#[test]
fn sweeping_goes_on_while_a_quarter_expired() {
    assert!(sweep_again(1, 4));
    assert!(!sweep_again(0, 4));
    assert!(sweep_again(1, 3));
    assert!(!sweep_again(1, 5));
    assert!(!sweep_again(0, 0));
}

#[test]
fn repeated_search_is_served_from_the_cache() {
    let mut cache: TtlCache<AurResponse> = TtlCache::new();
    let mut upstream = Upstream { calls: 0 };
    let k = Search::from("paru");
    search_through(&mut cache, &mut upstream, k.clone(), 0);
    let first = names(cached_search(&cache, &k, 0).unwrap());
    match cached_search(&cache, &k, 0).unwrap() {
        AurResponse::Result { total, results } => {
            assert_eq!(*total, 1);
            assert_eq!(results.len(), 1);
            assert_eq!(results[0].name, "paru");
            assert_eq!(results[0].popularity_text, "5");
        }
        AurResponse::Error { .. } => panic!("expected a result"),
    }
    search_through(&mut cache, &mut upstream, k.clone(), CACHE_TTL_MS - 1);
    assert_eq!(upstream.calls, 1);
    let second = names(cached_search(&cache, &k, CACHE_TTL_MS - 1).unwrap());
    assert_eq!(first, second);
    search_through(&mut cache, &mut upstream, k.clone(), CACHE_TTL_MS);
    assert_eq!(upstream.calls, 2);
}

#[test]
fn cached_lists_keep_their_order() {
    let mut cache: TtlCache<AurResponse> = TtlCache::new();
    let k = Search::from("x");
    let r = result_of(vec![package(1, "low", 1.0), package(2, "high", 8.0), package(3, "mid", 4.0)]);
    let stored = names(store_search(&mut cache, k.clone(), r, 10));
    assert_eq!(stored, vec!["high", "mid", "low"]);
    let a = names(cached_search(&cache, &k, 10).unwrap());
    let b = names(cached_search(&cache, &k, 20).unwrap());
    assert_eq!(a, vec!["high", "mid", "low"]);
    assert_eq!(a, b);
}

#[test]
fn request_parameters() {
    let by_name = search_params(&Search::from("paru"));
    let expected: Vec<(String, String)> = [("v", "5"), ("type", "search"), ("by", "name"), ("arg", "paru")]
        .iter()
        .map(|(a, b)| (a.to_string(), b.to_string()))
        .collect();
    assert_eq!(by_name, expected);
    let by_maintainer = search_params(&Search::from("!m alice"));
    assert_eq!(by_maintainer[2], ("by".to_string(), "maintainer".to_string()));
    assert_eq!(by_maintainer[3], ("arg".to_string(), "alice".to_string()));
}

#[test]
fn git_url_and_rendering() {
    let p = package(42, "paru", 5.0);
    assert_eq!(p.git(), "https://aur.archlinux.org/paru.git");
    let text = p.pretty();
    assert!(text.starts_with("\u{1f4e6} <b>paru</b>\n\n\u{2139}\u{fe0f}paru package\n\n"));
    assert!(text.contains("<a href='https://aur.archlinux.org/paru.git'>Git</a> | <a href='None'>Source</a>"));
    assert!(text.contains("- Maintainer: <code>someone</code>\n- Votes: <code>7</code>\n"));
    assert!(text.contains("- Version: <code>1.0-1</code>\n- Popularity: <code>5</code>\n"));
    assert!(text.ends_with(
        "- Last Updated: <code>2023-11-14 22:13</code>\n- First Submitted: <code>1970-01-01 00:00</code>"
    ));
}

#[test]
fn decimal_digits() {
    for n in [0u64, 7, 10, 1234567890, u64::MAX] {
        let mut s = String::from("#");
        write_decimal(&mut s, n);
        assert_eq!(s, format!("#{}", n));
    }
}

#[test]
fn inline_answer_pages_the_result() {
    let packages: Vec<Packages> = (0..120).map(|i| package(i, &format!("p{}", i), 1.0)).collect();
    let r = result_of(packages);
    let a = inline_answer(&r, 0);
    assert_eq!(a.articles.len(), 50);
    assert_eq!(a.next_offset, Some(50));
    assert_eq!(a.articles[0].id, "0");
    assert_eq!(a.articles[0].title, "p0");
    assert_eq!(a.articles[0].description.as_deref(), Some("p0 package"));
    assert!(a.articles[0].html);
    let a = inline_answer(&r, 100);
    assert_eq!(a.articles.len(), 20);
    assert_eq!(a.articles[0].title, "p100");
    assert_eq!(a.articles[19].body, package(119, "p119", 1.0).pretty());
    assert_eq!(a.next_offset, None);
}

#[test]
fn inline_answer_notices() {
    let empty = inline_answer(&result_of(vec![]), 0);
    assert_eq!(empty.articles.len(), 1);
    assert_eq!(empty.articles[0].id, "1");
    assert_eq!(empty.articles[0].title, "No result found");
    assert_eq!(empty.articles[0].body, "No package has been found");
    assert_eq!(empty.next_offset, None);
    let past = inline_answer(&result_of(vec![package(1, "a", 1.0)]), 5);
    assert_eq!(past.articles[0].title, "No result found");
    let error = AurResponse::Error { error: "boom".to_string() };
    let e = inline_answer(&error, 50);
    assert_eq!(e.articles.len(), 1);
    assert_eq!(e.articles[0].title, "boom");
    assert_eq!(e.articles[0].body, "Error occurred while searching AUR");
    assert!(!e.articles[0].html);
    assert_eq!(e.next_offset, None);
}
