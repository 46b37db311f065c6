use sitemap_crawl::crawler::CrawlState;

fn s(x: &str) -> String {
    x.to_string()
}

/// Runs a crawl over a fixed link graph, handing out every queued page before completing
/// the oldest fetch in flight.
fn run(seed: &str, graph: &[(&str, &[&str])]) -> (Vec<String>, usize) {
    let mut state = CrawlState::new(s(seed));
    let mut in_flight: Vec<(usize, String)> = Vec::new();
    let mut fetches = 0;
    loop {
        while state.has_pending() {
            in_flight.push(state.dispatch());
            fetches += 1;
        }
        if state.is_quiescent() {
            break;
        }
        let (page, url) = in_flight.remove(0);
        let links: Vec<String> = graph
            .iter()
            .find(|(p, _)| *p == url)
            .map(|(_, l)| l.iter().map(|x| s(x)).collect())
            .unwrap_or_default();
        state.complete(page, &links);
    }
    (state.into_sorted(), fetches)
}

#[test]
fn crawl_small_site_graph() {
    let graph: &[(&str, &[&str])] = &[
        ("http://h/a", &["http://h/b", "http://h/c"]),
        ("http://h/b", &["http://h/a", "http://h/d"]),
        ("http://h/c", &[]),
        ("http://h/d", &[]),
    ];
    let (urls, fetches) = run("http://h/a", graph);
    assert_eq!(urls, vec![s("http://h/a"), s("http://h/b"), s("http://h/c"), s("http://h/d")]);
    assert_eq!(fetches, 4);
}

#[test]
fn crawl_cycle_terminates() {
    let graph: &[(&str, &[&str])] = &[
        ("http://h/a", &["http://h/b"]),
        ("http://h/b", &["http://h/a"]),
    ];
    let (urls, fetches) = run("http://h/a", graph);
    assert_eq!(urls, vec![s("http://h/a"), s("http://h/b")]);
    assert_eq!(fetches, 2);
}

#[test]
fn crawl_diamond_fetches_target_once() {
    let graph: &[(&str, &[&str])] = &[
        ("http://h/a", &["http://h/b", "http://h/c"]),
        ("http://h/b", &["http://h/d"]),
        ("http://h/c", &["http://h/d", "http://h/d"]),
        ("http://h/d", &["http://h/a"]),
    ];
    let (urls, fetches) = run("http://h/a", graph);
    assert_eq!(urls.len(), 4);
    assert_eq!(fetches, 4);
}

#[test]
fn crawl_failed_fetch_adds_nothing() {
    let mut state = CrawlState::new(s("http://h/"));
    let (page, _) = state.dispatch();
    assert_eq!(state.in_flight(), 1);
    state.complete(page, &Vec::new());
    assert!(state.is_quiescent());
    assert_eq!(state.visited_count(), 1);
    assert_eq!(state.into_sorted(), vec![s("http://h/")]);
}

#[test]
fn crawl_dispatch_hands_out_in_discovery_order() {
    let mut state = CrawlState::new(s("http://h/"));
    let (page, url) = state.dispatch();
    assert_eq!((page, url.as_str()), (0, "http://h/"));
    state.complete(page, &vec![s("http://h/z"), s("http://h/y"), s("http://h/z")]);
    assert_eq!(state.visited_count(), 3);
    assert_eq!(state.dispatch(), (1, s("http://h/z")));
    assert_eq!(state.dispatch(), (2, s("http://h/y")));
    assert_eq!(state.dispatched_count(), 3);
    assert!(!state.has_pending());
    assert!(!state.is_quiescent());
}

#[test]
fn crawl_start_normalizes_seed_and_takes_host() {
    let (state, host) = CrawlState::start("https://Example.com").unwrap();
    assert_eq!(host, "example.com");
    assert_eq!(state.into_sorted(), vec![s("https://example.com/")]);
    assert!(CrawlState::start("not a url").is_none());
    assert!(CrawlState::start("mailto:a@b.c").is_none());
}

#[test]
fn crawl_start_strips_seed_fragment() {
    let (state, host) = CrawlState::start("https://a.com/x#top").unwrap();
    assert_eq!(host, "a.com");
    assert_eq!(state.into_sorted(), vec![s("https://a.com/x")]);
}

#[test]
fn crawl_tracks_pages_in_flight() {
    let mut state = CrawlState::new(s("http://h/a"));
    let (page, _) = state.dispatch();
    assert!(state.is_fetching_page(page));
    state.complete(page, &vec![s("http://h/b")]);
    assert!(!state.is_fetching_page(page));
    assert!(!state.is_fetching_page(1));
    let (next, url) = state.dispatch();
    assert_eq!((next, url.as_str()), (1, "http://h/b"));
    assert!(state.is_fetching_page(next));
}
