use std::time::Duration;

use sitemap_crawl::config::{AppConfig, DEFAULT_CONCURRENCY, DEFAULT_DELAY, DEFAULT_TIMEOUT};
use sitemap_crawl::fetcher::{accepts_page, is_success};

#[test]
fn durations_from_config() {
    let cfg = AppConfig {
        urls: vec!["https://a.com".to_string()],
        concurrency: DEFAULT_CONCURRENCY,
        timeout: DEFAULT_TIMEOUT,
        delay: DEFAULT_DELAY,
        user_agent: "ua".to_string(),
        output: None,
    };
    assert_eq!(cfg.timeout_duration(), Duration::from_secs(10));
    assert_eq!(cfg.delay_duration(), Duration::from_millis(100));
    assert_eq!(DEFAULT_CONCURRENCY, 50);
}

#[test]
fn html_pages_accepted() {
    assert!(accepts_page(200, "text/html; charset=utf-8"));
    assert!(accepts_page(204, "TEXT/HTML"));
    assert!(!accepts_page(200, "application/json"));
    assert!(!accepts_page(200, ""));
    assert!(!accepts_page(404, "text/html"));
    assert!(!accepts_page(301, "text/html"));
    assert!(is_success(299));
    assert!(!is_success(300));
}
