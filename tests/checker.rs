use sitemap_crawl::checker::{
    jitter_delay_ms, pick_user_agent, status_from_failure, status_from_response, ProbeSchedule,
    TransportFailure, UrlStatus,
};

fn s(x: &str) -> String {
    x.to_string()
}

#[test]
fn verify_not_found_and_timeout() {
    let a = status_from_response(s("http://h/u1"), 404, None);
    let b = status_from_failure(s("http://h/u2"), TransportFailure::Timeout);
    assert_eq!(a.url, "http://h/u1");
    assert_eq!(a.status_code, Some(404));
    assert_eq!(a.status_text, "Not Found");
    assert_eq!(a.redirect_url, None);
    assert_eq!(b.url, "http://h/u2");
    assert_eq!(b.status_code, None);
    assert_eq!(b.status_text, "Timeout");
    assert_eq!(b.redirect_url, None);
}

#[test]
fn redirect_kept_only_for_3xx_with_location() {
    let r = status_from_response(s("http://h/a"), 301, Some(s("http://h/b")));
    assert_eq!(r.redirect_url, Some(s("http://h/b")));
    assert_eq!(r.status_text, "Moved Permanently");
    let r = status_from_response(s("http://h/a"), 302, None);
    assert_eq!(r.redirect_url, None);
    let r = status_from_response(s("http://h/a"), 200, Some(s("http://h/b")));
    assert_eq!(r.redirect_url, None);
    assert_eq!(r.status_text, "OK");
    let r = status_from_response(s("http://h/a"), 400, Some(s("http://h/b")));
    assert_eq!(r.redirect_url, None);
    let r = status_from_response(s("http://h/a"), 399, Some(s("http://h/b")));
    assert_eq!(r.redirect_url, Some(s("http://h/b")));
}

#[test]
fn unknown_code_has_unknown_text() {
    assert_eq!(status_from_response(s("u"), 599, None).status_text, "Unknown");
    assert_eq!(status_from_response(s("u"), 42, None).status_text, "Unknown");
}

#[test]
fn transport_failures_text() {
    let c = status_from_failure(s("u"), TransportFailure::Connect);
    assert_eq!(c.status_text, "Connection Error");
    let o = status_from_failure(s("u"), TransportFailure::Other(s("builder error")));
    assert_eq!(o.status_text, "builder error");
    assert_eq!(o.status_code, None);
}

#[test]
fn status_line_rendering() {
    let ok = status_from_response(s("http://h/"), 200, None);
    assert_eq!(ok.to_string(), "[200] http://h/");
    let redirect = status_from_response(s("http://h/"), 308, Some(s("http://h/x")));
    assert_eq!(redirect.to_string(), "[308] http://h/ -> http://h/x");
    let err = UrlStatus {
        url: s("http://h/"),
        status_code: None,
        status_text: s("Timeout"),
        redirect_url: None,
    };
    assert_eq!(err.to_string(), "[ERR] http://h/ (Timeout)");
}

#[test]
fn schedule_bounds_probes_in_flight() {
    let urls: Vec<String> = (0..10).map(|i| format!("http://h/{}", i)).collect();
    let mut sched = ProbeSchedule::new(&urls, 3);
    let mut running = Vec::new();
    while let Some(p) = sched.try_start() {
        running.push(p);
    }
    assert_eq!(running.len(), 3);
    let (i, url) = running.remove(0);
    assert!(sched.running(i));
    sched.finish(i, status_from_response(url, 200, None));
    assert!(!sched.running(i));
    assert!(sched.try_start().is_some());
    assert!(sched.try_start().is_none());
}

#[test]
fn schedule_one_record_per_unique_url() {
    let urls = vec![s("http://h/b"), s("http://h/a"), s("http://h/b"), s("http://h/c")];
    let mut sched = ProbeSchedule::new(&urls, 2);
    let mut running: Vec<(usize, String)> = Vec::new();
    loop {
        while let Some(p) = sched.try_start() {
            running.push(p);
        }
        if sched.is_done() {
            break;
        }
        let (i, url) = running.pop().unwrap();
        sched.finish(i, status_from_failure(url, TransportFailure::Timeout));
    }
    let mut got: Vec<String> = sched.into_results().into_iter().map(|r| r.url).collect();
    got.sort();
    assert_eq!(got, vec![s("http://h/a"), s("http://h/b"), s("http://h/c")]);
}

#[test]
fn schedule_of_nothing_is_done() {
    let sched = ProbeSchedule::new(&Vec::new(), 5);
    assert!(sched.is_done());
    assert!(sched.into_results().is_empty());
}

#[test]
fn jitter_stays_in_range() {
    assert_eq!(jitter_delay_ms(100, 0), 100);
    assert_eq!(jitter_delay_ms(100, 200), 300);
    assert_eq!(jitter_delay_ms(100, 201), 100);
    assert_eq!(jitter_delay_ms(100, 57), 157);
    assert_eq!(jitter_delay_ms(0, 12345), 0);
    for k in 0..1000u64 {
        let d = jitter_delay_ms(10, k * 7919);
        assert!((10..=30).contains(&d));
    }
}

#[test]
fn user_agent_rotates() {
    let pool = vec![s("a"), s("b"), s("c")];
    assert_eq!(pick_user_agent(&pool, 0), "a");
    assert_eq!(pick_user_agent(&pool, 4), "b");
    assert_eq!(pick_user_agent(&pool, 8), "c");
}

#[test]
fn schedule_abandoned_probe_has_no_record() {
    let urls = vec![s("http://h/a"), s("http://h/b")];
    let mut sched = ProbeSchedule::new(&urls, 5);
    let (i, _) = sched.try_start().unwrap();
    let (j, url_b) = sched.try_start().unwrap();
    sched.abandon(i);
    assert!(!sched.running(i));
    sched.finish(j, status_from_response(url_b, 200, None));
    assert!(sched.is_done());
    let got: Vec<String> = sched.into_results().into_iter().map(|r| r.url).collect();
    assert_eq!(got, vec![s("http://h/b")]);
}

#[test]
fn schedule_keeps_whole_records() {
    let urls = vec![s("http://h/a")];
    let mut sched = ProbeSchedule::new(&urls, 1);
    let (i, url) = sched.try_start().unwrap();
    sched.finish(i, status_from_response(url, 301, Some(s("http://h/b"))));
    let got = sched.into_results();
    assert_eq!(got.len(), 1);
    assert_eq!(got[0].status_code, Some(301));
    assert_eq!(got[0].status_text, "Moved Permanently");
    assert_eq!(got[0].redirect_url, Some(s("http://h/b")));
}
