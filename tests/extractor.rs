use sitemap_crawl::extractor::{
    extract_links, is_same_domain, links_from_hrefs, resolve_url, strip_fragment,
};

fn s(x: &str) -> String {
    x.to_string()
}

#[test]
fn extract_same_host_links() {
    let body = r##"<html><body>
        <a href="/about#team">About</a>
        <a href="https://other.com/x">Other</a>
        <a href="mailto:x@a.com">Mail</a>
        <a href="#top">Top</a>
        <a>No href</a>
        <a href="page2">Rel</a>
        <a href="javascript:void(0)">JS</a>
        <a href="tel:123">Tel</a>
    </body></html>"##;
    let links = extract_links(body, "https://a.com/dir/index.html", "a.com");
    assert_eq!(links, vec![s("https://a.com/about"), s("https://a.com/dir/page2")]);
}

#[test]
fn hrefs_filtered_in_order() {
    let hrefs = vec![s("b"), s("#x"), s("http://a.com/c#d"), s("http://b.com/")];
    assert_eq!(
        links_from_hrefs(&hrefs, "http://a.com/", "a.com"),
        vec![s("http://a.com/b"), s("http://a.com/c")]
    );
}

#[test]
fn resolve_rules() {
    assert_eq!(resolve_url("/x", "https://a.com/y/z"), Some(s("https://a.com/x")));
    assert_eq!(resolve_url("mailto:a@b", "https://a.com/"), None);
    assert_eq!(resolve_url("#frag", "https://a.com/"), None);
    assert_eq!(resolve_url("x", "not a base"), None);
}

#[test]
fn host_comparison() {
    assert!(is_same_domain("https://a.com/x", "a.com"));
    assert!(!is_same_domain("https://sub.a.com/x", "a.com"));
    assert!(!is_same_domain("nonsense", "a.com"));
}

#[test]
fn fragment_removed() {
    assert_eq!(strip_fragment("https://a.com/x#y#z"), "https://a.com/x");
    assert_eq!(strip_fragment("https://a.com/x"), "https://a.com/x");
    assert_eq!(strip_fragment("#"), "");
}
