use std::io::Write;

use sitemap_crawl::config::is_sitemap_url;
use sitemap_crawl::sitemap::{escape_xml, generate_sitemap_xml};
use sitemap_crawl::sitemap_parser::{
    extract_locs, sitemap_body_text, is_gzip_url, is_sitemap_index, merge_sitemap_urls, sitemap_urls,
};

fn s(x: &str) -> String {
    x.to_string()
}

fn urlset(urls: &[&str]) -> String {
    let mut xml = s("<?xml version=\"1.0\"?><urlset>");
    for u in urls {
        xml.push_str(&format!("<url><loc>{}</loc></url>", u));
    }
    xml.push_str("</urlset>");
    xml
}

#[test]
fn generate_sitemap_exact() {
    let xml = generate_sitemap_xml(&[s("https://a.com/?x=1&y=<2>")]);
    assert_eq!(
        xml,
        "<?xml version=\"1.0\" encoding=\"UTF-8\"?>\n<urlset xmlns=\"http://www.sitemaps.org/schemas/sitemap/0.9\">\n  <url>\n    <loc>https://a.com/?x=1&amp;y=&lt;2&gt;</loc>\n  </url>\n</urlset>\n"
    );
}

#[test]
fn generate_sitemap_empty() {
    let xml = generate_sitemap_xml(&[]);
    assert!(xml.ends_with("0.9\">\n</urlset>\n"));
    assert!(!xml.contains("<url>"));
}

#[test]
fn escape_all_five() {
    assert_eq!(escape_xml("a&b<c>d\"e'f"), "a&amp;b&lt;c&gt;d&quot;e&apos;f");
    assert_eq!(escape_xml(""), "");
    assert_eq!(escape_xml("&amp;"), "&amp;amp;");
}

#[test]
fn sitemap_target_suffixes() {
    assert!(is_sitemap_url("https://a.com/sitemap.xml"));
    assert!(is_sitemap_url("https://a.com/s.xml.gz"));
    assert!(!is_sitemap_url("https://a.com/"));
    assert!(!is_sitemap_url("https://a.com/s.gz"));
    assert!(!is_sitemap_url("xml"));
    assert!(is_gzip_url("https://a.com/s.xml.gz"));
    assert!(!is_gzip_url("https://a.com/s.xml"));
}

#[test]
fn locs_trimmed_unescaped_and_checked() {
    let xml = "<urlset><url><loc>\n  https://a.com/x?p=1&amp;q=2 \n</loc></url><url><loc>not a url</loc></url><url><loc>   </loc></url><url><loc>https://a.com/&#65;</loc></url></urlset>";
    assert_eq!(
        extract_locs(xml),
        vec![s("https://a.com/x?p=1&q=2"), s("https://a.com/A")]
    );
}

#[test]
fn locs_of_malformed_document_are_empty() {
    assert_eq!(extract_locs(""), Vec::<String>::new());
    let xml = "<urlset><url><loc>https://a.com/1</loc></url></wrong>";
    assert_eq!(extract_locs(xml), Vec::<String>::new());
    let root = "<urlset><url><loc>https://a.com/1</loc></url></wrong>";
    assert_eq!(sitemap_urls(root, &Vec::new()), Vec::<String>::new());
}

#[test]
fn index_detection() {
    assert!(is_sitemap_index(&vec![s("https://a.com/1.xml"), s("https://a.com/2.xml.gz")]));
    assert!(!is_sitemap_index(&vec![s("https://a.com/1.xml"), s("https://a.com/page")]));
}

#[test]
fn sitemap_index_with_shared_url() {
    let root = urlset(&["https://a.com/s1.xml", "https://a.com/s2.xml"]);
    let c1 = urlset(&["https://a.com/1", "https://a.com/2", "https://a.com/3", "https://a.com/4", "https://a.com/shared"]);
    let c2 = urlset(&["https://a.com/5", "https://a.com/6", "https://a.com/7", "https://a.com/8", "https://a.com/shared"]);
    let urls = sitemap_urls(&root, &vec![c1, c2]);
    assert_eq!(urls.len(), 9);
    let mut sorted = urls.clone();
    sorted.sort();
    assert_eq!(urls, sorted);
    assert!(urls.contains(&s("https://a.com/shared")));
}

#[test]
fn plain_sitemap_sorted_and_unique() {
    let root = urlset(&["https://a.com/b", "https://a.com/a", "https://a.com/b"]);
    assert_eq!(sitemap_urls(&root, &Vec::new()), vec![s("https://a.com/a"), s("https://a.com/b")]);
}

#[test]
fn merge_lists() {
    let merged = merge_sitemap_urls(&vec![vec![s("c"), s("a")], vec![], vec![s("a"), s("b")]]);
    assert_eq!(merged, vec![s("a"), s("b"), s("c")]);
}

#[test]
fn gzip_round_trip() {
    let mut enc = flate2::write::GzEncoder::new(Vec::new(), flate2::Compression::default());
    enc.write_all(b"<urlset/>").unwrap();
    let data = enc.finish().unwrap();
    assert_eq!(sitemap_body_text("https://a.com/s.xml.gz", &data), Some(s("<urlset/>")));
    assert_eq!(sitemap_body_text("https://a.com/s.xml.gz", b"plain"), None);
    assert_eq!(sitemap_body_text("https://a.com/s.xml", b"plain"), Some(s("plain")));
    assert_eq!(sitemap_body_text("https://a.com/s.xml", &[b'a', 0xff, b'b']), Some(s("a\u{FFFD}b")));
}
