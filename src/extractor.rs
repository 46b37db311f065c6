use vstd::prelude::*;

use crate::text::{chars_of, has_prefix, same_chars, starts_with, string_from_chars};
use crate::urls::texts;

verus! {

/// The `href` values of the document's `a` elements that have one, in document order.
pub uninterp spec fn anchor_hrefs_of(body: Seq<char>) -> Seq<Seq<char>>;

/// The serialization of `href` resolved against the absolute URL `base`, when both parse.
pub uninterp spec fn joined_of(base: Seq<char>, href: Seq<char>) -> Option<Seq<char>>;

/// The host of the URL `url`, when it parses and has one.
pub uninterp spec fn host_of(url: Seq<char>) -> Option<Seq<char>>;

/// The serialization of `s` as an absolute URL, when it parses as one.
pub uninterp spec fn parsed_of(s: Seq<char>) -> Option<Seq<char>>;

/// Relies on scraper's `Html::parse_document` and its `a[href]` selector: the `href`
/// attribute of each anchor that has one, in document order.
#[verifier::external_body]
fn anchor_hrefs(body: &str) -> (r: Vec<String>)
    ensures
        texts(r@) == anchor_hrefs_of(body@),
{
    let document = scraper::Html::parse_document(body);
    match scraper::Selector::parse("a[href]") {
        Ok(selector) => document
            .select(&selector)
            .filter_map(|el| el.value().attr("href"))
            .map(|h| h.to_string())
            .collect(),
        Err(_) => Vec::new(),
    }
}

/// Relies on url's `Url::join`, on `base` as `Url::parse` reads it: `href` resolved
/// against `base`, serialized; none when either does not parse.
#[verifier::external_body]
fn join_url(base: &str, href: &str) -> (r: Option<String>)
    ensures
        r matches Some(u) ==> joined_of(base@, href@) == Some(u@),
        r is None ==> joined_of(base@, href@) is None,
{
    match url::Url::parse(base) {
        Ok(b) => b.join(href).ok().map(|u| u.to_string()),
        Err(_) => None,
    }
}

/// Relies on url's `Url::host_str`, on `url` as `Url::parse` reads it: the host, when
/// the URL parses and has one.
#[verifier::external_body]
pub(crate) fn url_host(url: &str) -> (r: Option<String>)
    ensures
        r matches Some(h) ==> host_of(url@) == Some(h@),
        r is None ==> host_of(url@) is None,
{
    match url::Url::parse(url) {
        Ok(u) => u.host_str().map(|h| h.to_string()),
        Err(_) => None,
    }
}

/// Relies on url's `Url::parse`: the serialization of the URL, when `s` is an absolute URL.
#[verifier::external_body]
pub(crate) fn parse_url(s: &str) -> (r: Option<String>)
    ensures
        r matches Some(u) ==> parsed_of(s@) == Some(u@),
        r is None ==> parsed_of(s@) is None,
{
    url::Url::parse(s).ok().map(|u| u.to_string())
}

/// `s` up to its first `#`: the URL without its fragment.
pub open spec fn without_fragment(s: Seq<char>) -> Seq<char>
    decreases s.len(),
{
    if s.len() == 0 {
        s
    } else if s[0] == '#' {
        Seq::empty()
    } else {
        seq![s[0]] + without_fragment(s.drop_first())
    }
}

/// A link that leads nowhere to crawl: mail, script, phone or a fragment of the same page.
pub open spec fn non_navigable(href: Seq<char>) -> bool {
    starts_with(href, "mailto:"@) || starts_with(href, "javascript:"@) || starts_with(href, "tel:"@)
        || starts_with(href, "#"@)
}

/// `href` as an absolute URL against `base`, unless it is not navigable or does not resolve.
pub open spec fn resolved(href: Seq<char>, base: Seq<char>) -> Option<Seq<char>> {
    if non_navigable(href) {
        None
    } else {
        joined_of(base, href)
    }
}

/// Whether the URL `u` is on `host`.
pub open spec fn on_host(u: Seq<char>, host: Seq<char>) -> bool {
    host_of(u) == Some(host)
}

/// What an anchor with `href` contributes: its same-host absolute URL without fragment.
pub open spec fn link_for(href: Seq<char>, base: Seq<char>, host: Seq<char>) -> Option<Seq<char>> {
    match resolved(href, base) {
        Some(u) => if on_host(u, host) {
            Some(without_fragment(u))
        } else {
            None
        },
        None => None,
    }
}

/// The links that `hrefs` contribute, in order.
pub open spec fn links_from(hrefs: Seq<Seq<char>>, base: Seq<char>, host: Seq<char>) -> Seq<Seq<char>>
    decreases hrefs.len(),
{
    if hrefs.len() == 0 {
        Seq::empty()
    } else {
        let init = links_from(hrefs.drop_last(), base, host);
        match link_for(hrefs.last(), base, host) {
            Some(l) => init.push(l),
            None => init,
        }
    }
}

/// The URL `s` without its fragment.
pub fn strip_fragment(s: &str) -> (r: String)
    ensures
        r@ == without_fragment(s@),
{
    let cs = chars_of(s);
    let mut out: Vec<char> = Vec::new();
    let mut i: usize = 0;
    assert(cs@.subrange(0, cs@.len() as int) =~= cs@);
    assert(out@ + cs@ =~= cs@);
    while i < cs.len()
        invariant
            cs@ == s@,
            i <= cs@.len(),
            out@ == cs@.subrange(0, i as int),
            without_fragment(cs@) == out@ + without_fragment(cs@.subrange(i as int, cs@.len() as int)),
        decreases cs.len() - i,
    {
        let ghost rest = cs@.subrange(i as int, cs@.len() as int);
        assert(rest[0] == cs@[i as int]);
        if cs[i] == '#' {
            assert(without_fragment(rest) == Seq::<char>::empty());
            assert(out@ + Seq::<char>::empty() =~= out@);
            return string_from_chars(&out);
        }
        assert(rest.drop_first() =~= cs@.subrange(i as int + 1, cs@.len() as int));
        out.push(cs[i]);
        assert(out@ =~= cs@.subrange(0, i as int + 1));
        assert(out@ + without_fragment(rest.drop_first()) =~= cs@.subrange(0, i as int) + (seq![cs@[i as int]] + without_fragment(rest.drop_first())));
        i = i + 1;
    }
    assert(cs@.subrange(cs@.len() as int, cs@.len() as int) =~= Seq::<char>::empty());
    assert(out@ + Seq::<char>::empty() =~= out@);
    string_from_chars(&out)
}

/// `href` as an absolute URL against `base`; none for `mailto:`, `javascript:`, `tel:`
/// and bare `#` links, and for what does not resolve.
pub fn resolve_url(href: &str, base: &str) -> (r: Option<String>)
    ensures
        r matches Some(u) ==> resolved(href@, base@) == Some(u@),
        r is None ==> resolved(href@, base@) is None,
{
    let h = chars_of(href);
    if has_prefix(&h, "mailto:") || has_prefix(&h, "javascript:") || has_prefix(&h, "tel:")
        || has_prefix(&h, "#") {
        return None;
    }
    join_url(base, href)
}

/// Whether the URL `url` is on `allowed_host`.
pub fn is_same_domain(url: &str, allowed_host: &str) -> (r: bool)
    ensures
        r == on_host(url@, allowed_host@),
{
    match url_host(url) {
        Some(h) => {
            let hc = chars_of(h.as_str());
            let ac = chars_of(allowed_host);
            same_chars(&hc, &ac)
        },
        None => false,
    }
}

/// The links that the anchors `hrefs` of a page at `base` contribute on `allowed_host`.
pub fn links_from_hrefs(hrefs: &Vec<String>, base: &str, allowed_host: &str) -> (r: Vec<String>)
    ensures
        texts(r@) == links_from(texts(hrefs@), base@, allowed_host@),
{
    let mut out: Vec<String> = Vec::new();
    let mut i: usize = 0;
    while i < hrefs.len()
        invariant
            i <= hrefs@.len(),
            texts(out@) == links_from(texts(hrefs@).subrange(0, i as int), base@, allowed_host@),
        decreases hrefs.len() - i,
    {
        let ghost pre = texts(hrefs@).subrange(0, i as int + 1);
        assert(pre.drop_last() =~= texts(hrefs@).subrange(0, i as int));
        assert(pre.last() == hrefs@[i as int]@);
        match resolve_url(hrefs[i].as_str(), base) {
            Some(u) => {
                if is_same_domain(u.as_str(), allowed_host) {
                    let l = strip_fragment(u.as_str());
                    let ghost before = texts(out@);
                    out.push(l);
                    assert(texts(out@) =~= before.push(l@));
                }
            },
            None => {},
        }
        i = i + 1;
    }
    assert(texts(hrefs@).subrange(0, hrefs@.len() as int) =~= texts(hrefs@));
    out
}

/// The same-host links of an HTML page at `base`: each anchor's target resolved against
/// `base`, without fragment, kept when on `allowed_host`, in document order.
pub fn extract_links(body: &str, base: &str, allowed_host: &str) -> (r: Vec<String>)
    ensures
        texts(r@) == links_from(anchor_hrefs_of(body@), base@, allowed_host@),
{
    let hrefs = anchor_hrefs(body);
    links_from_hrefs(&hrefs, base, allowed_host)
}

} // verus!
