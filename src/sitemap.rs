use vstd::prelude::*;

use crate::text::{chars_of, push_str, string_from_chars};
use crate::urls::texts;

verus! {

/// The XML escape of one character.
pub open spec fn escape_char(c: char) -> Seq<char> {
    if c == '&' {
        "&amp;"@
    } else if c == '<' {
        "&lt;"@
    } else if c == '>' {
        "&gt;"@
    } else if c == '"' {
        "&quot;"@
    } else if c == '\'' {
        "&apos;"@
    } else {
        seq![c]
    }
}

/// `s` with each of `& < > " '` replaced by its XML entity.
pub open spec fn escaped(s: Seq<char>) -> Seq<char>
    decreases s.len(),
{
    if s.len() == 0 {
        Seq::empty()
    } else {
        escaped(s.drop_last()) + escape_char(s.last())
    }
}

/// The opening of a sitemap document.
pub open spec fn sitemap_head() -> Seq<char> {
    "<?xml version=\"1.0\" encoding=\"UTF-8\"?>\n<urlset xmlns=\"http://www.sitemaps.org/schemas/sitemap/0.9\">\n"@
}

/// The entry of one URL in a sitemap document.
pub open spec fn url_entry(u: Seq<char>) -> Seq<char> {
    "  <url>\n    <loc>"@ + escaped(u) + "</loc>\n  </url>\n"@
}

/// The entries of `urls`, in order.
pub open spec fn url_entries(urls: Seq<Seq<char>>) -> Seq<char>
    decreases urls.len(),
{
    if urls.len() == 0 {
        Seq::empty()
    } else {
        url_entries(urls.drop_last()) + url_entry(urls.last())
    }
}

/// A sitemap document listing `urls` in order.
pub open spec fn sitemap_document(urls: Seq<Seq<char>>) -> Seq<char> {
    sitemap_head() + url_entries(urls) + "</urlset>\n"@
}

fn push_escaped(out: &mut Vec<char>, s: &str)
    ensures
        final(out)@ == old(out)@ + escaped(s@),
{
    let cs = chars_of(s);
    let ghost start = out@;
    let mut i: usize = 0;
    while i < cs.len()
        invariant
            cs@ == s@,
            i <= cs@.len(),
            out@ == start + escaped(cs@.subrange(0, i as int)),
        decreases cs.len() - i,
    {
        let c = cs[i];
        let ghost before = out@;
        if c == '&' {
            push_str(out, "&amp;");
        } else if c == '<' {
            push_str(out, "&lt;");
        } else if c == '>' {
            push_str(out, "&gt;");
        } else if c == '"' {
            push_str(out, "&quot;");
        } else if c == '\'' {
            push_str(out, "&apos;");
        } else {
            out.push(c);
            assert(out@ =~= before + seq![c]);
        }
        let ghost pre = cs@.subrange(0, i as int + 1);
        assert(pre.drop_last() =~= cs@.subrange(0, i as int));
        assert(out@ =~= start + escaped(pre));
        i = i + 1;
    }
    assert(cs@.subrange(0, cs@.len() as int) =~= cs@);
}

/// `s` with each of `& < > " '` replaced by its XML entity.
pub fn escape_xml(s: &str) -> (r: String)
    ensures
        r@ == escaped(s@),
{
    let mut out: Vec<char> = Vec::new();
    push_escaped(&mut out, s);
    assert(out@ =~= escaped(s@));
    string_from_chars(&out)
}

/// A sitemap document that lists `urls`, in order, each escaped for XML.
pub fn generate_sitemap_xml(urls: &[String]) -> (r: String)
    ensures
        r@ == sitemap_document(texts(urls@)),
{
    let mut out: Vec<char> = Vec::new();
    push_str(&mut out, "<?xml version=\"1.0\" encoding=\"UTF-8\"?>\n<urlset xmlns=\"http://www.sitemaps.org/schemas/sitemap/0.9\">\n");
    let mut i: usize = 0;
    while i < urls.len()
        invariant
            i <= urls@.len(),
            out@ == sitemap_head() + url_entries(texts(urls@).subrange(0, i as int)),
        decreases urls.len() - i,
    {
        let ghost before = out@;
        push_str(&mut out, "  <url>\n    <loc>");
        push_escaped(&mut out, urls[i].as_str());
        push_str(&mut out, "</loc>\n  </url>\n");
        let ghost pre = texts(urls@).subrange(0, i as int + 1);
        assert(pre.drop_last() =~= texts(urls@).subrange(0, i as int));
        assert(pre.last() == urls@[i as int]@);
        assert(out@ =~= before + url_entry(urls@[i as int]@));
        assert(out@ =~= sitemap_head() + url_entries(pre));
        i = i + 1;
    }
    push_str(&mut out, "</urlset>\n");
    assert(texts(urls@).subrange(0, urls@.len() as int) =~= texts(urls@));
    assert(out@ =~= sitemap_document(texts(urls@)));
    string_from_chars(&out)
}

} // verus!
