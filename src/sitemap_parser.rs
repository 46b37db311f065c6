use quick_xml::events::Event;
use std::io::Read;
use vstd::prelude::*;
use vstd::string::*;

use crate::config::sitemap_target;
use crate::extractor::{parse_url, parsed_of};
use crate::text::{chars_of, ends_with, has_suffix, push_str, same_chars, string_from_chars};
use crate::urls::{sorted_unique, sorted_unique_urls, texts};

verus! {

/// One event of an XML reader, with names and text as strings.
pub enum XmlEvent {
    /// An opening tag, by name.
    Start(String),
    /// A closing tag, by name.
    End(String),
    /// Character data, with line ends normalized.
    Text(String),
    /// An entity or character reference, by its content without `&` and `;`.
    Ref(String),
    /// The reader stopped on malformed input.
    Error,
    /// Anything else.
    Other,
}

/// The value of an [`XmlEvent`].
pub enum XmlPiece {
    /// An opening tag, by name.
    Start(Seq<char>),
    /// A closing tag, by name.
    End(Seq<char>),
    /// Character data.
    Text(Seq<char>),
    /// An entity or character reference, by its content.
    Ref(Seq<char>),
    /// The reader stopped on malformed input.
    Error,
    /// Anything else.
    Other,
}

impl XmlEvent {
    /// The event's value, with its strings as character sequences.
    pub open spec fn view(&self) -> XmlPiece {
        match self {
            XmlEvent::Start(n) => XmlPiece::Start(n@),
            XmlEvent::End(n) => XmlPiece::End(n@),
            XmlEvent::Text(t) => XmlPiece::Text(t@),
            XmlEvent::Ref(r) => XmlPiece::Ref(r@),
            XmlEvent::Error => XmlPiece::Error,
            XmlEvent::Other => XmlPiece::Other,
        }
    }
}

/// The values of a list of events.
pub open spec fn pieces(v: Seq<XmlEvent>) -> Seq<XmlPiece> {
    v.map_values(|e: XmlEvent| e@)
}

/// The events that an XML reader produces on `xml`, up to its end, or up to its first
/// error followed by `Error`.
pub uninterp spec fn xml_events_of(xml: Seq<char>) -> Seq<XmlPiece>;

/// The text of the predefined XML entity `name`, when it is one.
pub uninterp spec fn entity_text_of(name: Seq<char>) -> Option<Seq<char>>;

/// The character of the character reference `content` (`#38`, `#x26`), when it is a valid one.
pub uninterp spec fn char_ref_of(content: Seq<char>) -> Option<char>;

/// `s` without leading and trailing white space.
pub uninterp spec fn trimmed_of(s: Seq<char>) -> Seq<char>;

/// The text of a gzip stream, when it decompresses to UTF-8.
pub uninterp spec fn gunzip_text_of(data: Seq<u8>) -> Option<Seq<char>>;

/// Relies on quick-xml's `Reader::read_event` on a reader over `xml`: the events up to
/// `Eof`, or up to the first error and then `Error`, tag names as text, text through `xml10_content`.
#[verifier::external_body]
fn xml_events(xml: &str) -> (r: Vec<XmlEvent>)
    ensures
        pieces(r@) == xml_events_of(xml@),
{
    let mut reader = quick_xml::Reader::from_str(xml);
    let mut out = Vec::new();
    loop {
        out.push(match reader.read_event() {
            Ok(Event::Start(e)) => XmlEvent::Start(e.name().as_ref().to_string()),
            Ok(Event::End(e)) => XmlEvent::End(e.name().as_ref().to_string()),
            Ok(Event::Text(e)) => XmlEvent::Text(e.xml10_content().into_owned()),
            Ok(Event::GeneralRef(e)) => XmlEvent::Ref(e.xml10_content().into_owned()),
            Ok(Event::Eof) => return out,
            Err(_) => break,
            Ok(_) => XmlEvent::Other,
        });
    }
    out.push(XmlEvent::Error);
    out
}

/// Relies on quick-xml's `escape::resolve_predefined_entity`: the text of `amp`, `lt`,
/// `gt`, `quot` or `apos`.
#[verifier::external_body]
fn predefined_entity(name: &str) -> (r: Option<String>)
    ensures
        r matches Some(t) ==> entity_text_of(name@) == Some(t@),
        r is None ==> entity_text_of(name@) is None,
{
    quick_xml::escape::resolve_predefined_entity(name).map(|t| t.to_string())
}

/// Relies on quick-xml's `BytesRef::resolve_char_ref`: the character a `#...` reference names.
#[verifier::external_body]
fn char_reference(content: &str) -> (r: Option<char>)
    ensures
        r == char_ref_of(content@),
{
    quick_xml::events::BytesRef::new(content).resolve_char_ref().ok().flatten()
}

/// Relies on `str::trim`: `s` without leading and trailing white space.
#[verifier::external_body]
fn trim_text(s: &str) -> (r: String)
    ensures
        r@ == trimmed_of(s@),
{
    s.trim().to_string()
}

/// Relies on flate2's `GzDecoder` read to a string: the decompressed text; none when the
/// data is no gzip stream or not UTF-8.
#[verifier::external_body]
fn decompress_gz(data: &[u8]) -> (r: Option<String>)
    ensures
        r matches Some(t) ==> gunzip_text_of(data@) == Some(t@),
        r is None ==> gunzip_text_of(data@) is None,
{
    let mut decoder = flate2::read::GzDecoder::new(data);
    let mut text = String::new();
    match decoder.read_to_string(&mut text) {
        Ok(_) => Some(text),
        Err(_) => None,
    }
}

/// The text of `data` read as UTF-8, each invalid sequence replaced by U+FFFD.
pub uninterp spec fn lossy_text_of(data: Seq<u8>) -> Seq<char>;

/// Relies on `String::from_utf8_lossy`: the text that the bytes encode, invalid sequences
/// replaced; it never fails.
#[verifier::external_body]
fn lossy_text(data: &[u8]) -> (r: String)
    ensures
        r@ == lossy_text_of(data@),
{
    String::from_utf8_lossy(data).into_owned()
}

/// The document text of a sitemap fetched from `url`: decompressed when the URL ends in
/// `.gz` (none when that fails), else read as UTF-8 with invalid bytes replaced.
pub fn sitemap_body_text(url: &str, body: &[u8]) -> (r: Option<String>)
    ensures
        ends_with(url@, ".gz"@) ==> (r matches Some(t) ==> gunzip_text_of(body@) == Some(t@)) && (
        r is None <==> gunzip_text_of(body@) is None),
        !ends_with(url@, ".gz"@) ==> (r matches Some(t) && t@ == lossy_text_of(body@)),
{
    if is_gzip_url(url) {
        decompress_gz(body)
    } else {
        Some(lossy_text(body))
    }
}

/// The text a reference stands for: a predefined entity, else a character reference,
/// else nothing.
pub open spec fn ref_text(content: Seq<char>) -> Seq<char> {
    match entity_text_of(content) {
        Some(t) => t,
        None => match char_ref_of(content) {
            Some(c) => seq![c],
            None => Seq::empty(),
        },
    }
}

/// Where the scan of a sitemap stands: inside a `loc` or not, the text gathered in the
/// current `loc`, and the locations found so far.
pub struct LocScan {
    /// Whether the scan is inside a `loc` element.
    pub inside: bool,
    /// The text gathered in the current `loc`.
    pub text: Seq<char>,
    /// The locations accepted so far, in document order.
    pub found: Seq<Seq<char>>,
}

/// The trimmed text of a `loc` counts when it is not empty and parses as an absolute URL.
pub open spec fn accepted_loc(t: Seq<char>) -> bool {
    t.len() > 0 && parsed_of(t) is Some
}

/// The scan after one more event.
pub open spec fn scan_step(s: LocScan, e: XmlPiece) -> LocScan {
    match e {
        XmlPiece::Start(n) => if n == "loc"@ {
            LocScan { inside: true, text: Seq::empty(), found: s.found }
        } else {
            s
        },
        XmlPiece::End(n) => if n == "loc"@ {
            let t = trimmed_of(s.text);
            LocScan {
                inside: false,
                text: Seq::empty(),
                found: if s.inside && accepted_loc(t) { s.found.push(t) } else { s.found },
            }
        } else {
            s
        },
        XmlPiece::Text(t) => if s.inside {
            LocScan { inside: true, text: s.text + t, found: s.found }
        } else {
            s
        },
        XmlPiece::Ref(r) => if s.inside {
            LocScan { inside: true, text: s.text + ref_text(r), found: s.found }
        } else {
            s
        },
        XmlPiece::Error => LocScan { inside: false, text: Seq::empty(), found: Seq::empty() },
        XmlPiece::Other => s,
    }
}

/// The scan after all of `events`, from outside any `loc`.
pub open spec fn scan(events: Seq<XmlPiece>) -> LocScan
    decreases events.len(),
{
    if events.len() == 0 {
        LocScan { inside: false, text: Seq::empty(), found: Seq::empty() }
    } else {
        scan_step(scan(events.drop_last()), events.last())
    }
}

/// The locations a scan ends with: those found, then the text of a `loc` left open at the
/// end of input, when it is accepted. After an error nothing is found.
pub open spec fn scan_result(events: Seq<XmlPiece>) -> Seq<Seq<char>> {
    let s = scan(events);
    if s.inside && accepted_loc(trimmed_of(s.text)) {
        s.found.push(trimmed_of(s.text))
    } else {
        s.found
    }
}

/// Appends the trimmed `text` of a `loc` to `found` when it is accepted.
fn take_loc(found: &mut Vec<String>, text: &Vec<char>)
    ensures
        texts(final(found)@) == if accepted_loc(trimmed_of(text@)) {
            texts(old(found)@).push(trimmed_of(text@))
        } else {
            texts(old(found)@)
        },
{
    let t = trim_text(string_from_chars(text).as_str());
    let ghost before = texts(found@);
    if t.as_str().unicode_len() > 0 && parse_url(t.as_str()).is_some() {
        found.push(t);
        assert(texts(found@) =~= before.push(t@));
    }
}

/// The text of each `loc` element of a document's events that holds an absolute URL,
/// trimmed, in document order; none when the reader stopped on an error.
pub fn locs_from_events(events: &Vec<XmlEvent>) -> (r: Vec<String>)
    ensures
        texts(r@) == scan_result(pieces(events@)),
{
    let mut found: Vec<String> = Vec::new();
    let mut inside = false;
    let mut text: Vec<char> = Vec::new();
    let mut i: usize = 0;
    assert(pieces(events@).subrange(0, 0) =~= Seq::<XmlPiece>::empty());
    assert(texts(found@) =~= Seq::<Seq<char>>::empty());
    assert(text@ =~= Seq::<char>::empty());
    while i < events.len()
        invariant
            i <= events@.len(),
            scan(pieces(events@).subrange(0, i as int)) == (LocScan {
                inside,
                text: text@,
                found: texts(found@),
            }),
        decreases events.len() - i,
    {
        let ghost pre = pieces(events@).subrange(0, i as int + 1);
        assert(pre.drop_last() =~= pieces(events@).subrange(0, i as int));
        assert(pre.last() == events@[i as int]@);
        match &events[i] {
            XmlEvent::Start(n) => {
                if same_chars(&chars_of(n.as_str()), &chars_of("loc")) {
                    inside = true;
                    text = Vec::new();
                    assert(text@ =~= Seq::<char>::empty());
                }
            },
            XmlEvent::End(n) => {
                if same_chars(&chars_of(n.as_str()), &chars_of("loc")) {
                    if inside {
                        take_loc(&mut found, &text);
                    }
                    inside = false;
                    text = Vec::new();
                    assert(text@ =~= Seq::<char>::empty());
                }
            },
            XmlEvent::Text(t) => {
                if inside {
                    push_str(&mut text, t.as_str());
                }
            },
            XmlEvent::Ref(r) => {
                if inside {
                    let ghost before = text@;
                    match predefined_entity(r.as_str()) {
                        Some(t) => push_str(&mut text, t.as_str()),
                        None => match char_reference(r.as_str()) {
                            Some(c) => {
                                text.push(c);
                                assert(text@ =~= before + seq![c]);
                            },
                            None => {
                                assert(text@ =~= before + Seq::<char>::empty());
                            },
                        },
                    }
                }
            },
            XmlEvent::Error => {
                found = Vec::new();
                inside = false;
                text = Vec::new();
                assert(texts(found@) =~= Seq::<Seq<char>>::empty());
                assert(text@ =~= Seq::<char>::empty());
            },
            XmlEvent::Other => {},
        }
        i = i + 1;
    }
    assert(pieces(events@).subrange(0, events@.len() as int) =~= pieces(events@));
    if inside {
        take_loc(&mut found, &text);
    }
    found
}

/// The absolute URLs listed in the `loc` elements of a sitemap document, trimmed, in
/// document order; none when the document is malformed.
pub fn extract_locs(xml: &str) -> (r: Vec<String>)
    ensures
        texts(r@) == scan_result(xml_events_of(xml@)),
{
    let events = xml_events(xml);
    locs_from_events(&events)
}

/// A list of locations is a sitemap index when each of them names a sitemap.
pub open spec fn is_index(locs: Seq<Seq<char>>) -> bool {
    forall|i: int| 0 <= i < locs.len() ==> sitemap_target(#[trigger] locs[i])
}

/// Whether the locations of a sitemap name child sitemaps rather than pages.
pub fn is_sitemap_index(locs: &Vec<String>) -> (r: bool)
    ensures
        r == is_index(texts(locs@)),
{
    let mut i: usize = 0;
    while i < locs.len()
        invariant
            i <= locs@.len(),
            forall|j: int| 0 <= j < i ==> sitemap_target(#[trigger] texts(locs@)[j]),
        decreases locs.len() - i,
    {
        let cs = chars_of(locs[i].as_str());
        if !(has_suffix(&cs, ".xml") || has_suffix(&cs, ".xml.gz")) {
            assert(!sitemap_target(texts(locs@)[i as int]));
            return false;
        }
        i = i + 1;
    }
    true
}

/// Whether a sitemap URL names gzip-compressed content.
pub fn is_gzip_url(url: &str) -> (r: bool)
    ensures
        r == ends_with(url@, ".gz"@),
{
    has_suffix(&chars_of(url), ".gz")
}

/// `x` is listed in one of `lists`.
pub open spec fn listed_in(lists: Seq<Vec<String>>, x: Seq<char>) -> bool {
    exists|i: int| 0 <= i < lists.len() && texts(#[trigger] lists[i]@).contains(x)
}

/// The URLs of all `lists` together, each once, in ascending order.
pub fn merge_sitemap_urls(lists: &Vec<Vec<String>>) -> (r: Vec<String>)
    ensures
        sorted_unique(texts(r@)),
        forall|x: Seq<char>| texts(r@).contains(x) <==> listed_in(lists@, x),
{
    let mut all: Vec<String> = Vec::new();
    let mut i: usize = 0;
    while i < lists.len()
        invariant
            i <= lists@.len(),
            forall|x: Seq<char>| texts(all@).contains(x) <==> listed_in(lists@.subrange(0, i as int), x),
        decreases lists.len() - i,
    {
        let ghost before = texts(all@);
        let mut j: usize = 0;
        while j < lists[i].len()
            invariant
                i < lists@.len(),
                j <= lists@[i as int]@.len(),
                texts(all@) == before + texts(lists@[i as int]@).subrange(0, j as int),
            decreases lists[i as int]@.len() - j,
        {
            let ghost prev = texts(all@);
            all.push(lists[i][j].clone());
            assert(texts(all@) =~= prev.push(lists@[i as int]@[j as int]@));
            assert(texts(lists@[i as int]@).subrange(0, j as int + 1) =~= texts(lists@[i as int]@).subrange(0, j as int).push(lists@[i as int]@[j as int]@));
            assert(texts(all@) =~= before + texts(lists@[i as int]@).subrange(0, j as int + 1));
            j = j + 1;
        }
        let ghost cur = texts(lists@[i as int]@);
        assert(cur.subrange(0, cur.len() as int) =~= cur);
        assert forall|x: Seq<char>| texts(all@).contains(x) <==> listed_in(lists@.subrange(0, i as int + 1), x) by {
            let sub = lists@.subrange(0, i as int);
            let sub1 = lists@.subrange(0, i as int + 1);
            if texts(all@).contains(x) {
                let k = choose|k: int| 0 <= k < texts(all@).len() && texts(all@)[k] == x;
                if k < before.len() {
                    assert(before[k] == x);
                    assert(before.contains(x));
                    assert(listed_in(sub, x));
                    let m = choose|m: int| 0 <= m < sub.len() && texts(#[trigger] sub[m]@).contains(x);
                    assert(sub1[m] == sub[m]);
                } else {
                    assert(cur[k - before.len()] == x);
                    assert(sub1[i as int] == lists@[i as int]);
                    assert(texts(sub1[i as int]@).contains(x));
                }
            }
            if listed_in(sub1, x) {
                let m = choose|m: int| 0 <= m < sub1.len() && texts(#[trigger] sub1[m]@).contains(x);
                if m < i {
                    assert(sub[m] == sub1[m]);
                    assert(listed_in(sub, x));
                    assert(before.contains(x));
                    let k = choose|k: int| 0 <= k < before.len() && before[k] == x;
                    assert(texts(all@)[k] == x);
                } else {
                    assert(sub1[m] == lists@[i as int]);
                    let k = choose|k: int| 0 <= k < cur.len() && cur[k] == x;
                    assert(texts(all@)[before.len() + k] == x);
                }
            }
        }
        i = i + 1;
    }
    assert(lists@.subrange(0, lists@.len() as int) =~= lists@);
    sorted_unique_urls(&all)
}


/// The locations of the sitemap document `xml`.
pub open spec fn locs_of(xml: Seq<char>) -> Seq<Seq<char>> {
    scan_result(xml_events_of(xml))
}

/// `x` is listed in one of the sitemap documents `docs`.
pub open spec fn listed_in_docs(docs: Seq<String>, x: Seq<char>) -> bool {
    exists|i: int| 0 <= i < docs.len() && locs_of(#[trigger] docs[i]@).contains(x)
}

/// The URLs a sitemap yields. When every location of the root document `root_xml` names a
/// sitemap, it is an index and the URLs are those of `children`, the child documents that
/// could be fetched; otherwise they are the root's own locations. Each once, ascending.
pub fn sitemap_urls(root_xml: &str, children: &Vec<String>) -> (r: Vec<String>)
    ensures
        sorted_unique(texts(r@)),
        is_index(locs_of(root_xml@)) ==> forall|x: Seq<char>|
            texts(r@).contains(x) <==> listed_in_docs(children@, x),
        !is_index(locs_of(root_xml@)) ==> forall|x: Seq<char>|
            texts(r@).contains(x) <==> locs_of(root_xml@).contains(x),
{
    let locs = extract_locs(root_xml);
    if !is_sitemap_index(&locs) {
        return sorted_unique_urls(&locs);
    }
    let mut lists: Vec<Vec<String>> = Vec::new();
    let mut i: usize = 0;
    while i < children.len()
        invariant
            i <= children@.len(),
            lists@.len() == i,
            forall|j: int| 0 <= j < i ==> texts(#[trigger] lists@[j]@) == locs_of(children@[j]@),
        decreases children.len() - i,
    {
        lists.push(extract_locs(children[i].as_str()));
        i = i + 1;
    }
    let r = merge_sitemap_urls(&lists);
    assert forall|x: Seq<char>| listed_in(lists@, x) <==> listed_in_docs(children@, x) by {
        if listed_in(lists@, x) {
            let j = choose|j: int| 0 <= j < lists@.len() && texts(#[trigger] lists@[j]@).contains(x);
            assert(locs_of(children@[j]@).contains(x));
        }
        if listed_in_docs(children@, x) {
            let j = choose|j: int| 0 <= j < children@.len() && locs_of(#[trigger] children@[j]@).contains(x);
            assert(texts(lists@[j]@).contains(x));
        }
    }
    r
}

} // verus!
