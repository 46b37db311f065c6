use vstd::prelude::*;

use crate::checker::UrlStatus;
use crate::text::{chars_of, decimal, push_decimal, push_str, string_from_chars};

verus! {

/// The first line of the delimited report.
pub open spec fn csv_header_line() -> Seq<char> {
    "No,URL,Status,Status Text,Redirect URL\n"@
}

/// `s` with each `"` doubled, as a quoted field holds it.
pub open spec fn quote_escaped(s: Seq<char>) -> Seq<char>
    decreases s.len(),
{
    if s.len() == 0 {
        Seq::empty()
    } else if s[0] == '"' {
        seq!['"', '"'] + quote_escaped(s.drop_first())
    } else {
        seq![s[0]] + quote_escaped(s.drop_first())
    }
}

/// The body of a quoted field read back: each doubled `"` taken as one.
pub open spec fn quote_unescaped(s: Seq<char>) -> Seq<char>
    decreases s.len(),
{
    if s.len() == 0 {
        Seq::empty()
    } else if s.len() >= 2 && s[0] == '"' && s[1] == '"' {
        seq!['"'] + quote_unescaped(s.subrange(2, s.len() as int))
    } else {
        seq![s[0]] + quote_unescaped(s.drop_first())
    }
}

/// The five cells of one report row, as the spreadsheet and the delimited stream show it.
pub struct ReportRow {
    /// The row's sequence number, from 1.
    pub number: u32,
    /// The URL probed.
    pub url: String,
    /// The status code, or `ERR` when no response came back.
    pub status: String,
    /// The status text.
    pub status_text: String,
    /// The redirect target, empty when there is none.
    pub redirect_url: String,
}

/// The status cell of a record: its code in decimal, or `ERR`.
pub open spec fn status_cell(s: UrlStatus) -> Seq<char> {
    match s.status_code {
        Some(c) => decimal(c as nat),
        None => "ERR"@,
    }
}

/// The redirect cell of a record: its target, or empty.
pub open spec fn redirect_cell(s: UrlStatus) -> Seq<char> {
    match s.redirect_url {
        Some(t) => t@,
        None => Seq::empty(),
    }
}

/// The line of the delimited report for `row`: the number, then the URL, status text and
/// redirect target quoted, the status bare.
pub open spec fn csv_line(row: ReportRow) -> Seq<char> {
    decimal(row.number as nat) + ",\""@ + quote_escaped(row.url@) + "\","@ + row.status@ + ",\""@
        + quote_escaped(row.status_text@) + "\",\""@ + quote_escaped(row.redirect_url@) + "\"\n"@
}

/// The header line of the delimited report.
pub fn csv_header() -> (r: String)
    ensures
        r@ == csv_header_line(),
{
    let mut out: Vec<char> = Vec::new();
    push_str(&mut out, "No,URL,Status,Status Text,Redirect URL\n");
    string_from_chars(&out)
}

/// The quoted form of one character.
pub open spec fn quote_char(c: char) -> Seq<char> {
    if c == '"' {
        seq!['"', '"']
    } else {
        seq![c]
    }
}

proof fn lemma_quote_escaped_push(a: Seq<char>, c: char)
    ensures
        quote_escaped(a.push(c)) == quote_escaped(a) + quote_char(c),
    decreases a.len(),
{
    if a.len() == 0 {
        assert(a.push(c).drop_first() =~= Seq::<char>::empty());
        assert(a.push(c)[0] == c);
        assert(quote_escaped(a.push(c).drop_first()) == Seq::<char>::empty());
        assert(quote_escaped(a.push(c)) =~= quote_char(c));
        assert(quote_escaped(a) + quote_char(c) =~= quote_char(c));
    } else {
        assert(a.push(c).drop_first() =~= a.drop_first().push(c));
        lemma_quote_escaped_push(a.drop_first(), c);
        assert(a.push(c)[0] == a[0]);
        if a[0] == '"' {
            assert(quote_escaped(a.push(c)) =~= seq!['"', '"'] + (quote_escaped(a.drop_first()) + quote_char(c)));
        } else {
            assert(quote_escaped(a.push(c)) =~= seq![a[0]] + (quote_escaped(a.drop_first()) + quote_char(c)));
        }
    }
}

fn push_quoted_body(out: &mut Vec<char>, s: &str)
    ensures
        final(out)@ == old(out)@ + quote_escaped(s@),
{
    let cs = chars_of(s);
    let ghost start = out@;
    let mut i: usize = 0;
    assert(cs@.subrange(0, 0) =~= Seq::<char>::empty());
    assert(start + Seq::<char>::empty() =~= start);
    while i < cs.len()
        invariant
            cs@ == s@,
            i <= cs@.len(),
            out@ == start + quote_escaped(cs@.subrange(0, i as int)),
        decreases cs.len() - i,
    {
        let ghost prev = out@;
        proof {
            assert(cs@.subrange(0, i as int + 1) =~= cs@.subrange(0, i as int).push(cs@[i as int]));
            lemma_quote_escaped_push(cs@.subrange(0, i as int), cs@[i as int]);
        }
        if cs[i] == '"' {
            out.push('"');
            out.push('"');
        } else {
            out.push(cs[i]);
        }
        assert(out@ =~= prev + quote_char(cs@[i as int]));
        i = i + 1;
    }
    assert(cs@.subrange(0, cs@.len() as int) =~= cs@);
}

/// Reading a quoted cell back gives the text that was written: doubling each `"` is undone
/// by taking each doubled `"` as one.
pub proof fn lemma_quote_read_back(s: Seq<char>)
    ensures
        quote_unescaped(quote_escaped(s)) == s,
    decreases s.len(),
{
    if s.len() > 0 {
        lemma_quote_read_back(s.drop_first());
        let q = quote_escaped(s);
        if s[0] == '"' {
            assert(q.subrange(2, q.len() as int) =~= quote_escaped(s.drop_first()));
        } else {
            assert(q.drop_first() =~= quote_escaped(s.drop_first()));
        }
        assert(quote_unescaped(q) =~= s);
    }
}

/// The three quoted cells of a row's delimited line read back as the row's own text.
pub proof fn lemma_csv_line_cells(row: ReportRow)
    ensures
        quote_unescaped(quote_escaped(row.url@)) == row.url@,
        quote_unescaped(quote_escaped(row.status_text@)) == row.status_text@,
        quote_unescaped(quote_escaped(row.redirect_url@)) == row.redirect_url@,
{
    lemma_quote_read_back(row.url@);
    lemma_quote_read_back(row.status_text@);
    lemma_quote_read_back(row.redirect_url@);
}

/// The four cells of a report row after its number: URL, status, status text, redirect.
pub open spec fn row_cells(row: ReportRow) -> Seq<Seq<char>> {
    seq![row.url@, row.status@, row.status_text@, row.redirect_url@]
}

/// The four cells that a record fills after the row number.
pub open spec fn record_cells(s: UrlStatus) -> Seq<Seq<char>> {
    seq![s.url@, status_cell(s), s.status_text@, redirect_cell(s)]
}

proof fn lemma_map_same_multiset(a: Seq<UrlStatus>, b: Seq<UrlStatus>)
    requires
        a.to_multiset() == b.to_multiset(),
    ensures
        a.map_values(|s: UrlStatus| record_cells(s)).to_multiset()
            == b.map_values(|s: UrlStatus| record_cells(s)).to_multiset(),
    decreases a.len(),
{
    broadcast use vstd::seq_lib::group_to_multiset_ensures;
    broadcast use vstd::multiset::group_multiset_axioms;
    let f = |s: UrlStatus| record_cells(s);
    vstd::seq_lib::to_multiset_len(a);
    vstd::seq_lib::to_multiset_len(b);
    if a.len() == 0 {
        assert(b.len() == 0);
        assert(a.map_values(f) =~= Seq::<Seq<Seq<char>>>::empty());
        assert(b.map_values(f) =~= Seq::<Seq<Seq<char>>>::empty());
    } else {
        let x = a.last();
        let a2 = a.drop_last();
        assert(a =~= a2.push(x));
        assert(a.to_multiset() == a2.to_multiset().insert(x));
        assert(b.to_multiset().count(x) > 0);
        assert(b.contains(x));
        let j = choose|j: int| 0 <= j < b.len() && b[j] == x;
        let b2 = b.remove(j);
        assert(b2.to_multiset() == b.to_multiset().remove(x));
        assert(a2.to_multiset() =~= b2.to_multiset());
        lemma_map_same_multiset(a2, b2);
        let am = a.map_values(f);
        let bm = b.map_values(f);
        assert(am =~= a2.map_values(f).push(f(x)));
        assert(bm.remove(j) =~= b2.map_values(f));
        assert(bm[j] == f(x));
        assert(bm.remove(j).to_multiset() == bm.to_multiset().remove(f(x)));
        assert(bm.to_multiset().count(f(x)) > 0) by {
            assert(bm.contains(f(x)));
        }
        assert(am.to_multiset() =~= bm.to_multiset());
    }
}

/// The delimited stream and the batch export hold the same rows: when the stream wrote
/// the records in any order (`streamed`, a reordering of `results`), its rows' cells after
/// the number, taken as a multiset, are those of the batch rows of `results`. With
/// `lemma_csv_line_cells`, reading the stream back and sorting gives the batch content.
pub proof fn lemma_stream_matches_batch(results: Seq<UrlStatus>, streamed: Seq<UrlStatus>, rows: Seq<ReportRow>)
    requires
        streamed.to_multiset() == results.to_multiset(),
        rows.len() == results.len(),
        forall|i: int| 0 <= i < rows.len() ==> row_cells(#[trigger] rows[i]) == record_cells(results[i]),
    ensures
        streamed.map_values(|s: UrlStatus| record_cells(s)).to_multiset()
            == rows.map_values(|r: ReportRow| row_cells(r)).to_multiset(),
{
    lemma_map_same_multiset(streamed, results);
    assert(rows.map_values(|r: ReportRow| row_cells(r)) =~= results.map_values(|s: UrlStatus| record_cells(s)));
}

/// The report row of `status` under sequence number `number`.
pub fn report_row(number: u32, status: &UrlStatus) -> (r: ReportRow)
    ensures
        r.number == number,
        r.url@ == status.url@,
        r.status@ == status_cell(*status),
        r.status_text@ == status.status_text@,
        r.redirect_url@ == redirect_cell(*status),
{
    let mut code: Vec<char> = Vec::new();
    match status.status_code {
        Some(c) => push_decimal(&mut code, c as u64),
        None => push_str(&mut code, "ERR"),
    }
    assert(code@ =~= status_cell(*status));
    let mut redirect: Vec<char> = Vec::new();
    match &status.redirect_url {
        Some(t) => push_str(&mut redirect, t.as_str()),
        None => {},
    }
    assert(redirect@ =~= redirect_cell(*status));
    ReportRow {
        number,
        url: status.url.clone(),
        status: string_from_chars(&code),
        status_text: status.status_text.clone(),
        redirect_url: string_from_chars(&redirect),
    }
}

/// The report rows of `results`, numbered from 1 in order.
pub fn report_rows(results: &Vec<UrlStatus>) -> (r: Vec<ReportRow>)
    requires
        results@.len() < u32::MAX,
    ensures
        r@.len() == results@.len(),
        forall|i: int| 0 <= i < r@.len() ==> {
            &&& (#[trigger] r@[i]).number == i + 1
            &&& r@[i].url@ == results@[i].url@
            &&& r@[i].status@ == status_cell(results@[i])
            &&& r@[i].status_text@ == results@[i].status_text@
            &&& r@[i].redirect_url@ == redirect_cell(results@[i])
            &&& row_cells(r@[i]) == record_cells(results@[i])
        },
{
    let mut rows: Vec<ReportRow> = Vec::new();
    let mut i: usize = 0;
    while i < results.len()
        invariant
            results@.len() < u32::MAX,
            i <= results@.len(),
            rows@.len() == i,
            forall|j: int| 0 <= j < i ==> {
                &&& (#[trigger] rows@[j]).number == j + 1
                &&& rows@[j].url@ == results@[j].url@
                &&& rows@[j].status@ == status_cell(results@[j])
                &&& rows@[j].status_text@ == results@[j].status_text@
                &&& rows@[j].redirect_url@ == redirect_cell(results@[j])
            },
        decreases results.len() - i,
    {
        let row = report_row((i + 1) as u32, &results[i]);
        rows.push(row);
        i = i + 1;
    }
    rows
}

/// The line of the delimited report for `row`.
pub fn csv_row(row: &ReportRow) -> (r: String)
    ensures
        r@ == csv_line(*row),
{
    let mut out: Vec<char> = Vec::new();
    push_decimal(&mut out, row.number as u64);
    push_str(&mut out, ",\"");
    push_quoted_body(&mut out, row.url.as_str());
    push_str(&mut out, "\",");
    push_str(&mut out, row.status.as_str());
    push_str(&mut out, ",\"");
    push_quoted_body(&mut out, row.status_text.as_str());
    push_str(&mut out, "\",\"");
    push_quoted_body(&mut out, row.redirect_url.as_str());
    push_str(&mut out, "\"\n");
    assert(out@ =~= csv_line(*row));
    string_from_chars(&out)
}

/// The numbering of the delimited report as rows are appended one at a time.
pub struct CsvLog {
    row_count: u32,
}

impl CsvLog {
    /// How many rows were appended.
    pub closed spec fn count(&self) -> nat {
        self.row_count as nat
    }

    /// A report with no rows yet.
    pub fn new() -> (r: CsvLog)
        ensures
            r.count() == 0,
    {
        CsvLog { row_count: 0 }
    }

    /// Numbers `status` as the next row and returns its line.
    pub fn append_row(&mut self, status: &UrlStatus) -> (r: String)
        requires
            old(self).count() < u32::MAX,
        ensures
            final(self).count() == old(self).count() + 1,
            exists|row: ReportRow|
                {
                    &&& row.number == final(self).count()
                    &&& row.url@ == status.url@
                    &&& row.status@ == status_cell(*status)
                    &&& row.status_text@ == status.status_text@
                    &&& row.redirect_url@ == redirect_cell(*status)
                    &&& row_cells(row) == record_cells(*status)
                    &&& r@ == #[trigger] csv_line(row)
                },
    {
        self.row_count = self.row_count + 1;
        let row = report_row(self.row_count, status);
        csv_row(&row)
    }

    /// How many rows were appended.
    pub fn row_count(&self) -> (r: u32)
        ensures
            r == self.count(),
    {
        self.row_count
    }
}

} // verus!
