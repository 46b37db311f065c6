use sitemap_crawl::checker::{status_from_failure, status_from_response, TransportFailure};
use sitemap_crawl::export::{csv_header, csv_row, report_row, report_rows, CsvLog};

fn s(x: &str) -> String {
    x.to_string()
}

/// Reads one line of the delimited report back into its five cells.
fn read_line(line: &str) -> Vec<String> {
    let mut cells = Vec::new();
    let mut cur = String::new();
    let mut quoted = false;
    let mut chars = line.trim_end_matches('\n').chars().peekable();
    while let Some(c) = chars.next() {
        if quoted {
            if c == '"' {
                if chars.peek() == Some(&'"') {
                    chars.next();
                    cur.push('"');
                } else {
                    quoted = false;
                }
            } else {
                cur.push(c);
            }
        } else if c == '"' {
            quoted = true;
        } else if c == ',' {
            cells.push(std::mem::take(&mut cur));
        } else {
            cur.push(c);
        }
    }
    cells.push(cur);
    cells
}

#[test]
fn header_line() {
    assert_eq!(csv_header(), "No,URL,Status,Status Text,Redirect URL\n");
}

#[test]
fn row_exact() {
    let st = status_from_response(s("http://h/a\"b"), 301, Some(s("http://h/c")));
    let row = report_row(7, &st);
    assert_eq!(row.status, "301");
    assert_eq!(csv_row(&row), "7,\"http://h/a\"\"b\",301,\"Moved Permanently\",\"http://h/c\"\n");
    let err = status_from_failure(s("http://h/x"), TransportFailure::Other(s("say \"hi\"")));
    let row = report_row(1, &err);
    assert_eq!(row.status, "ERR");
    assert_eq!(row.redirect_url, "");
    assert_eq!(csv_row(&row), "1,\"http://h/x\",ERR,\"say \"\"hi\"\"\",\"\"\n");
}

#[test]
fn log_numbers_rows() {
    let mut log = CsvLog::new();
    assert_eq!(log.row_count(), 0);
    let a = log.append_row(&status_from_response(s("u1"), 200, None));
    let b = log.append_row(&status_from_response(s("u2"), 500, None));
    assert!(a.starts_with("1,\"u1\",200,"));
    assert_eq!(b, "2,\"u2\",500,\"Internal Server Error\",\"\"\n");
    assert_eq!(log.row_count(), 2);
}

#[test]
fn stream_read_back_matches_batch() {
    let results = vec![
        status_from_response(s("http://h/b,\"x\""), 404, None),
        status_from_failure(s("http://h/a"), TransportFailure::Timeout),
        status_from_response(s("http://h/c"), 302, Some(s("http://h/d"))),
    ];
    let mut log = CsvLog::new();
    let mut streamed: Vec<Vec<String>> = results
        .iter()
        .map(|r| read_line(&log.append_row(r))[1..].to_vec())
        .collect();
    let mut batch: Vec<Vec<String>> = report_rows(&results)
        .into_iter()
        .map(|r| vec![r.url, r.status, r.status_text, r.redirect_url])
        .collect();
    streamed.sort();
    batch.sort();
    assert_eq!(streamed, batch);
    assert_eq!(report_rows(&results)[2].number, 3);
}
