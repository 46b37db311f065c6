use vstd::prelude::*;

use crate::text::{decimal, push_decimal, push_str, string_from_chars};
use crate::urls::{sorted_unique, sorted_unique_urls, texts};

verus! {

/// The outcome of probing one URL.
#[derive(Debug, Clone)]
pub struct UrlStatus {
    /// The URL probed.
    pub url: String,
    /// The HTTP status, when a response came back.
    pub status_code: Option<u16>,
    /// The reason phrase of the status, or what went wrong.
    pub status_text: String,
    /// Where a redirect response pointed.
    pub redirect_url: Option<String>,
}

/// How a request failed before any response came back.
#[derive(Debug, Clone)]
pub enum TransportFailure {
    /// The request ran past its timeout.
    Timeout,
    /// No connection could be made.
    Connect,
    /// Anything else, with the failure's own description.
    Other(String),
}

/// The canonical reason phrase of an HTTP status code, when it has one.
pub uninterp spec fn reason_of(code: u16) -> Option<Seq<char>>;

/// Relies on `reqwest::StatusCode::from_u16` and `canonical_reason`: the standard reason
/// phrase of the code; none for a code outside 100..=999, which is no status code.
#[verifier::external_body]
fn reason_phrase(code: u16) -> (r: Option<String>)
    ensures
        r matches Some(s) ==> reason_of(code) == Some(s@),
        r is None ==> reason_of(code) is None,
        (code < 100 || code > 999) ==> r is None,
{
    match reqwest::StatusCode::from_u16(code) {
        Ok(s) => s.canonical_reason().map(|p| p.to_string()),
        Err(_) => None,
    }
}

/// A status in 300..=399 asks the client to look elsewhere.
pub open spec fn is_redirect_code(code: u16) -> bool {
    300 <= code <= 399
}

/// The text recorded for a response with `code`: its reason phrase, else "Unknown".
pub open spec fn status_text_for(code: u16) -> Seq<char> {
    match reason_of(code) {
        Some(p) => p,
        None => "Unknown"@,
    }
}

/// The record for a response with status `code` to a request for `url`. `location` is the
/// response's `Location` header, when it had one; it is kept for a redirect status only.
pub fn status_from_response(url: String, code: u16, location: Option<String>) -> (r: UrlStatus)
    ensures
        r.url@ == url@,
        r.status_code == Some(code),
        r.status_text@ == status_text_for(code),
        r.redirect_url is Some <==> (is_redirect_code(code) && location is Some),
        r.redirect_url matches Some(l) ==> location matches Some(m) && l@ == m@,
{
    let text = match reason_phrase(code) {
        Some(p) => p,
        None => string_from_str("Unknown"),
    };
    let redirect_url = if 300 <= code && code <= 399 { location } else { None };
    UrlStatus { url, status_code: Some(code), status_text: text, redirect_url }
}

/// The text recorded for a request that failed in transport.
pub open spec fn failure_text(f: TransportFailure) -> Seq<char> {
    match f {
        TransportFailure::Timeout => "Timeout"@,
        TransportFailure::Connect => "Connection Error"@,
        TransportFailure::Other(d) => d@,
    }
}

/// The record for a request to `url` that got no response.
pub fn status_from_failure(url: String, failure: TransportFailure) -> (r: UrlStatus)
    ensures
        r.url@ == url@,
        r.status_code is None,
        r.status_text@ == failure_text(failure),
        r.redirect_url is None,
{
    let text = match failure {
        TransportFailure::Timeout => string_from_str("Timeout"),
        TransportFailure::Connect => string_from_str("Connection Error"),
        TransportFailure::Other(d) => d,
    };
    UrlStatus { url, status_code: None, status_text: text, redirect_url: None }
}

fn string_from_str(s: &str) -> (r: String)
    ensures
        r@ == s@,
{
    let mut v: Vec<char> = Vec::new();
    push_str(&mut v, s);
    string_from_chars(&v)
}

/// The one-line rendering of a record: `[code] url`, then ` -> target` for a redirect;
/// `[ERR] url (text)` when no response came back.
pub open spec fn status_line(s: UrlStatus) -> Seq<char> {
    match s.status_code {
        Some(code) => {
            let head = "["@ + decimal(code as nat) + "] "@ + s.url@;
            match s.redirect_url {
                Some(t) => head + " -> "@ + t@,
                None => head,
            }
        },
        None => "[ERR] "@ + s.url@ + " ("@ + s.status_text@ + ")"@,
    }
}

impl UrlStatus {
    /// The record rendered on one line.
    pub fn to_string(&self) -> (r: String)
        ensures
            r@ == status_line(*self),
    {
        let mut out: Vec<char> = Vec::new();
        match self.status_code {
            Some(code) => {
                push_str(&mut out, "[");
                push_decimal(&mut out, code as u64);
                push_str(&mut out, "] ");
                push_str(&mut out, self.url.as_str());
                match &self.redirect_url {
                    Some(t) => {
                        push_str(&mut out, " -> ");
                        push_str(&mut out, t.as_str());
                    },
                    None => {},
                }
            },
            None => {
                push_str(&mut out, "[ERR] ");
                push_str(&mut out, self.url.as_str());
                push_str(&mut out, " (");
                push_str(&mut out, self.status_text.as_str());
                push_str(&mut out, ")");
            },
        }
        let r = string_from_chars(&out);
        proof {
            match self.status_code {
                Some(code) => {
                    let head = "["@ + decimal(code as nat) + "] "@ + self.url@;
                    if self.redirect_url is Some {
                        let t = self.redirect_url->Some_0;
                        assert(out@ =~= head + " -> "@ + t@);
                    } else {
                        assert(out@ =~= head);
                    }
                },
                None => assert(out@ =~= "[ERR] "@ + self.url@ + " ("@ + self.status_text@ + ")"@),
            }
        }
        r
    }
}


/// The bookkeeping of one verification run: which URLs were started, which are in
/// flight, and the records that came back. A probe is started only while fewer than
/// `limit` are in flight.
pub struct ProbeSchedule {
    urls: Vec<String>,
    limit: usize,
    next: usize,
    in_flight: usize,
    finished: Vec<bool>,
    results: Vec<UrlStatus>,
    /// Indices started and not yet finished.
    running: Ghost<Set<int>>,
    /// For each record, the index of its URL.
    order: Ghost<Seq<int>>,
    /// Indices of probes that ended without a record.
    dropped: Ghost<Set<int>>,
}

impl ProbeSchedule {
    /// The URLs to probe, each once, in the order probes start.
    pub closed spec fn targets(&self) -> Seq<Seq<char>> {
        texts(self.urls@)
    }

    /// The most probes in flight at once.
    pub closed spec fn limit(&self) -> nat {
        self.limit as nat
    }

    /// Probes started and not yet finished.
    pub closed spec fn in_flight(&self) -> nat {
        self.in_flight as nat
    }

    /// How many probes were started.
    pub closed spec fn started(&self) -> nat {
        self.next as nat
    }

    /// The records collected, in order of arrival.
    pub closed spec fn records(&self) -> Seq<UrlStatus> {
        self.results@
    }

    /// The URLs of the records collected, in order of arrival.
    pub closed spec fn recorded(&self) -> Seq<Seq<char>> {
        self.results@.map_values(|s: UrlStatus| s.url@)
    }

    /// The URLs of the probes that ended without a record.
    pub closed spec fn lost(&self) -> Set<Seq<char>> {
        self.dropped@.map(|i: int| self.targets()[i])
    }

    /// Whether the probe with index `i` was started and has not finished.
    pub closed spec fn is_running(&self, i: int) -> bool {
        self.running@.contains(i)
    }

    /// Every probe started and finished.
    pub open spec fn done(&self) -> bool {
        self.started() == self.targets().len() && self.in_flight() == 0
    }

    /// The internal invariant.
    pub closed spec fn wf(&self) -> bool {
        &&& self.targets().no_duplicates()
        &&& self.finished@.len() == self.urls@.len()
        &&& self.next <= self.urls@.len()
        &&& self.in_flight <= self.limit
        &&& self.running@.finite()
        &&& self.in_flight == self.running@.len()
        &&& forall|i: int| #[trigger] self.running@.contains(i) <==> (0 <= i < self.next && !self.finished@[i])
        &&& self.order@.len() == self.results@.len()
        &&& self.order@.no_duplicates()
        &&& forall|k: int| 0 <= k < self.order@.len() ==> {
            &&& 0 <= #[trigger] self.order@[k] < self.next
            &&& self.finished@[self.order@[k]]
            &&& self.results@[k].url@ == self.targets()[self.order@[k]]
        }
        &&& forall|i: int| 0 <= i < self.urls@.len() && #[trigger] self.finished@[i] ==> i < self.next && (self.order@.contains(i) || self.dropped@.contains(i))
        &&& forall|i: int| #[trigger] self.dropped@.contains(i) ==> 0 <= i < self.next && self.finished@[i] && !self.order@.contains(i)
    }

    /// A run over `urls`, each distinct URL probed once, at most `concurrency` at a time.
    pub fn new(urls: &Vec<String>, concurrency: usize) -> (r: ProbeSchedule)
        ensures
            r.wf(),
            sorted_unique(r.targets()),
            forall|x: Seq<char>| r.targets().contains(x) <==> texts(urls@).contains(x),
            r.limit() == concurrency,
            r.started() == 0,
            r.in_flight() == 0,
            r.recorded().len() == 0,
            r.records() == Seq::<UrlStatus>::empty(),
            r.lost() == Set::<Seq<char>>::empty(),
    {
        let targets = sorted_unique_urls(urls);
        let mut finished: Vec<bool> = Vec::new();
        let mut i: usize = 0;
        while i < targets.len()
            invariant
                i <= targets@.len(),
                finished@.len() == i,
                forall|j: int| 0 <= j < i ==> !finished@[j],
            decreases targets.len() - i,
        {
            finished.push(false);
            i = i + 1;
        }
        let ghost running = Set::<int>::empty();
        let ghost order = Seq::<int>::empty();
        let ghost dropped = Set::<int>::empty();
        ProbeSchedule {
            urls: targets,
            limit: concurrency,
            next: 0,
            in_flight: 0,
            finished,
            results: Vec::new(),
            running: Ghost(running),
            order: Ghost(order),
            dropped: Ghost(dropped),
        }
    }

    /// Starts the next probe when one is left and a permit is free: returns its index and URL.
    pub fn try_start(&mut self) -> (r: Option<(usize, String)>)
        requires
            old(self).wf(),
        ensures
            final(self).wf(),
            final(self).targets() == old(self).targets(),
            final(self).limit() == old(self).limit(),
            final(self).records() == old(self).records(),
            final(self).recorded() == old(self).recorded(),
            final(self).lost() == old(self).lost(),
            r is Some <==> (old(self).started() < old(self).targets().len() && old(self).in_flight() < old(self).limit()),
            r matches Some(p) ==> {
                &&& p.0 == old(self).started()
                &&& p.1@ == old(self).targets()[p.0 as int]
                &&& final(self).started() == old(self).started() + 1
                &&& final(self).in_flight() == old(self).in_flight() + 1
                &&& final(self).is_running(p.0 as int)
            },
            r is None ==> *final(self) == *old(self),
            forall|j: int| old(self).is_running(j) ==> final(self).is_running(j),
    {
        broadcast use vstd::set::group_set_axioms;
        if self.next < self.urls.len() && self.in_flight < self.limit {
            let i = self.next;
            let url = self.urls[i].clone();
            proof {
                assert(!self.running@.contains(i as int));
            }
            self.running = Ghost(self.running@.insert(i as int));
            self.next = i + 1;
            self.in_flight = self.in_flight + 1;
            assert(self.targets()[i as int] == self.urls@[i as int]@);
            Some((i, url))
        } else {
            None
        }
    }

    /// Whether the probe with index `i` is in flight.
    pub fn running(&self, i: usize) -> (r: bool)
        requires
            self.wf(),
        ensures
            r == self.is_running(i as int),
    {
        i < self.next && !self.finished[i]
    }

    /// Records the outcome of the probe with index `i`; `status` is the record for its URL.
    pub fn finish(&mut self, i: usize, status: UrlStatus)
        requires
            old(self).wf(),
            old(self).is_running(i as int),
            status.url@ == old(self).targets()[i as int],
        ensures
            final(self).wf(),
            final(self).targets() == old(self).targets(),
            final(self).limit() == old(self).limit(),
            final(self).started() == old(self).started(),
            final(self).in_flight() == old(self).in_flight() - 1,
            final(self).records() == old(self).records().push(status),
            final(self).recorded() == old(self).recorded().push(status.url@),
            final(self).lost() == old(self).lost(),
            !final(self).is_running(i as int),
            forall|j: int| j != i ==> (old(self).is_running(j) <==> final(self).is_running(j)),
    {
        broadcast use vstd::set::group_set_axioms;
        let ghost old_order = self.order@;
        let ghost old_results = self.results@;
        proof {
            assert(!old_order.contains(i as int));
        }
        self.finished.set(i, true);
        self.running = Ghost(self.running@.remove(i as int));
        self.in_flight = self.in_flight - 1;
        self.results.push(status);
        self.order = Ghost(self.order@.push(i as int));
        assert(self.recorded() =~= old_results.map_values(|s: UrlStatus| s.url@).push(status.url@));
        assert forall|j: int| 0 <= j < self.urls@.len() && #[trigger] self.finished@[j] implies j < self.next && (self.order@.contains(j) || self.dropped@.contains(j)) by {
            if j == i {
                assert(self.order@[old_order.len() as int] == j);
            } else if old_order.contains(j) {
                let k = choose|k: int| 0 <= k < old_order.len() && old_order[k] == j;
                assert(self.order@[k] == j);
            }
        }
        assert forall|j: int| #[trigger] self.dropped@.contains(j) implies 0 <= j < self.next && self.finished@[j] && !self.order@.contains(j) by {
            assert(j != i);
            if self.order@.contains(j) {
                let k = choose|k: int| 0 <= k < self.order@.len() && self.order@[k] == j;
                assert(old_order[k] == j);
            }
        }
    }

    /// Ends the probe with index `i` without a record, as when its task crashed.
    pub fn abandon(&mut self, i: usize)
        requires
            old(self).wf(),
            old(self).is_running(i as int),
        ensures
            final(self).wf(),
            final(self).targets() == old(self).targets(),
            final(self).limit() == old(self).limit(),
            final(self).started() == old(self).started(),
            final(self).in_flight() == old(self).in_flight() - 1,
            final(self).records() == old(self).records(),
            final(self).recorded() == old(self).recorded(),
            final(self).lost() == old(self).lost().insert(old(self).targets()[i as int]),
            !final(self).is_running(i as int),
            forall|j: int| j != i ==> (old(self).is_running(j) <==> final(self).is_running(j)),
    {
        broadcast use vstd::set::group_set_axioms;
        let ghost old_lost = self.lost();
        proof {
            assert(!self.order@.contains(i as int)) by {
                if self.order@.contains(i as int) {
                    let k = choose|k: int| 0 <= k < self.order@.len() && self.order@[k] == i;
                    assert(self.finished@[self.order@[k]]);
                }
            }
        }
        self.finished.set(i, true);
        self.running = Ghost(self.running@.remove(i as int));
        self.in_flight = self.in_flight - 1;
        self.dropped = Ghost(self.dropped@.insert(i as int));
        assert(self.lost() =~= old_lost.insert(self.targets()[i as int])) by {
            assert forall|x: Seq<char>| self.lost().contains(x) implies old_lost.insert(self.targets()[i as int]).contains(x) by {
                let j = choose|j: int| self.dropped@.contains(j) && self.targets()[j] == x;
                if j != i {
                    assert(old_lost.contains(x));
                }
            }
            assert forall|x: Seq<char>| old_lost.insert(self.targets()[i as int]).contains(x) implies self.lost().contains(x) by {
                if x == self.targets()[i as int] {
                    assert(self.dropped@.contains(i as int));
                } else {
                    let j = choose|j: int| old(self).dropped@.contains(j) && old(self).targets()[j] == x;
                    assert(self.dropped@.contains(j));
                }
            }
        }
    }

    /// Whether every probe started and finished.
    pub fn is_done(&self) -> (r: bool)
        requires
            self.wf(),
        ensures
            r == self.done(),
    {
        self.next == self.urls.len() && self.in_flight == 0
    }

    /// At every moment no more probes are in flight than the run allows.
    pub proof fn lemma_permits_bounded(&self)
        requires
            self.wf(),
        ensures
            self.in_flight() <= self.limit(),
    {
    }

    /// When the run is done each distinct input URL has exactly one record, unless its
    /// probe ended without one; those URLs are the lost ones, and they have none.
    pub proof fn lemma_one_record_per_url(&self)
        requires
            self.wf(),
            self.done(),
        ensures
            self.recorded().no_duplicates(),
            forall|x: Seq<char>|
                self.targets().contains(x) <==> (self.recorded().contains(x) || self.lost().contains(x)),
            forall|x: Seq<char>| self.recorded().contains(x) ==> !self.lost().contains(x),
            self.lost().is_empty() ==> self.recorded().len() == self.targets().len(),
    {
        broadcast use vstd::set::group_set_axioms;
        let rec = self.recorded();
        let t = self.targets();
        assert forall|i: int| 0 <= i < self.urls@.len() implies self.finished@[i] by {
            if !self.finished@[i] {
                assert(self.running@.contains(i));
            }
        }
        assert forall|a: int, b: int| 0 <= a < rec.len() && 0 <= b < rec.len() && a != b implies rec[a] != rec[b] by {
            assert(rec[a] == t[self.order@[a]]);
            assert(rec[b] == t[self.order@[b]]);
        }
        assert forall|x: Seq<char>| t.contains(x) <==> (rec.contains(x) || self.lost().contains(x)) by {
            if rec.contains(x) {
                let k = choose|k: int| 0 <= k < rec.len() && rec[k] == x;
                assert(rec[k] == t[self.order@[k]]);
            }
            if self.lost().contains(x) {
                let j = choose|j: int| self.dropped@.contains(j) && t[j] == x;
                assert(0 <= j < t.len());
            }
            if t.contains(x) {
                let i = choose|i: int| 0 <= i < t.len() && t[i] == x;
                assert(self.finished@[i]);
                if self.order@.contains(i) {
                    let k = choose|k: int| 0 <= k < self.order@.len() && self.order@[k] == i;
                    assert(rec[k] == x);
                } else {
                    assert(self.dropped@.contains(i));
                }
            }
        }
        assert forall|x: Seq<char>| rec.contains(x) implies !self.lost().contains(x) by {
            let k = choose|k: int| 0 <= k < rec.len() && rec[k] == x;
            assert(rec[k] == t[self.order@[k]]);
            if self.lost().contains(x) {
                let j = choose|j: int| self.dropped@.contains(j) && t[j] == x;
                assert(0 <= j < t.len());
                assert(t[j] == t[self.order@[k]]);
                assert(j == self.order@[k]);
                assert(self.order@.contains(j));
            }
        }
        if self.lost().is_empty() {
            assert forall|x: Seq<char>| rec.contains(x) <==> t.contains(x) by {
                if t.contains(x) {
                    assert(!self.lost().contains(x));
                }
            }
            rec.unique_seq_to_set();
            t.unique_seq_to_set();
            assert(rec.to_set() =~= t.to_set());
        }
    }

    /// The records collected, in order of arrival.
    pub fn into_results(self) -> (r: Vec<UrlStatus>)
        requires
            self.wf(),
        ensures
            r@ == self.records(),
            r@.map_values(|s: UrlStatus| s.url@) == self.recorded(),
    {
        self.results
    }
}

/// A pause drawn from `[base, 3 * base]` milliseconds, picked by `sample`.
pub fn jitter_delay_ms(base: u64, sample: u64) -> (r: u64)
    requires
        base <= u64::MAX / 3,
    ensures
        base <= r <= 3 * base,
        r as int == base as int + (sample as int) % (2 * base as int + 1),
{
    let span: u64 = 2 * base + 1;
    base + sample % span
}

/// The User-Agent of `pool` that `sample` picks.
pub fn pick_user_agent(pool: &Vec<String>, sample: u64) -> (r: &String)
    requires
        pool@.len() > 0,
    ensures
        r == pool@[(sample % (pool@.len() as u64)) as int],
{
    let n = pool.len() as u64;
    &pool[(sample % n) as usize]
}

} // verus!
