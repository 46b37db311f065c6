use vstd::prelude::*;

use crate::extractor::{host_of, parse_url, parsed_of, strip_fragment, url_host, without_fragment};
use crate::urls::{contains_text, sorted_unique, sorted_unique_urls, texts};

verus! {

/// `p` is a chain of links: each entry links to the next one.
pub open spec fn is_link_chain(links: Set<(Seq<char>, Seq<char>)>, p: Seq<Seq<char>>) -> bool {
    forall|k: int| 0 <= k < p.len() - 1 ==> links.contains((p[k], #[trigger] p[k + 1]))
}

/// `u` can be reached from `seed` by following links.
pub open spec fn reachable(links: Set<(Seq<char>, Seq<char>)>, seed: Seq<char>, u: Seq<char>) -> bool {
    exists|p: Seq<Seq<char>>|
        p.len() >= 1 && p[0] == seed && p.last() == u && #[trigger] is_link_chain(links, p)
}

/// `seen` extended by each of `links` that it does not hold yet, in order of first appearance.
pub open spec fn absorb(seen: Seq<Seq<char>>, links: Seq<Seq<char>>) -> Seq<Seq<char>>
    decreases links.len(),
{
    if links.len() == 0 {
        seen
    } else {
        let before = absorb(seen, links.drop_last());
        if before.contains(links.last()) {
            before
        } else {
            before.push(links.last())
        }
    }
}

/// The pairs from `page` to each of `links`.
pub open spec fn edges_from(page: Seq<char>, links: Seq<Seq<char>>) -> Set<(Seq<char>, Seq<char>)> {
    Set::new(|e: (Seq<char>, Seq<char>)| e.0 == page && links.contains(e.1))
}

/// What `absorb` adds comes from `links`, and all of `links` ends up in it.
pub proof fn lemma_absorb_contains(seen: Seq<Seq<char>>, links: Seq<Seq<char>>, x: Seq<char>)
    ensures
        absorb(seen, links).contains(x) <==> (seen.contains(x) || links.contains(x)),
    decreases links.len(),
{
    if links.len() > 0 {
        let init = links.drop_last();
        lemma_absorb_contains(seen, init, x);
        let before = absorb(seen, init);
        assert(links =~= init.push(links.last()));
        if links.contains(x) && x != links.last() {
            let k = choose|k: int| 0 <= k < links.len() && links[k] == x;
            assert(init[k] == x);
        }
        if init.contains(x) {
            let k = choose|k: int| 0 <= k < init.len() && init[k] == x;
            assert(links[k] == x);
        }
        if !before.contains(links.last()) {
            let after = before.push(links.last());
            if before.contains(x) {
                let k = choose|k: int| 0 <= k < before.len() && before[k] == x;
                assert(after[k] == x);
            }
            if after.contains(x) && x != links.last() {
                let k = choose|k: int| 0 <= k < after.len() && after[k] == x;
                assert(before[k] == x);
            }
            assert(after[before.len() as int] == links.last());
        }
    }
}

/// The progress of one breadth-first crawl.
///
/// Every URL is held once in `visited`, in the order of its discovery; the ones from
/// `next` on form the frontier, those before it were handed out for fetching.
/// `in_flight` counts the fetches handed out whose links have not come back yet.
pub struct CrawlState {
    visited: Vec<String>,
    next: usize,
    in_flight: usize,
    /// For each visited URL, whether the fetch of its page came back.
    completed: Vec<bool>,
    /// Indices of the pages whose fetch is in flight.
    fetching: Ghost<Set<int>>,
    /// For each visited URL but the seed, the index of the page it was first found on.
    parent: Ghost<Seq<int>>,
    /// Every link reported so far, as (page, target).
    links: Ghost<Set<(Seq<char>, Seq<char>)>>,
}

impl CrawlState {
    /// The visited URLs, in order of discovery.
    pub closed spec fn seen(&self) -> Seq<Seq<char>> {
        texts(self.visited@)
    }

    /// The URL the crawl started from.
    pub open spec fn seed(&self) -> Seq<char> {
        self.seen()[0]
    }

    /// How many URLs were handed out for fetching.
    pub closed spec fn dispatched(&self) -> nat {
        self.next as nat
    }

    /// Fetches handed out that have not completed.
    pub closed spec fn pending_fetches(&self) -> nat {
        self.in_flight as nat
    }

    /// URLs discovered but not yet handed out.
    pub open spec fn frontier(&self) -> Seq<Seq<char>> {
        self.seen().subrange(self.dispatched() as int, self.seen().len() as int)
    }

    /// Every link reported so far, as (page, target).
    pub closed spec fn reported_links(&self) -> Set<(Seq<char>, Seq<char>)> {
        self.links@
    }

    /// No fetch in flight and nothing left to hand out.
    pub open spec fn quiescent(&self) -> bool {
        self.pending_fetches() == 0 && self.dispatched() == self.seen().len()
    }

    /// Whether the page with index `i` was handed out and its fetch has not come back.
    pub closed spec fn is_fetching(&self, i: int) -> bool {
        self.fetching@.contains(i)
    }

    /// Whether the fetch of the page with index `i` came back.
    pub closed spec fn is_completed(&self, i: int) -> bool {
        0 <= i < self.completed@.len() && self.completed@[i]
    }

    /// The index of the page on which `seen()[i]` was first found.
    pub closed spec fn parent_of(&self, i: int) -> int {
        self.parent@[i]
    }

    /// The internal invariant: `core_wf`, and the target of every reported link was visited.
    pub closed spec fn wf(&self) -> bool {
        &&& self.core_wf()
        &&& forall|e: (Seq<char>, Seq<char>)| #[trigger] self.links@.contains(e) ==> self.seen().contains(e.1)
    }

    /// No URL twice; each URL but the seed found on a page fetched before it; each page
    /// handed out is either in flight or completed, and the in-flight ones are counted.
    pub closed spec fn core_wf(&self) -> bool {
        &&& self.visited@.len() >= 1
        &&& self.completed@.len() == self.visited@.len()
        &&& self.fetching@.finite()
        &&& self.in_flight == self.fetching@.len()
        &&& forall|i: int| #[trigger] self.fetching@.contains(i) <==> (0 <= i < self.next && !self.completed@[i])
        &&& forall|i: int| 0 <= i < self.completed@.len() && #[trigger] self.completed@[i] ==> i < self.next
        &&& self.next <= self.visited@.len()
        &&& self.in_flight <= self.next
        &&& self.seen().no_duplicates()
        &&& self.parent@.len() == self.visited@.len()
        &&& forall|i: int|
            0 < i < self.visited@.len() ==> {
                &&& 0 <= #[trigger] self.parent@[i] < i
                &&& self.parent@[i] < self.next
                &&& self.links@.contains((self.seen()[self.parent@[i]], self.seen()[i]))
            }
    }

    /// A crawl that has discovered only `seed`, with nothing fetched yet.
    pub fn new(seed: String) -> (r: CrawlState)
        ensures
            r.wf(),
            r.seen() == seq![seed@],
            r.dispatched() == 0,
            r.pending_fetches() == 0,
            r.reported_links() == Set::<(Seq<char>, Seq<char>)>::empty(),
    {
        let mut visited: Vec<String> = Vec::new();
        visited.push(seed);
        let mut completed: Vec<bool> = Vec::new();
        completed.push(false);
        let ghost parent = seq![0int];
        let ghost fetching = Set::<int>::empty();
        let r = CrawlState {
            visited,
            next: 0,
            in_flight: 0,
            completed,
            fetching: Ghost(fetching),
            parent: Ghost(parent),
            links: Ghost(Set::empty()),
        };
        assert(r.seen() =~= seq![seed@]);
        r
    }

    /// A crawl from `start_url`, as the URL parser serializes it without fragment, confined
    /// to its host; none when it is no absolute URL or has no host.
    pub fn start(start_url: &str) -> (r: Option<(CrawlState, String)>)
        ensures
            r is Some <==> (parsed_of(start_url@) matches Some(p) && host_of(p) is Some),
            r matches Some((st, host)) ==> {
                &&& parsed_of(start_url@) matches Some(p)
                &&& st.wf()
                &&& st.seen() == seq![without_fragment(p)]
                &&& host_of(p) == Some(host@)
                &&& st.dispatched() == 0
                &&& st.pending_fetches() == 0
                &&& st.reported_links() == Set::<(Seq<char>, Seq<char>)>::empty()
            },
    {
        match parse_url(start_url) {
            Some(seed) => match url_host(seed.as_str()) {
                Some(host) => Some((CrawlState::new(strip_fragment(seed.as_str())), host)),
                None => None,
            },
            None => None,
        }
    }

    /// Whether a discovered URL waits to be handed out.
    pub fn has_pending(&self) -> (r: bool)
        requires
            self.wf(),
        ensures
            r == (self.frontier().len() > 0),
    {
        self.next < self.visited.len()
    }

    /// How many fetches are in flight.
    pub fn in_flight(&self) -> (r: usize)
        ensures
            r == self.pending_fetches(),
    {
        self.in_flight
    }

    /// How many URLs were handed out for fetching.
    pub fn dispatched_count(&self) -> (r: usize)
        ensures
            r == self.dispatched(),
    {
        self.next
    }

    /// How many URLs were discovered, the seed included.
    pub fn visited_count(&self) -> (r: usize)
        ensures
            r == self.seen().len(),
    {
        self.visited.len()
    }

    /// Whether the page with index `page` was handed out and its fetch has not come back.
    pub fn is_fetching_page(&self, page: usize) -> (r: bool)
        requires
            self.wf(),
        ensures
            r == self.is_fetching(page as int),
    {
        page < self.next && !self.completed[page]
    }

    /// Whether the crawl is done: nothing in flight and nothing queued.
    pub fn is_quiescent(&self) -> (r: bool)
        requires
            self.wf(),
        ensures
            r == self.quiescent(),
    {
        self.in_flight == 0 && self.next == self.visited.len()
    }

    /// Hands out the oldest queued URL for fetching; returns its index and the URL.
    pub fn dispatch(&mut self) -> (r: (usize, String))
        requires
            old(self).wf(),
            old(self).frontier().len() > 0,
        ensures
            final(self).wf(),
            r.0 == old(self).dispatched(),
            r.1@ == old(self).frontier()[0],
            final(self).seen() == old(self).seen(),
            final(self).dispatched() == old(self).dispatched() + 1,
            final(self).pending_fetches() == old(self).pending_fetches() + 1,
            final(self).reported_links() == old(self).reported_links(),
            final(self).is_fetching(r.0 as int),
            forall|j: int| j != r.0 ==> (old(self).is_fetching(j) <==> final(self).is_fetching(j)),
            forall|j: int| old(self).is_completed(j) <==> final(self).is_completed(j),
    {
        broadcast use vstd::set::group_set_axioms;
        let i = self.next;
        let n = self.visited.len();
        assert(i < n);
        let url = self.visited[i].clone();
        proof {
            assert(!self.fetching@.contains(i as int));
        }
        self.fetching = Ghost(self.fetching@.insert(i as int));
        self.next = i + 1;
        self.in_flight = self.in_flight + 1;
        assert(self.seen()[i as int] == self.visited@[i as int]@);
        (i, url)
    }

    /// Records that the fetch of the page with index `page` finished and produced
    /// `found` (nothing, when it failed). Each link not seen before is queued, once.
    pub fn complete(&mut self, page: usize, found: &Vec<String>)
        requires
            old(self).wf(),
            old(self).is_fetching(page as int),
        ensures
            final(self).wf(),
            final(self).seen() == absorb(old(self).seen(), texts(found@)),
            final(self).dispatched() == old(self).dispatched(),
            final(self).pending_fetches() == old(self).pending_fetches() - 1,
            final(self).reported_links() == old(self).reported_links().union(
                edges_from(old(self).seen()[page as int], texts(found@)),
            ),
            final(self).seed() == old(self).seed(),
            final(self).is_completed(page as int),
            !final(self).is_fetching(page as int),
            forall|j: int| j != page ==> (old(self).is_fetching(j) <==> final(self).is_fetching(j)),
            forall|j: int| old(self).is_completed(j) ==> final(self).is_completed(j),
    {
        broadcast use vstd::set::group_set_axioms;
        let ghost page_url = self.seen()[page as int];
        let ghost all = self.links@.union(edges_from(page_url, texts(found@)));
        let ghost old_links = self.links@;
        self.completed.set(page, true);
        self.fetching = Ghost(self.fetching@.remove(page as int));
        self.in_flight = self.in_flight - 1;
        self.links = Ghost(all);
        let ghost start = self.seen();
        let ghost done0 = self.completed@;
        let mut k: usize = 0;
        while k < found.len()
            invariant
                self.core_wf(),
                page < self.next,
                self.completed@.len() >= done0.len(),
                self.completed@.subrange(0, done0.len() as int) == done0,
                self.fetching@ == old(self).fetching@.remove(page as int),
                self.next == old(self).next,
                self.in_flight == old(self).in_flight - 1,
                self.seen()[page as int] == page_url,
                self.links@ == all,
                all == old(self).links@.union(edges_from(page_url, texts(found@))),
                k <= found@.len(),
                self.seen() == absorb(start, texts(found@).subrange(0, k as int)),
                start.len() <= self.seen().len(),
                self.seen().subrange(0, start.len() as int) == start,
            decreases found.len() - k,
        {
            let ghost prev = self.seen();
            let ghost prefix = texts(found@).subrange(0, k as int + 1);
            assert(prefix.drop_last() =~= texts(found@).subrange(0, k as int));
            assert(prefix.last() == found@[k as int]@);
            if !contains_text(&self.visited, &found[k]) {
                let ghost n = self.visited@.len();
                let ghost prev_done = self.completed@;
                self.visited.push(found[k].clone());
                self.completed.push(false);
                assert(forall|j: int| 0 <= j < prev_done.len() ==> self.completed@[j] == prev_done[j]);
                assert(self.completed@.subrange(0, done0.len() as int) =~= prev_done.subrange(0, done0.len() as int));
                self.parent = Ghost(self.parent@.push(page as int));
                assert(self.seen() =~= prev.push(found@[k as int]@));
                assert(texts(found@).contains(found@[k as int]@)) by {
                    assert(texts(found@)[k as int] == found@[k as int]@);
                }
                assert(edges_from(page_url, texts(found@)).contains((page_url, found@[k as int]@)));
                assert(all.contains((page_url, found@[k as int]@)));
                assert forall|i: int| 0 < i < self.visited@.len() implies {
                    &&& 0 <= #[trigger] self.parent@[i] < i
                    &&& self.parent@[i] < self.next
                    &&& self.links@.contains((self.seen()[self.parent@[i]], self.seen()[i]))
                } by {
                    if i < n {
                        assert(self.seen()[i] == prev[i]);
                        assert(self.seen()[self.parent@[i]] == prev[self.parent@[i]]);
                    } else {
                        assert(self.seen()[page as int] == prev[page as int]);
                    }
                }
                assert(self.seen().subrange(0, start.len() as int) =~= prev.subrange(0, start.len() as int));
            }
            k = k + 1;
        }
        assert(texts(found@).subrange(0, found@.len() as int) =~= texts(found@));
        assert(self.seen()[0] == self.seen().subrange(0, start.len() as int)[0]);
        assert forall|e: (Seq<char>, Seq<char>)| #[trigger] self.links@.contains(e) implies self.seen().contains(e.1) by {
            lemma_absorb_contains(start, texts(found@), e.1);
            if old_links.contains(e) {
                assert(start.contains(e.1));
            } else {
                assert(texts(found@).contains(e.1));
            }
        }
        assert forall|j: int| old(self).is_completed(j) implies self.is_completed(j) by {
            assert(self.completed@.subrange(0, done0.len() as int)[j] == done0[j]);
        }
        assert(self.completed@.subrange(0, done0.len() as int)[page as int] == done0[page as int]);
    }

    /// Every discovered URL can be reached from the seed by following reported links.
    pub proof fn lemma_seen_reachable(&self, i: int)
        requires
            self.wf(),
            0 <= i < self.seen().len(),
        ensures
            reachable(self.reported_links(), self.seed(), self.seen()[i]),
        decreases i,
    {
        if i == 0 {
            let p = seq![self.seed()];
            assert(is_link_chain(self.reported_links(), p));
        } else {
            let j = self.parent@[i];
            self.lemma_seen_reachable(j);
            let p = choose|p: Seq<Seq<char>>|
                p.len() >= 1 && p[0] == self.seed() && p.last() == self.seen()[j]
                    && #[trigger] is_link_chain(self.reported_links(), p);
            let q = p.push(self.seen()[i]);
            assert forall|k: int| 0 <= k < q.len() - 1 implies self.reported_links().contains(
                (q[k], #[trigger] q[k + 1]),
            ) by {
                if k < p.len() - 1 {
                    assert(q[k] == p[k] && q[k + 1] == p[k + 1]);
                } else {
                    assert(q[k] == self.seen()[j]);
                }
            }
            assert(is_link_chain(self.reported_links(), q));
        }
    }

    /// At quiescence the crawl is closed under links: the fetch of every discovered page
    /// came back, and the target of every link reported from those pages was discovered.
    /// What the crawl holds then is the seed's reachable set, whatever order the fetches
    /// completed in.
    pub proof fn lemma_quiescent_closed(&self)
        requires
            self.wf(),
            self.quiescent(),
        ensures
            forall|i: int| 0 <= i < self.seen().len() ==> self.is_completed(i),
            forall|e: (Seq<char>, Seq<char>)|
                #[trigger] self.reported_links().contains(e) ==> self.seen().contains(e.1),
            forall|x: Seq<char>|
                reachable(self.reported_links(), self.seed(), x) <==> self.seen().contains(x),
    {
        self.fetching@.lemma_len0_is_empty();
        assert forall|x: Seq<char>| reachable(self.reported_links(), self.seed(), x) <==> self.seen().contains(x) by {
            if reachable(self.reported_links(), self.seed(), x) {
                let p = choose|p: Seq<Seq<char>>|
                    p.len() >= 1 && p[0] == self.seed() && p.last() == x
                        && #[trigger] is_link_chain(self.reported_links(), p);
                if p.len() == 1 {
                    assert(self.seen()[0] == x);
                } else {
                    let k = p.len() - 2;
                    assert(self.reported_links().contains((p[k], p[k + 1])));
                }
            }
            if self.seen().contains(x) {
                let i = choose|i: int| 0 <= i < self.seen().len() && self.seen()[i] == x;
                self.lemma_seen_reachable(i);
            }
        }
        assert forall|i: int| 0 <= i < self.seen().len() implies self.is_completed(i) by {
            assert(!self.fetching@.contains(i));
        }
    }

    /// A crawl over a finite link graph ends: when every URL discovered so far lies in the
    /// finite set `g`, at most `g.len()` URLs are ever discovered or handed out. Each
    /// `dispatch` raises the dispatched count by one and each `complete` lowers the
    /// fetches in flight by one, so `2 * (g.len() - dispatched) + pending_fetches` falls
    /// with every step while links stay within `g`, whatever the cycles among them.
    pub proof fn lemma_bounded_by_graph(&self, g: Set<Seq<char>>)
        requires
            self.wf(),
            g.finite(),
            forall|x: Seq<char>| self.seen().contains(x) ==> g.contains(x),
        ensures
            self.seen().len() <= g.len(),
            self.dispatched() <= g.len(),
            self.pending_fetches() <= self.dispatched(),
    {
        self.seen().unique_seq_to_set();
        assert(self.seen().to_set().subset_of(g));
        vstd::set_lib::lemma_len_subset(self.seen().to_set(), g);
    }

    /// The result of the crawl: every discovered URL once, in ascending order. Each of
    /// them can be reached from the seed by following reported links.
    pub fn into_sorted(self) -> (r: Vec<String>)
        requires
            self.wf(),
        ensures
            sorted_unique(texts(r@)),
            forall|x: Seq<char>| texts(r@).contains(x) <==> self.seen().contains(x),
            forall|x: Seq<char>|
                texts(r@).contains(x) ==> reachable(self.reported_links(), self.seed(), x),
    {
        let r = sorted_unique_urls(&self.visited);
        proof {
            assert forall|x: Seq<char>| texts(r@).contains(x) implies reachable(
                self.reported_links(),
                self.seed(),
                x,
            ) by {
                let i = choose|i: int| 0 <= i < self.seen().len() && self.seen()[i] == x;
                self.lemma_seen_reachable(i);
            }
        }
        r
    }
}

} // verus!
