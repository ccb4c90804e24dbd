//! The depth-bounded crawler. The crawler itself never touches the network:
//! it decides which URL to fetch next and records what the application
//! fetched, extracting the outbound links from the returned HTML. The
//! application drives the loop: ask for the next URL, fetch it, hand the
//! body back (or nothing, on a fetch failure).

use vstd::prelude::*;

use crate::html::{extract_links, links_of};
use crate::text::contains_str;

verus! {

/// One frontier entry: a URL together with the depth it was discovered at.
/// Entries with lower depth have priority; equal depths are
/// order-indifferent.
pub struct UrlToVisit {
    pub url: String,
    pub crawl_depth: u32,
}

/// The mathematical content of a frontier entry.
pub struct UrlToVisitView {
    pub url: Seq<char>,
    pub crawl_depth: u32,
}

impl View for UrlToVisit {
    type V = UrlToVisitView;

    open spec fn view(&self) -> UrlToVisitView {
        UrlToVisitView { url: self.url@, crawl_depth: self.crawl_depth }
    }
}

impl DeepView for UrlToVisit {
    type V = UrlToVisitView;

    open spec fn deep_view(&self) -> UrlToVisitView {
        self.view()
    }
}

/// One successfully fetched page: its URL, the outbound hyperlink targets
/// found in the body, and the body text.
pub struct CrawlResult {
    pub url: String,
    pub new_urls: Vec<String>,
    pub body: String,
}

/// The mathematical content of a crawl result.
pub struct CrawlResultView {
    pub url: Seq<char>,
    pub new_urls: Seq<Seq<char>>,
    pub body: Seq<char>,
}

impl View for CrawlResult {
    type V = CrawlResultView;

    open spec fn view(&self) -> CrawlResultView {
        CrawlResultView {
            url: self.url@,
            new_urls: self.new_urls.deep_view(),
            body: self.body@,
        }
    }
}

impl DeepView for CrawlResult {
    type V = CrawlResultView;

    open spec fn deep_view(&self) -> CrawlResultView {
        self.view()
    }
}

/// The crawl state: a min-depth-first frontier, the set of visited URLs and
/// the fetch results collected so far, bounded by `max_depth`.
pub struct Crawler {
    frontier: Vec<UrlToVisit>,
    visited: Vec<String>,
    results: Vec<CrawlResult>,
    max_depth: u32,
}

impl Crawler {
    /// The URLs of the collected results, in collection order.
    pub closed spec fn result_urls(&self) -> Seq<Seq<char>> {
        Seq::new(self.results@.len(), |i: int| self.results@[i].url@)
    }

    pub closed spec fn spec_results(&self) -> Seq<CrawlResultView> {
        self.results.deep_view()
    }

    pub closed spec fn spec_frontier(&self) -> Seq<UrlToVisitView> {
        self.frontier.deep_view()
    }

    pub closed spec fn spec_visited(&self) -> Seq<Seq<char>> {
        self.visited.deep_view()
    }

    pub closed spec fn spec_max_depth(&self) -> u32 {
        self.max_depth
    }

    /// Well-formedness: the visited list mirrors the result URLs one to one,
    /// and no URL is recorded twice.
    pub closed spec fn wf(&self) -> bool {
        &&& self.spec_visited() =~= self.result_urls()
        &&& forall|i: int, j: int|
            0 <= i < j < self.spec_visited().len() ==> self.spec_visited()[i]
                != self.spec_visited()[j]
    }

    /// Each distinct URL appears in the output at most once.
    pub proof fn lemma_visited_once(&self)
        requires
            self.wf(),
        ensures
            forall|i: int, j: int|
                0 <= i < j < self.spec_results().len() ==> self.spec_results()[i].url
                    != self.spec_results()[j].url,
    {
        assert forall|i: int, j: int|
            0 <= i < j < self.spec_results().len() implies self.spec_results()[i].url
            != self.spec_results()[j].url by {
            assert(self.spec_visited()[i] == self.spec_results()[i].url);
            assert(self.spec_visited()[j] == self.spec_results()[j].url);
        }
    }

    /// Starts a crawl from the seed URLs, all at depth zero.
    #[verifier::loop_isolation(false)]
    pub fn new(seed_urls: Vec<String>, max_depth: u32) -> (c: Crawler)
        ensures
            c.wf(),
            c.spec_results() =~= Seq::<CrawlResultView>::empty(),
            c.spec_visited() =~= Seq::<Seq<char>>::empty(),
            c.spec_max_depth() == max_depth,
            c.spec_frontier().len() == seed_urls@.len(),
            forall|i: int|
                0 <= i < seed_urls@.len() ==> c.spec_frontier()[i] == (UrlToVisitView {
                    url: seed_urls.deep_view()[i],
                    crawl_depth: 0u32,
                }),
    {
        let mut frontier: Vec<UrlToVisit> = Vec::new();
        let n = seed_urls.len();
        let mut i: usize = 0;
        let mut seeds = seed_urls;
        while i < n
            invariant
                n == seed_urls@.len(),
                i + seeds@.len() == n,
                frontier@.len() == i,
                seeds@ =~= seed_urls@.subrange(i as int, n as int),
                forall|k: int|
                    0 <= k < i ==> #[trigger] frontier.deep_view()[k] == (UrlToVisitView {
                        url: seed_urls.deep_view()[k],
                        crawl_depth: 0u32,
                    }),
            decreases n - i,
        {
            let url = seeds.remove(0);
            proof {
                assert(url == seed_urls@[i as int]);
            }
            let ghost prev = frontier.deep_view();
            frontier.push(UrlToVisit { url, crawl_depth: 0 });
            proof {
                assert(seeds@ =~= seed_urls@.subrange(i + 1, n as int));
                assert(frontier.deep_view() =~= prev.push(
                    UrlToVisitView { url: url@, crawl_depth: 0u32 },
                ));
                assert(url@ == seed_urls.deep_view()[i as int]);
            }
            i = i + 1;
        }
        let c = Crawler { frontier, visited: Vec::new(), results: Vec::new(), max_depth };
        proof {
            assert(c.spec_visited() =~= Seq::<Seq<char>>::empty());
            assert(c.result_urls() =~= Seq::<Seq<char>>::empty());
        }
        c
    }

    /// Picks the next URL to fetch: repeatedly removes a minimum-depth
    /// frontier entry, discarding already-visited ones, and stops as soon as
    /// the minimum depth reaches `max_depth`. A returned entry always has
    /// depth strictly below `max_depth` (the crawl depth bound), an
    /// unvisited URL, came from the frontier, and its depth is a lower bound
    /// of everything still queued — so entries are processed in
    /// nondecreasing depth order. The frontier only ever loses entries here.
    #[verifier::loop_isolation(false)]
    pub fn next_to_fetch(&mut self) -> (r: Option<UrlToVisit>)
        requires
            old(self).wf(),
        ensures
            final(self).wf(),
            final(self).spec_results() == old(self).spec_results(),
            final(self).spec_visited() == old(self).spec_visited(),
            final(self).spec_max_depth() == old(self).spec_max_depth(),
            match r {
                Some(u) => {
                    &&& u.crawl_depth < old(self).spec_max_depth()
                    &&& !old(self).spec_visited().contains(u.url@)
                    &&& old(self).spec_frontier().contains(u@)
                    &&& final(self).spec_frontier().to_multiset().insert(u@).subset_of(
                        old(self).spec_frontier().to_multiset(),
                    )
                    &&& forall|k: int|
                        0 <= k < final(self).spec_frontier().len() ==> u.crawl_depth <= (
                        #[trigger] final(self).spec_frontier()[k]).crawl_depth
                },
                None => {
                    &&& final(self).spec_frontier().to_multiset().subset_of(
                        old(self).spec_frontier().to_multiset(),
                    )
                    &&& forall|k: int|
                        0 <= k < final(self).spec_frontier().len()
                            ==> (#[trigger] final(self).spec_frontier()[k]).crawl_depth
                            >= old(self).spec_max_depth()
                },
            },
    {
        proof {
            broadcast use vstd::seq_lib::group_to_multiset_ensures;

        }
        loop
            invariant
                self.wf(),
                self.spec_results() == old(self).spec_results(),
                self.spec_visited() == old(self).spec_visited(),
                self.spec_max_depth() == old(self).spec_max_depth(),
                self.spec_frontier().to_multiset().subset_of(
                    old(self).spec_frontier().to_multiset(),
                ),
            decreases self.frontier.len(),
        {
            if self.frontier.len() == 0 {
                return None;
            }
            // find the position of a minimum-depth entry
            let mut min_idx: usize = 0;
            let mut k: usize = 1;
            while k < self.frontier.len()
                invariant
                    min_idx < k,
                    k <= self.frontier@.len(),
                    self.frontier@.len() > 0,
                    forall|j: int|
                        0 <= j < k ==> self.frontier@[min_idx as int]@.crawl_depth
                            <= #[trigger] self.frontier@[j]@.crawl_depth,
                decreases self.frontier@.len() - k,
            {
                if self.frontier[k].crawl_depth < self.frontier[min_idx].crawl_depth {
                    min_idx = k;
                }
                k = k + 1;
            }
            if self.frontier[min_idx].crawl_depth >= self.max_depth {
                return None;
            }
            let ghost prevv = self.frontier@;
            let ghost pre_dv = self.frontier.deep_view();
            let entry = self.frontier.remove(min_idx);
            proof {
                broadcast use vstd::seq_lib::group_to_multiset_ensures;

                assert(self.frontier@ == prevv.remove(min_idx as int));
                assert forall|j: int| 0 <= j < self.frontier.deep_view().len() implies
                    #[trigger] self.frontier.deep_view()[j] == pre_dv.remove(min_idx as int)[j]
                    by {
                    if j < min_idx {
                        assert(self.frontier@[j] == prevv[j]);
                        assert(pre_dv.remove(min_idx as int)[j] == pre_dv[j]);
                    } else {
                        assert(self.frontier@[j] == prevv[j + 1]);
                        assert(pre_dv.remove(min_idx as int)[j] == pre_dv[j + 1]);
                    }
                }
                assert(self.frontier.deep_view() =~= pre_dv.remove(min_idx as int));
                assert(pre_dv.remove(min_idx as int).to_multiset() =~= pre_dv.to_multiset().remove(
                    pre_dv[min_idx as int],
                ));
                assert(pre_dv[min_idx as int] == entry@);
                assert(pre_dv.contains(entry@));
                assert(pre_dv.to_multiset().count(entry@) > 0);
                // removing then re-inserting the entry gives the pre-state back
                assert(self.spec_frontier().to_multiset().insert(entry@) =~= pre_dv.to_multiset());
                assert(old(self).spec_frontier().to_multiset().count(entry@) > 0);
                assert(old(self).spec_frontier().contains(entry@));
                // the removed entry's depth is minimal among what remains
                assert forall|j: int| 0 <= j < self.spec_frontier().len() implies
                    entry.crawl_depth <= (#[trigger] self.spec_frontier()[j]).crawl_depth by {
                    if j < min_idx {
                        assert(self.spec_frontier()[j] == prevv[j]@);
                    } else {
                        assert(self.spec_frontier()[j] == prevv[j + 1]@);
                    }
                }
            }
            if !contains_str(&self.visited, entry.url.as_str()) {
                return Some(entry);
            }
        }
    }

    /// Records a fetched page: extracts the outbound links from the body,
    /// queues them one level deeper, appends the result and marks the URL
    /// visited. A page whose URL was already visited, or whose depth is not
    /// below the bound, is ignored.
    #[verifier::loop_isolation(false)]
    pub fn record_fetch(&mut self, item: UrlToVisit, body: String)
        requires
            old(self).wf(),
        ensures
            final(self).wf(),
            final(self).spec_max_depth() == old(self).spec_max_depth(),
            old(self).spec_visited().contains(item.url@) || item.crawl_depth >= old(self).spec_max_depth() ==> {
                &&& final(self).spec_results() == old(self).spec_results()
                &&& final(self).spec_visited() == old(self).spec_visited()
                &&& final(self).spec_frontier() == old(self).spec_frontier()
            },
            !old(self).spec_visited().contains(item.url@) && item.crawl_depth < old(self).spec_max_depth() ==> {
                &&& final(self).spec_results() =~= old(self).spec_results().push(
                    CrawlResultView {
                        url: item.url@,
                        new_urls: links_of(body@),
                        body: body@,
                    },
                )
                &&& final(self).spec_visited() =~= old(self).spec_visited().push(item.url@)
                &&& final(self).spec_frontier() =~= old(self).spec_frontier() + Seq::new(
                    links_of(body@).len(),
                    |i: int| UrlToVisitView {
                        url: links_of(body@)[i],
                        crawl_depth: (item.crawl_depth + 1) as u32,
                    },
                )
            },
    {
        if item.crawl_depth >= self.max_depth {
            return ;
        }
        if contains_str(&self.visited, item.url.as_str()) {
            return ;
        }
        let new_depth: u32 = item.crawl_depth + 1;
        let links = extract_links(body.as_str());
        let mut queued: usize = 0;
        let n = links.len();
        let mut new_urls: Vec<String> = Vec::new();
        while queued < n
            invariant
                n == links_of(body@).len(),
                n == links@.len(),
                links.deep_view() == links_of(body@),
                queued <= n,
                new_urls.deep_view() =~= links_of(body@).take(queued as int),
                self.spec_frontier() =~= old(self).spec_frontier() + Seq::new(
                    queued as nat,
                    |i: int| UrlToVisitView { url: links_of(body@)[i], crawl_depth: new_depth },
                ),
                self.visited@ == old(self).visited@,
                self.results@ == old(self).results@,
                self.max_depth == old(self).max_depth,
            decreases n - queued,
        {
            let url = links[queued].clone();
            proof {
                assert(links.deep_view()[queued as int] == links_of(body@)[queued as int]);
                assert(url@ == links_of(body@)[queued as int]);
            }
            let ghost prev_nu = new_urls.deep_view();
            let ghost prev_fr = self.frontier.deep_view();
            new_urls.push(url.clone());
            self.frontier.push(UrlToVisit { url, crawl_depth: new_depth });
            proof {
                assert(new_urls.deep_view() =~= prev_nu.push(links_of(body@)[queued as int]));
                assert(new_urls.deep_view() =~= links_of(body@).take(queued + 1));
                assert(self.frontier.deep_view() =~= prev_fr.push(
                    UrlToVisitView {
                        url: links_of(body@)[queued as int],
                        crawl_depth: new_depth,
                    },
                ));
                assert(self.spec_frontier() =~= old(self).spec_frontier() + Seq::new(
                    (queued + 1) as nat,
                    |i: int| UrlToVisitView { url: links_of(body@)[i], crawl_depth: new_depth },
                ));
            }
            queued = queued + 1;
        }
        proof {
            assert(new_urls.deep_view() =~= links_of(body@));
        }
        let url_copy = item.url.clone();
        let ghost prev_res = self.results.deep_view();
        let ghost prev_vis = self.visited.deep_view();
        let ghost item_url: Seq<char> = item.url@;
        self.results.push(CrawlResult { url: item.url, new_urls, body });
        self.visited.push(url_copy);
        proof {
            assert(self.results.deep_view() =~= prev_res.push(
                CrawlResultView { url: item_url, new_urls: links_of(body@), body: body@ },
            ));
            assert(self.visited.deep_view() =~= prev_vis.push(item_url));
            assert forall|i: int| 0 <= i < self.results@.len() implies self.result_urls()[i]
                == self.spec_results()[i].url by {
                assert(self.result_urls()[i] == self.results@[i].url@);
                assert(self.spec_results()[i] == self.results@[i].deep_view());
            }
            assert(self.result_urls() =~= old(self).result_urls().push(item_url)) by {
                assert forall|i: int|
                    0 <= i < old(self).results@.len() implies #[trigger] self.result_urls()[i]
                    == old(self).result_urls()[i] by {
                    assert(self.results@[i] == old(self).results@[i]);
                }
                assert(self.result_urls()[self.results@.len() - 1] == item_url);
            }
        }
    }

    /// The results collected so far.
    pub fn results(&self) -> (r: &Vec<CrawlResult>)
        ensures
            r.deep_view() == self.spec_results(),
    {
        &self.results
    }

    /// Hands the collected results over, ending the crawl.
    pub fn into_results(self) -> (r: Vec<CrawlResult>)
        ensures
            r.deep_view() == self.spec_results(),
    {
        self.results
    }
}

} // verus!
