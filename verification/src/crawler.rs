//! The decisions of the crawl collector: which crawled pages are passed on.

use vstd::prelude::*;

use crate::classifier::{deduped, law_deduped_distinct, law_deduped_members, normalized_all};
use crate::text::views;
use crate::url_normalizer::{normalize_url, normalized};

verus! {

/// A single crawled page with its normalized URL.
pub struct CrawledPage {
    pub url: String,
}

/// What the crawl stream delivers to the collector.
pub enum CrawlEvent {
    /// A crawled page, by its raw URL.
    Page(String),
    /// The stream fell behind and dropped this many pages.
    Lagged(u64),
    /// The crawl has finished.
    Closed,
}

/// What the collector does with an event.
pub enum CrawlAction {
    /// Pass this page on to the consumer.
    Forward(CrawledPage),
    /// Nothing to pass on; keep listening.
    Skip,
    /// The crawl is over; stop listening.
    Stop,
}

/// The collector's memory: the canonical URLs already passed on.
pub struct CrawlDeduplicator {
    seen: Vec<String>,
}

/// The canonical URLs seen after a page with URL `raw`, given those seen before.
pub open spec fn seen_after(seen: Seq<Seq<char>>, raw: Seq<char>) -> Seq<Seq<char>> {
    if seen.contains(normalized(raw)) {
        seen
    } else {
        seen.push(normalized(raw))
    }
}

impl CrawlDeduplicator {
    /// The canonical URLs passed on so far, in order.
    pub closed spec fn seen(&self) -> Seq<Seq<char>> {
        views(self.seen@)
    }

    /// A collector that has passed nothing on.
    pub fn new() -> (r: CrawlDeduplicator)
        ensures
            r.seen() == Seq::<Seq<char>>::empty(),
    {
        let r = CrawlDeduplicator { seen: Vec::new() };
        assert(r.seen() =~= Seq::<Seq<char>>::empty());
        r
    }

    /// Takes in a crawled page: its canonical URL is passed on the first time
    /// it is seen, and never again.
    pub fn observe(&mut self, raw_url: &str) -> (r: Option<CrawledPage>)
        ensures
            final(self).seen() == seen_after(old(self).seen(), raw_url@),
            r is Some <==> !old(self).seen().contains(normalized(raw_url@)),
            r matches Some(page) ==> page.url@ == normalized(raw_url@),
    {
        let key = normalize_url(raw_url);
        let m = self.seen.len();
        let mut k: usize = 0;
        while k < m
            invariant
                *self == *old(self),
                key@ == normalized(raw_url@),
                m == self.seen@.len(),
                k <= m,
                forall|j: int| 0 <= j < k ==> self.seen@[j]@ != key@,
            decreases m - k,
        {
            if self.seen[k] == key {
                proof {
                    assert(self.seen()[k as int] == key@);
                    assert(self.seen().contains(key@));
                }
                return None;
            }
            k = k + 1;
        }
        proof {
            assert forall|j: int| 0 <= j < self.seen().len() implies self.seen()[j] != key@ by {
                assert(self.seen()[j] == self.seen@[j]@);
            }
        }
        let ghost before = self.seen@;
        self.seen.push(key.clone());
        proof {
            assert(views(self.seen@) =~= views(before).push(key@));
        }
        Some(CrawledPage { url: key })
    }

    /// Decides what to do with one event of the crawl stream: pages are
    /// deduplicated by canonical URL, a lag is skipped, and the end of the
    /// stream stops the collector.
    pub fn step(&mut self, event: CrawlEvent) -> (r: CrawlAction)
        ensures
            match event {
                CrawlEvent::Page(raw) => {
                    &&& final(self).seen() == seen_after(old(self).seen(), raw@)
                    &&& (r is Forward <==> !old(self).seen().contains(normalized(raw@)))
                    &&& (r is Skip <==> old(self).seen().contains(normalized(raw@)))
                    &&& (r matches CrawlAction::Forward(page) ==> page.url@ == normalized(raw@))
                },
                _ => {
                    &&& final(self).seen() == old(self).seen()
                    &&& (r is Stop <==> event is Closed)
                    &&& (r is Skip <==> event is Lagged)
                },
            },
    {
        match event {
            CrawlEvent::Page(raw) => match self.observe(raw.as_str()) {
                Some(page) => CrawlAction::Forward(page),
                None => CrawlAction::Skip,
            },
            CrawlEvent::Lagged(_) => CrawlAction::Skip,
            CrawlEvent::Closed => CrawlAction::Stop,
        }
    }
}

/// The collector passes on exactly what deduplicating the whole stream of
/// crawled URLs gives: after a stream `history`, the URLs passed on are
/// `deduped(history)`, and the next page extends that the same way.
pub proof fn law_collector_is_dedupe(history: Seq<Seq<char>>, raw: Seq<char>)
    ensures
        seen_after(deduped(history), raw) == deduped(history.push(raw)),
{
    assert(normalized_all(history.push(raw)).drop_last() =~= normalized_all(history));
    assert(normalized_all(history.push(raw)).last() == normalized(raw));
}

/// A fresh collector has passed nothing on, which is what deduplicating an
/// empty stream gives.
pub proof fn law_collector_starts_empty()
    ensures
        deduped(Seq::<Seq<char>>::empty()) == Seq::<Seq<char>>::empty(),
{
    assert(normalized_all(Seq::<Seq<char>>::empty()) =~= Seq::<Seq<char>>::empty());
}


/// What a fresh collector remembers after taking in the pages of `stream`,
/// one `observe` at a time.
pub open spec fn memory_after(stream: Seq<Seq<char>>) -> Seq<Seq<char>>
    decreases stream.len(),
{
    if stream.len() == 0 {
        Seq::empty()
    } else {
        seen_after(memory_after(stream.drop_last()), stream.last())
    }
}

/// The pages a fresh collector passes on for `stream`, in order: at each
/// page, its canonical URL where the collector did not remember it yet.
pub open spec fn forwarded(stream: Seq<Seq<char>>) -> Seq<Seq<char>>
    decreases stream.len(),
{
    if stream.len() == 0 {
        Seq::empty()
    } else {
        let before = forwarded(stream.drop_last());
        if memory_after(stream.drop_last()).contains(normalized(stream.last())) {
            before
        } else {
            before.push(normalized(stream.last()))
        }
    }
}

proof fn lemma_stream(stream: Seq<Seq<char>>)
    ensures
        memory_after(stream) == deduped(stream),
        forwarded(stream) == deduped(stream),
    decreases stream.len(),
{
    if stream.len() == 0 {
        law_collector_starts_empty();
    } else {
        let p = stream.drop_last();
        lemma_stream(p);
        law_collector_is_dedupe(p, stream.last());
        assert(p.push(stream.last()) =~= stream);
    }
}

/// Over a whole crawl, the pages passed on are exactly the deduplicated
/// stream: pairwise distinct, each the canonical form of some crawled URL,
/// every crawled URL's canonical form among them, in order of first
/// appearance (`deduped` keeps that order); and the collector's memory is
/// the same list.
pub proof fn law_crawl_stream(stream: Seq<Seq<char>>)
    ensures
        forwarded(stream) == deduped(stream),
        memory_after(stream) == forwarded(stream),
        forwarded(stream).no_duplicates(),
        forall|x: Seq<char>|
            #[trigger] forwarded(stream).contains(x) <==> exists|i: int|
                0 <= i < stream.len() && #[trigger] normalized(stream[i]) == x,
{
    lemma_stream(stream);
    law_deduped_distinct(stream);
    assert forall|x: Seq<char>|
        #[trigger] forwarded(stream).contains(x) <==> exists|i: int|
            0 <= i < stream.len() && #[trigger] normalized(stream[i]) == x by {
        law_deduped_members(stream, x);
    }
}

} // verus!
