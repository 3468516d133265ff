//! The decisions of the crawl loop: collecting URLs, classifying once when
//! enough have come in, and what the final strategy is given.

use vstd::prelude::*;

use crate::classifier::{apply_strategy, candidates, classify_url, deduped, matching, no_products_reason};
use crate::error::AppError;
use crate::text::views;

verus! {

/// The page count at which the one-time classification happens: the
/// threshold, but never before the first page.
pub open spec fn classify_at(threshold: usize) -> nat {
    if threshold == 0 {
        1
    } else {
        threshold as nat
    }
}

/// What the crawl loop has gathered: every URL received, the URLs that the
/// heuristics flagged, whether the one-time classification has happened, and
/// the pattern it gave.
pub struct CollectionState {
    all_urls: Vec<String>,
    heuristic_products: Vec<String>,
    classified: bool,
    threshold: usize,
    pattern: Option<regex::Regex>,
}

impl CollectionState {
    /// Every URL received, in order.
    pub closed spec fn urls(&self) -> Seq<Seq<char>> {
        views(self.all_urls@)
    }

    /// The URLs that the heuristics flagged (since the last pattern, if any).
    pub closed spec fn heuristics(&self) -> Seq<Seq<char>> {
        views(self.heuristic_products@)
    }

    /// Whether the one-time classification has happened.
    pub closed spec fn is_classified(&self) -> bool {
        self.classified
    }

    /// The number of URLs to collect before classifying.
    pub closed spec fn classify_threshold(&self) -> usize {
        self.threshold
    }

    /// The pattern that the classification gave, if any.
    pub closed spec fn current_pattern(&self) -> Option<regex::Regex> {
        self.pattern
    }

    /// The classification has happened exactly when enough URLs have come in.
    pub closed spec fn wf(&self) -> bool {
        self.classified == (self.all_urls@.len() >= classify_at(self.threshold))
    }

    /// Nothing gathered yet, classification pending at `threshold` URLs.
    pub fn new(threshold: usize) -> (r: CollectionState)
        ensures
            r.wf(),
            r.urls() == Seq::<Seq<char>>::empty(),
            r.heuristics() == Seq::<Seq<char>>::empty(),
            !r.is_classified(),
            r.classify_threshold() == threshold,
            r.current_pattern() is None,
    {
        let r = CollectionState {
            all_urls: Vec::new(),
            heuristic_products: Vec::new(),
            classified: false,
            threshold,
            pattern: None,
        };
        assert(r.urls() =~= Seq::<Seq<char>>::empty());
        assert(r.heuristics() =~= Seq::<Seq<char>>::empty());
        r
    }

    /// Takes in a crawled page. Returns whether the one-time classification
    /// is due now: exactly at the page that brings the count of URLs to the
    /// threshold (to one where the threshold is zero), and at no other page.
    pub fn on_page(&mut self, url: String, is_heuristic_product: bool) -> (classify_now: bool)
        requires
            old(self).wf(),
        ensures
            final(self).wf(),
            final(self).urls() == old(self).urls().push(url@),
            final(self).heuristics() == (if is_heuristic_product {
                old(self).heuristics().push(url@)
            } else {
                old(self).heuristics()
            }),
            classify_now == (!old(self).is_classified() && final(self).urls().len()
                >= old(self).classify_threshold()),
            classify_now == (final(self).urls().len() == classify_at(old(self).classify_threshold())),
            final(self).is_classified() == (old(self).is_classified() || classify_now),
            final(self).classify_threshold() == old(self).classify_threshold(),
            final(self).current_pattern() == old(self).current_pattern(),
    {
        let ghost before_urls = self.all_urls@;
        let ghost before_heuristics = self.heuristic_products@;
        if is_heuristic_product {
            self.heuristic_products.push(url.clone());
        }
        self.all_urls.push(url);
        let classify_now = !self.classified && self.all_urls.len() >= self.threshold;
        self.classified = self.classified || classify_now;
        proof {
            assert(views(self.all_urls@) =~= views(before_urls).push(url@));
            if is_heuristic_product {
                assert(views(self.heuristic_products@) =~= views(before_heuristics).push(url@));
            }
        }
        classify_now
    }

    /// Takes in what the classification gave. A pattern replaces the
    /// heuristic results, which are dropped; without one they are kept.
    pub fn on_pattern(&mut self, pattern: Option<regex::Regex>)
        requires
            old(self).wf(),
        ensures
            final(self).wf(),
            final(self).urls() == old(self).urls(),
            final(self).current_pattern() == pattern,
            final(self).is_classified() == old(self).is_classified(),
            final(self).classify_threshold() == old(self).classify_threshold(),
            pattern is Some ==> final(self).heuristics() == Seq::<Seq<char>>::empty(),
            pattern is None ==> final(self).heuristics() == old(self).heuristics(),
    {
        if pattern.is_some() {
            self.heuristic_products = Vec::new();
            assert(self.heuristics() =~= Seq::<Seq<char>>::empty());
        }
        self.pattern = pattern;
    }

    /// Whether the one-time classification has happened.
    pub fn classified(&self) -> (r: bool)
        ensures
            r == self.is_classified(),
    {
        self.classified
    }

    /// Every URL received, in order.
    pub fn all_urls(&self) -> (r: &[String])
        ensures
            views(r@) == self.urls(),
    {
        self.all_urls.as_slice()
    }

    /// The URLs that the heuristics flagged.
    pub fn heuristic_products(&self) -> (r: &[String])
        ensures
            views(r@) == self.heuristics(),
    {
        self.heuristic_products.as_slice()
    }

    /// The pattern that the classification gave.
    pub fn pattern(&self) -> (r: &Option<regex::Regex>)
        ensures
            *r == self.current_pattern(),
    {
        &self.pattern
    }

    /// How many product pages are known so far: the URLs that the pattern
    /// matches, or, without a pattern, the heuristic results.
    pub fn products_so_far(&self) -> (r: usize)
        ensures
            r == match self.current_pattern() {
                Some(re) => matching(re, self.urls()).len(),
                None => self.heuristics().len(),
            },
    {
        match &self.pattern {
            None => self.heuristic_products.len(),
            Some(re) => {
                let n = self.all_urls.len();
                let mut count: usize = 0;
                let mut i: usize = 0;
                while i < n
                    invariant
                        n == self.all_urls@.len(),
                        self.pattern == Some(*re),
                        i <= n,
                        count == matching(*re, views(self.all_urls@).take(i as int)).len(),
                        count <= i,
                    decreases n - i,
                {
                    let ghost next = views(self.all_urls@).take(i + 1);
                    proof {
                        assert(next.drop_last() =~= views(self.all_urls@).take(i as int));
                        assert(next.last() == self.all_urls@[i as int]@);
                    }
                    if classify_url(&self.pattern, self.all_urls[i].as_str()) {
                        count = count + 1;
                    }
                    i = i + 1;
                }
                proof {
                    assert(views(self.all_urls@).take(n as int) =~= views(self.all_urls@));
                }
                count
            },
        }
    }

    /// The final strategy, on what was gathered: the confirmed product
    /// pages, as `apply_strategy` gives them for the pattern, every URL
    /// received and the heuristic results.
    pub fn finish(&self) -> (r: Result<Vec<String>, AppError>)
        ensures
            r is Err <==> candidates(self.current_pattern(), self.urls(), self.heuristics()).len()
                == 0,
            r matches Err(e) ==> (e matches AppError::NoProducts(reason) && reason@
                == no_products_reason(self.current_pattern() is Some)),
            r matches Ok(v) ==> views(v@) == deduped(
                candidates(self.current_pattern(), self.urls(), self.heuristics()),
            ),
    {
        apply_strategy(&self.pattern, self.all_urls.as_slice(), self.heuristic_products.as_slice())
    }
}

/// What `on_page` answers at each of the first `n` pages taken in by a new
/// state: page `k + 1` triggers the classification exactly when its count
/// reaches the classification point (as `on_page` ensures).
pub open spec fn trigger_pages(threshold: usize, n: nat) -> Seq<bool> {
    Seq::new(n, |k: int| k + 1 == classify_at(threshold))
}

/// The classification happens once: among the first `n` pages, no two
/// trigger it, and one does exactly when `n` reaches the classification point.
pub proof fn law_classify_exactly_once(threshold: usize, n: nat)
    ensures
        forall|j: int, k: int|
            0 <= j < n && 0 <= k < n && #[trigger] trigger_pages(threshold, n)[j]
                && #[trigger] trigger_pages(threshold, n)[k] ==> j == k,
        (exists|k: int| 0 <= k < n && #[trigger] trigger_pages(threshold, n)[k]) <==> n
            >= classify_at(threshold),
{
    if n >= classify_at(threshold) {
        let k = classify_at(threshold) - 1;
        assert(trigger_pages(threshold, n)[k]);
    }
}

} // verus!
