//! Turning crawled URLs into the confirmed list of product pages.

use vstd::prelude::*;

use crate::error::AppError;
use crate::text::views;
use crate::url_normalizer::{normalize_url, normalized};

verus! {

#[verifier::external_type_specification]
#[verifier::external_body]
pub struct ExRegex(regex::Regex);

#[verifier::external_type_specification]
#[verifier::external_body]
pub struct ExRegexError(regex::Error);

/// What a `regex::Regex` holds: the pattern it was compiled from, which
/// `Regex::as_str` gives back.
pub uninterp spec fn regex_pattern(re: regex::Regex) -> Seq<char>;

/// Whether `regex::Regex::new` accepts `pattern` (it refuses invalid syntax
/// and programs over its default size limit).
pub uninterp spec fn regex_compiles(pattern: Seq<char>) -> bool;

/// Whether the compiled regex `re` matches somewhere in `haystack`, as
/// `regex::Regex::is_match` answers it. The answer rests on the compiled
/// matcher that `re` holds, not on its pattern text alone (builder options
/// such as case-insensitivity change it).
pub uninterp spec fn regex_matches(re: regex::Regex, haystack: Seq<char>) -> bool;

/// Whether the regex that `regex::Regex::new` compiles from `pattern` (with
/// the default options) matches somewhere in `haystack`.
pub uninterp spec fn new_regex_matches(pattern: Seq<char>, haystack: Seq<char>) -> bool;

/// Calls `regex::Regex::new`: `Ok` exactly where the pattern compiles; the
/// regex holds that pattern and matches as the default-compiled regex of it.
#[verifier::external_body]
fn compile_regex(pattern: &str) -> (r: Result<regex::Regex, regex::Error>)
    ensures
        r is Ok <==> regex_compiles(pattern@),
        r matches Ok(re) ==> regex_pattern(re) == pattern@,
        r matches Ok(re) ==> forall|text: Seq<char>|
            #[trigger] regex_matches(re, text) == new_regex_matches(pattern@, text),
{
    regex::Regex::new(pattern)
}

/// Calls `regex::Regex::is_match`.
#[verifier::external_body]
fn regex_is_match(re: &regex::Regex, haystack: &str) -> (r: bool)
    ensures
        r == regex_matches(*re, haystack@),
{
    re.is_match(haystack)
}

/// Whether `url` is classified as a product page by `pattern`.
pub open spec fn pattern_accepts(pattern: Option<regex::Regex>, url: Seq<char>) -> bool {
    match pattern {
        Some(re) => regex_matches(re, url),
        None => false,
    }
}

/// The URLs of `urls` that `re` matches, in order.
pub open spec fn matching(re: regex::Regex, urls: Seq<Seq<char>>) -> Seq<Seq<char>>
    decreases urls.len(),
{
    if urls.len() == 0 {
        Seq::empty()
    } else if regex_matches(re, urls.last()) {
        matching(re, urls.drop_last()).push(urls.last())
    } else {
        matching(re, urls.drop_last())
    }
}

/// `s` with every element after its first occurrence removed.
pub open spec fn first_occurrences(s: Seq<Seq<char>>) -> Seq<Seq<char>>
    decreases s.len(),
{
    if s.len() == 0 {
        Seq::empty()
    } else {
        let d = first_occurrences(s.drop_last());
        if d.contains(s.last()) {
            d
        } else {
            d.push(s.last())
        }
    }
}

/// The canonical forms of `urls`, in order.
pub open spec fn normalized_all(urls: Seq<Seq<char>>) -> Seq<Seq<char>> {
    urls.map_values(|u: Seq<char>| normalized(u))
}

/// The canonical forms of `urls`, each once, in order of first appearance.
pub open spec fn deduped(urls: Seq<Seq<char>>) -> Seq<Seq<char>> {
    first_occurrences(normalized_all(urls))
}

/// The candidates before deduplication: the URLs that the pattern matches,
/// or the heuristic results where there is no pattern.
pub open spec fn candidates(
    pattern: Option<regex::Regex>,
    all_urls: Seq<Seq<char>>,
    heuristic_products: Seq<Seq<char>>,
) -> Seq<Seq<char>> {
    match pattern {
        Some(re) => matching(re, all_urls),
        None => heuristic_products,
    }
}

/// The reason given when no candidate is left.
pub open spec fn no_products_reason(pattern_given: bool) -> Seq<char> {
    if pattern_given {
        "Gemini pattern matched 0 URLs"@
    } else {
        "Heuristic engine found 0 product pages"@
    }
}

/// Classifies a single URL against a pattern: whether the pattern matches
/// it; without a pattern no URL is classified a product page (the caller
/// falls back to heuristics).
pub fn classify_url(pattern: &Option<regex::Regex>, url: &str) -> (r: bool)
    ensures
        r == pattern_accepts(*pattern, url@),
{
    match pattern {
        Some(re) => regex_is_match(re, url),
        None => false,
    }
}

/// Deduplicates URLs by canonical key and returns the canonical forms, each
/// once, in order of first appearance.
pub fn dedupe_urls(urls: Vec<String>) -> (r: Vec<String>)
    ensures
        views(r@) == deduped(views(urls@)),
{
    let mut unique: Vec<String> = Vec::new();
    let n = urls.len();
    let mut i: usize = 0;
    while i < n
        invariant
            n == urls.len(),
            i <= n,
            views(unique@) == first_occurrences(normalized_all(views(urls@).take(i as int))),
        decreases n - i,
    {
        let key = normalize_url(urls[i].as_str());
        let ghost prefix = views(urls@).take(i as int);
        let ghost next = views(urls@).take(i + 1);
        proof {
            assert(next.drop_last() =~= prefix);
            assert(normalized_all(next).drop_last() =~= normalized_all(prefix));
            assert(normalized_all(next).last() == key@);
        }
        let mut seen = false;
        let m = unique.len();
        let mut k: usize = 0;
        while k < m
            invariant
                m == unique.len(),
                k <= m,
                seen == exists|j: int| 0 <= j < k && unique@[j]@ == key@,
            decreases m - k,
        {
            if unique[k] == key {
                seen = true;
            }
            k = k + 1;
        }
        proof {
            let d = views(unique@);
            if seen {
                let j = choose|j: int| 0 <= j < m && unique@[j]@ == key@;
                assert(d[j] == key@);
            } else {
                assert forall|j: int| 0 <= j < d.len() implies d[j] != key@ by {
                    assert(d[j] == unique@[j]@);
                }
            }
        }
        if !seen {
            let ghost before = unique@;
            unique.push(key);
            proof {
                assert(views(unique@) =~= views(before).push(key@));
            }
        }
        i = i + 1;
    }
    proof {
        assert(views(urls@).take(n as int) =~= views(urls@));
    }
    unique
}


/// Copies of `urls`.
fn copy_all(urls: &[String]) -> (r: Vec<String>)
    ensures
        views(r@) == views(urls@),
{
    let mut out: Vec<String> = Vec::new();
    let n = urls.len();
    let mut i: usize = 0;
    while i < n
        invariant
            n == urls@.len(),
            i <= n,
            views(out@) == views(urls@).take(i as int),
        decreases n - i,
    {
        let ghost before = out@;
        out.push(urls[i].clone());
        proof {
            assert(views(out@) =~= views(before).push(urls@[i as int]@));
            assert(views(urls@).take(i + 1) =~= views(urls@).take(i as int).push(
                urls@[i as int]@,
            ));
        }
        i = i + 1;
    }
    proof {
        assert(views(urls@).take(n as int) =~= views(urls@));
    }
    out
}

/// The URLs of `urls` that `re` matches, in order.
fn matching_urls(re: &regex::Regex, urls: &[String]) -> (r: Vec<String>)
    ensures
        views(r@) == matching(*re, views(urls@)),
{
    let mut out: Vec<String> = Vec::new();
    let n = urls.len();
    let mut i: usize = 0;
    while i < n
        invariant
            n == urls@.len(),
            i <= n,
            views(out@) == matching(*re, views(urls@).take(i as int)),
        decreases n - i,
    {
        let ghost prefix = views(urls@).take(i as int);
        let ghost next = views(urls@).take(i + 1);
        proof {
            assert(next.drop_last() =~= prefix);
            assert(next.last() == urls@[i as int]@);
        }
        if regex_is_match(re, urls[i].as_str()) {
            let ghost before = out@;
            out.push(urls[i].clone());
            proof {
                assert(views(out@) =~= views(before).push(urls@[i as int]@));
            }
        }
        i = i + 1;
    }
    proof {
        assert(views(urls@).take(n as int) =~= views(urls@));
    }
    out
}

/// Applies the pattern to all URLs (or, without a pattern, takes the
/// heuristic results) and returns the confirmed product pages, normalized and
/// deduplicated. Fails with `NoProducts` exactly when no candidate is left.
pub fn apply_strategy(
    pattern: &Option<regex::Regex>,
    all_urls: &[String],
    heuristic_products: &[String],
) -> (r: Result<Vec<String>, AppError>)
    ensures
        r is Err <==> candidates(*pattern, views(all_urls@), views(heuristic_products@)).len()
            == 0,
        r matches Err(e) ==> (e matches AppError::NoProducts(reason) && reason@
            == no_products_reason(pattern is Some)),
        r matches Ok(v) ==> views(v@) == deduped(
            candidates(*pattern, views(all_urls@), views(heuristic_products@)),
        ),
{
    let found = match pattern {
        Some(re) => matching_urls(re, all_urls),
        None => copy_all(heuristic_products),
    };
    if found.len() == 0 {
        let reason = if pattern.is_some() {
            String::from_str("Gemini pattern matched 0 URLs")
        } else {
            String::from_str("Heuristic engine found 0 product pages")
        };
        return Err(AppError::NoProducts(reason));
    }
    Ok(dedupe_urls(found))
}

/// The pattern that a Gemini reply yields: a reply pattern that compiles
/// becomes the regex; one that does not compile, or no pattern, yields
/// `None`; an error is passed on.
pub fn compile_gemini_pattern(reply: Result<Option<String>, AppError>) -> (r: Result<
    Option<regex::Regex>,
    AppError,
>)
    ensures
        reply matches Err(e) ==> r == Err::<Option<regex::Regex>, AppError>(e),
        reply matches Ok(None) ==> r == Ok::<Option<regex::Regex>, AppError>(None),
        reply matches Ok(Some(p)) ==> {
            &&& r is Ok
            &&& (r->Ok_0 is Some <==> regex_compiles(p@))
            &&& (r matches Ok(Some(re)) ==> regex_pattern(re) == p@)
            &&& (r matches Ok(Some(re)) ==> forall|text: Seq<char>|
                #[trigger] regex_matches(re, text) == new_regex_matches(p@, text))
        },
{
    match reply {
        Err(e) => Err(e),
        Ok(None) => Ok(None),
        Ok(Some(p)) => match compile_regex(p.as_str()) {
            Ok(re) => Ok(Some(re)),
            Err(_) => Ok(None),
        },
    }
}


proof fn lemma_first_occurrences_members(s: Seq<Seq<char>>)
    ensures
        forall|x: Seq<char>| first_occurrences(s).contains(x) <==> s.contains(x),
        first_occurrences(s).no_duplicates(),
        s.len() > 0 ==> first_occurrences(s).len() > 0,
    decreases s.len(),
{
    if s.len() > 0 {
        let p = s.drop_last();
        lemma_first_occurrences_members(p);
        let d = first_occurrences(p);
        assert forall|x: Seq<char>| first_occurrences(s).contains(x) <==> s.contains(x) by {
            if s.contains(x) {
                let i = choose|i: int| 0 <= i < s.len() && s[i] == x;
                if i < s.len() - 1 {
                    assert(p[i] == x);
                }
            }
            if p.contains(x) {
                let i = choose|i: int| 0 <= i < p.len() && p[i] == x;
                assert(s[i] == x);
            }
            if first_occurrences(s).contains(x) && !d.contains(x) {
                assert(x == s.last());
            }
            if d.contains(x) {
                let i = choose|i: int| 0 <= i < d.len() && d[i] == x;
                if !d.contains(s.last()) {
                    assert(d.push(s.last())[i] == x);
                }
            }
            if x == s.last() && !d.contains(s.last()) {
                assert(d.push(s.last())[d.len() as int] == x);
            }
        }
        if !d.contains(s.last()) {
            let e = d.push(s.last());
            assert forall|i: int, j: int| 0 <= i < e.len() && 0 <= j < e.len() && i != j implies e[i]
                != e[j] by {
                if i < d.len() && j < d.len() {
                } else if i < d.len() {
                    assert(d.contains(e[i]));
                } else {
                    assert(d.contains(e[j]));
                }
            }
        }
    }
}

proof fn lemma_first_occurrences_distinct_fixed(s: Seq<Seq<char>>)
    requires
        s.no_duplicates(),
    ensures
        first_occurrences(s) == s,
    decreases s.len(),
{
    if s.len() > 0 {
        let p = s.drop_last();
        assert(p.no_duplicates());
        lemma_first_occurrences_distinct_fixed(p);
        assert(!p.contains(s.last())) by {
            if p.contains(s.last()) {
                let i = choose|i: int| 0 <= i < p.len() && p[i] == s.last();
                assert(s[i] == s[s.len() - 1]);
            }
        }
        assert(p.push(s.last()) =~= s);
    }
}

/// Deduplication leaves each canonical URL once: no two confirmed URLs are equal.
pub proof fn law_deduped_distinct(urls: Seq<Seq<char>>)
    ensures
        deduped(urls).no_duplicates(),
{
    lemma_first_occurrences_members(normalized_all(urls));
}

proof fn lemma_first_occurrences_order(s: Seq<Seq<char>>, j: int, k: int, i: int)
    requires
        0 <= j < k < first_occurrences(s).len(),
        0 <= i < s.len(),
        s[i] == first_occurrences(s)[k],
    ensures
        exists|h: int| 0 <= h < i && #[trigger] s[h] == first_occurrences(s)[j],
    decreases s.len(),
{
    let p = s.drop_last();
    lemma_first_occurrences_members(p);
    let d = first_occurrences(p);
    assert(j < d.len());
    assert(first_occurrences(s)[j] == d[j]);
    assert(d.contains(d[j]));
    assert(p.contains(d[j]));
    if i == s.len() - 1 {
        let h0 = choose|h: int| 0 <= h < p.len() && p[h] == d[j];
        assert(s[h0] == p[h0]);
    } else {
        assert(p[i] == s[i]);
        if k < d.len() {
            assert(first_occurrences(s)[k] == d[k]);
            lemma_first_occurrences_order(p, j, k, i);
            let h = choose|h: int| 0 <= h < i && #[trigger] p[h] == d[j];
            assert(s[h] == p[h]);
        } else {
            assert(first_occurrences(s)[k] == s.last());
            assert(p.contains(s[i]));
            assert(d.contains(s.last()));
        }
    }
}

/// Deduplication keeps the order of first appearance: of two confirmed URLs,
/// the earlier one first appears (as a canonical form) before every
/// appearance of the later one.
pub proof fn law_deduped_first_appearance_order(urls: Seq<Seq<char>>, j: int, k: int, i: int)
    requires
        0 <= j < k < deduped(urls).len(),
        0 <= i < urls.len(),
        normalized(urls[i]) == deduped(urls)[k],
    ensures
        exists|h: int| 0 <= h < i && #[trigger] normalized(urls[h]) == deduped(urls)[j],
{
    let n = normalized_all(urls);
    assert(n[i] == normalized(urls[i]));
    lemma_first_occurrences_order(n, j, k, i);
    assert(n[i] == deduped(urls)[k]);
    assert(first_occurrences(n)[j] == deduped(urls)[j]);
    let h = choose|h: int| 0 <= h < i && #[trigger] n[h] == first_occurrences(n)[j];
    assert(normalized(urls[h]) == deduped(urls)[j]);
}

/// Deduplication loses no page and invents none: a URL is in the result
/// exactly when it is the canonical form of some input URL.
pub proof fn law_deduped_members(urls: Seq<Seq<char>>, x: Seq<char>)
    ensures
        deduped(urls).contains(x) <==> exists|i: int| 0 <= i < urls.len() && #[trigger] normalized(
            urls[i],
        ) == x,
{
    lemma_first_occurrences_members(normalized_all(urls));
    let n = normalized_all(urls);
    if n.contains(x) {
        let i = choose|i: int| 0 <= i < n.len() && n[i] == x;
        assert(normalized(urls[i]) == x);
    }
    if exists|i: int| 0 <= i < urls.len() && #[trigger] normalized(urls[i]) == x {
        let i = choose|i: int| 0 <= i < urls.len() && #[trigger] normalized(urls[i]) == x;
        assert(n[i] == x);
    }
}

/// Removing repeats from an already deduplicated list changes nothing.
pub proof fn law_deduped_stable(urls: Seq<Seq<char>>)
    ensures
        first_occurrences(deduped(urls)) == deduped(urls),
{
    law_deduped_distinct(urls);
    lemma_first_occurrences_distinct_fixed(deduped(urls));
}

/// Every URL that a pattern lets through is a URL the pattern classifies as
/// a product page, and no such URL is dropped.
pub proof fn law_matching_is_classified(re: regex::Regex, urls: Seq<Seq<char>>, x: Seq<char>)
    ensures
        matching(re, urls).contains(x) <==> (urls.contains(x) && pattern_accepts(Some(re), x)),
    decreases urls.len(),
{
    if urls.len() > 0 {
        let p = urls.drop_last();
        law_matching_is_classified(re, p, x);
        let m = matching(re, p);
        if urls.contains(x) {
            let i = choose|i: int| 0 <= i < urls.len() && urls[i] == x;
            if i < urls.len() - 1 {
                assert(p[i] == x);
            }
        }
        if p.contains(x) {
            let i = choose|i: int| 0 <= i < p.len() && p[i] == x;
            assert(urls[i] == x);
        }
        if m.contains(x) && regex_matches(re, urls.last()) {
            let i = choose|i: int| 0 <= i < m.len() && m[i] == x;
            assert(m.push(urls.last())[i] == x);
        }
        if regex_matches(re, urls.last()) {
            assert(m.push(urls.last())[m.len() as int] == urls.last());
            if matching(re, urls).contains(x) && !m.contains(x) {
                let i = choose|i: int| 0 <= i < m.len() + 1 && m.push(urls.last())[i] == x;
                assert(i == m.len());
            }
        }
    }
}

/// A successful strategy never returns an empty list, and never the same
/// page twice.
pub proof fn law_confirmed_products_nonempty_distinct(
    pattern: Option<regex::Regex>,
    all_urls: Seq<Seq<char>>,
    heuristic_products: Seq<Seq<char>>,
)
    requires
        candidates(pattern, all_urls, heuristic_products).len() > 0,
    ensures
        deduped(candidates(pattern, all_urls, heuristic_products)).len() > 0,
        deduped(candidates(pattern, all_urls, heuristic_products)).no_duplicates(),
{
    lemma_first_occurrences_members(
        normalized_all(candidates(pattern, all_urls, heuristic_products)),
    );
}

/// What the confirmed product pages are, from the inputs alone: with a
/// pattern, exactly the canonical forms of the URLs of `all_urls` (at any
/// index) that the pattern matches; without one, exactly the canonical forms
/// of the heuristic results.
pub proof fn law_confirmed_products_members(
    pattern: Option<regex::Regex>,
    all_urls: Seq<Seq<char>>,
    heuristic_products: Seq<Seq<char>>,
    x: Seq<char>,
)
    ensures
        deduped(candidates(pattern, all_urls, heuristic_products)).contains(x) <==> match pattern {
            Some(re) => exists|i: int|
                0 <= i < all_urls.len() && regex_matches(re, all_urls[i]) && #[trigger] normalized(
                    all_urls[i],
                ) == x,
            None => exists|i: int|
                0 <= i < heuristic_products.len() && #[trigger] normalized(heuristic_products[i])
                    == x,
        },
{
    let c = candidates(pattern, all_urls, heuristic_products);
    law_deduped_members(c, x);
    match pattern {
        Some(re) => {
            if exists|i: int| 0 <= i < c.len() && #[trigger] normalized(c[i]) == x {
                let i = choose|i: int| 0 <= i < c.len() && #[trigger] normalized(c[i]) == x;
                assert(c.contains(c[i]));
                law_matching_is_classified(re, all_urls, c[i]);
                let j = choose|j: int| 0 <= j < all_urls.len() && all_urls[j] == c[i];
                assert(regex_matches(re, all_urls[j]) && normalized(all_urls[j]) == x);
            }
            if exists|j: int|
                0 <= j < all_urls.len() && regex_matches(re, all_urls[j]) && #[trigger] normalized(
                    all_urls[j],
                ) == x {
                let j = choose|j: int|
                    0 <= j < all_urls.len() && regex_matches(re, all_urls[j]) && #[trigger] normalized(
                        all_urls[j],
                    ) == x;
                assert(all_urls.contains(all_urls[j]));
                law_matching_is_classified(re, all_urls, all_urls[j]);
                let i = choose|i: int| 0 <= i < c.len() && c[i] == all_urls[j];
                assert(normalized(c[i]) == x);
            }
        },
        None => {},
    }
}

/// Without a pattern, no URL is classified a product page.
pub proof fn law_no_pattern_accepts_nothing(url: Seq<char>)
    ensures
        !pattern_accepts(None, url),
{
}

} // verus!
