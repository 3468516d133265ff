//! Keyword heuristics that recognise a product page from its HTML.

use vstd::prelude::*;

use crate::text::{chars_of, contains, contains_chars};

verus! {

/// Keywords that indicate product availability / purchase intent.
pub const AVAILABILITY_HEURISTICS: [&'static str; 21] = [
    // German
    "in den warenkorb",
    "in den einkaufswagen",
    "jetzt kaufen",
    "bestellen",
    "verfügbar",
    "lieferbar",
    "vorrätig",
    // English
    "add to cart",
    "add to basket",
    "buy now",
    "order now",
    "in stock",
    "purchase",
    "add to bag",
    // Auction-specific
    "place bid",
    "bid now",
    "register to bid",
    "view lot",
    "price realized",
    "sold for",
    "starting bid",
];

/// Keywords that indicate product detail content.
pub const DETAILS_HEURISTICS: [&'static str; 17] = [
    // German
    "produktbeschreibung",
    "produktdetails",
    "produktinformationen",
    "technische daten",
    "spezifikationen",
    "maße",
    "beschribung",
    // English
    "product description",
    "product details",
    "product information",
    "technical specifications",
    // Auction-specific
    "provenance",
    "condition report",
    "lot details",
    "estimate",
    "dimensions",
    "signed and dated",
];

/// What `str::to_lowercase` makes of `s` (the Unicode lowercase mapping).
pub uninterp spec fn lowercase(s: Seq<char>) -> Seq<char>;

/// Calls `str::to_lowercase`.
#[verifier::external_body]
fn to_lowercase(s: &str) -> (r: String)
    ensures
        r@ == lowercase(s@),
{
    s.to_lowercase()
}

/// The keywords of a list, as text.
pub open spec fn keyword_texts(keywords: Seq<&'static str>) -> Seq<Seq<char>> {
    keywords.map_values(|k: &'static str| k@)
}

/// Some keyword of `keywords` occurs in `text`.
pub open spec fn mentions_any(text: Seq<char>, keywords: Seq<Seq<char>>) -> bool {
    exists|i: int| 0 <= i < keywords.len() && contains(text, #[trigger] keywords[i])
}

/// Whether some keyword of `keywords` occurs in the characters `text`.
pub fn mentions_any_of(text: &Vec<char>, keywords: &[&'static str]) -> (r: bool)
    ensures
        r == mentions_any(text@, keyword_texts(keywords@)),
{
    let n = keywords.len();
    let mut i: usize = 0;
    while i < n
        invariant
            n == keywords@.len(),
            i <= n,
            forall|k: int| 0 <= k < i ==> !contains(text@, #[trigger] keyword_texts(keywords@)[k]),
        decreases n - i,
    {
        let kw = chars_of(keywords[i]);
        if contains_chars(text, &kw) {
            assert(keyword_texts(keywords@)[i as int] == kw@);
            return true;
        }
        i = i + 1;
    }
    false
}

/// The lower-cased HTML mentions an availability keyword and a detail keyword.
pub open spec fn looks_like_product_page(html: Seq<char>) -> bool {
    mentions_any(lowercase(html), keyword_texts(AVAILABILITY_HEURISTICS@)) && mentions_any(
        lowercase(html),
        keyword_texts(DETAILS_HEURISTICS@),
    )
}

/// Returns `true` if the HTML contains at least one availability keyword
/// **and** at least one detail keyword (case-insensitive).
pub fn is_product_page(html: &str) -> (r: bool)
    ensures
        r == looks_like_product_page(html@),
{
    let lower = to_lowercase(html);
    let text = chars_of(lower.as_str());
    let availability = AVAILABILITY_HEURISTICS;
    let details = DETAILS_HEURISTICS;
    let has_availability = mentions_any_of(&text, availability.as_slice());
    let has_details = mentions_any_of(&text, details.as_slice());
    has_availability && has_details
}


/// The verdict ignores case: two pages whose HTML lower-cases to the same
/// text are judged alike.
pub proof fn law_verdict_ignores_case(a: Seq<char>, b: Seq<char>)
    requires
        lowercase(a) == lowercase(b),
    ensures
        looks_like_product_page(a) == looks_like_product_page(b),
{
}

/// A page is only a product page where both kinds of keyword occur.
pub proof fn law_needs_both_kinds(html: Seq<char>)
    requires
        looks_like_product_page(html),
    ensures
        exists|i: int|
            0 <= i < AVAILABILITY_HEURISTICS@.len() && contains(
                lowercase(html),
                #[trigger] AVAILABILITY_HEURISTICS@[i]@,
            ),
        exists|j: int|
            0 <= j < DETAILS_HEURISTICS@.len() && contains(
                lowercase(html),
                #[trigger] DETAILS_HEURISTICS@[j]@,
            ),
{
    let i = choose|i: int|
        0 <= i < keyword_texts(AVAILABILITY_HEURISTICS@).len() && contains(
            lowercase(html),
            #[trigger] keyword_texts(AVAILABILITY_HEURISTICS@)[i],
        );
    let j = choose|j: int|
        0 <= j < keyword_texts(DETAILS_HEURISTICS@).len() && contains(
            lowercase(html),
            #[trigger] keyword_texts(DETAILS_HEURISTICS@)[j],
        );
    assert(keyword_texts(AVAILABILITY_HEURISTICS@)[i] == AVAILABILITY_HEURISTICS@[i]@);
    assert(keyword_texts(DETAILS_HEURISTICS@)[j] == DETAILS_HEURISTICS@[j]@);
}


/// Every keyword of both lists counts, the last ones included: HTML whose
/// lower case contains any availability keyword and any detail keyword is a
/// product page.
pub proof fn law_every_keyword_counts(html: Seq<char>, i: int, j: int)
    requires
        0 <= i < AVAILABILITY_HEURISTICS@.len(),
        0 <= j < DETAILS_HEURISTICS@.len(),
        contains(lowercase(html), AVAILABILITY_HEURISTICS@[i]@),
        contains(lowercase(html), DETAILS_HEURISTICS@[j]@),
    ensures
        looks_like_product_page(html),
{
    assert(keyword_texts(AVAILABILITY_HEURISTICS@)[i] == AVAILABILITY_HEURISTICS@[i]@);
    assert(keyword_texts(DETAILS_HEURISTICS@)[j] == DETAILS_HEURISTICS@[j]@);
}

/// For any keyword list, a text mentions the list when it contains any one of
/// its keywords, whatever its place in the list; a text containing none of
/// them does not.
pub proof fn law_mentions_any_keyword(text: Seq<char>, keywords: Seq<Seq<char>>, i: int)
    requires
        0 <= i < keywords.len(),
    ensures
        contains(text, keywords[i]) ==> mentions_any(text, keywords),
        (forall|k: int| 0 <= k < keywords.len() ==> !contains(text, #[trigger] keywords[k]))
            ==> !mentions_any(text, keywords),
{
}

} // verus!
