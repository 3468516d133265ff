use product_crawler::heuristics::{is_product_page, AVAILABILITY_HEURISTICS, DETAILS_HEURISTICS};

#[test]
fn product_page_needs_both_kinds_of_keyword() {
    assert!(is_product_page("<button>Add to Cart</button><h2>Product Details</h2>"));
    assert!(!is_product_page("<button>Add to Cart</button>"));
    assert!(!is_product_page("<h2>Product Details</h2>"));
    assert!(!is_product_page(""));
}

#[test]
fn product_page_is_case_insensitive_beyond_ascii() {
    assert!(is_product_page("JETZT KAUFEN – MASSE: MAẞE 10x20 cm"));
    assert!(is_product_page("VERFÜGBAR · PRODUKTBESCHREIBUNG"));
    assert!(!is_product_page("VERFUGBAR"));
}

#[test]
fn auction_pages_are_recognised() {
    assert!(is_product_page("Place Bid now. Provenance: private collection."));
    assert!(is_product_page("Sold for $1,200 — Condition Report available"));
}

#[test]
fn keyword_lists_are_lower_case() {
    assert_eq!(AVAILABILITY_HEURISTICS.len(), 21);
    assert_eq!(DETAILS_HEURISTICS.len(), 17);
    for kw in AVAILABILITY_HEURISTICS.iter().chain(DETAILS_HEURISTICS.iter()) {
        assert_eq!(kw.to_lowercase(), *kw);
    }
}
