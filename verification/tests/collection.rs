use product_crawler::collection::CollectionState;
use product_crawler::error::AppError;
use regex::Regex;

fn url(i: usize) -> String {
    format!("https://shop.example/product/{}", i)
}

#[test]
fn classification_triggers_once_at_threshold() {
    let mut state = CollectionState::new(3);
    let mut triggers = Vec::new();
    for i in 1..=6 {
        triggers.push(state.on_page(url(i), false));
    }
    assert_eq!(triggers, vec![false, false, true, false, false, false]);
    assert!(state.classified());
    assert_eq!(state.all_urls().len(), 6);
}

#[test]
fn zero_threshold_classifies_at_first_page() {
    let mut state = CollectionState::new(0);
    assert!(!state.classified());
    assert!(state.on_page(url(1), false));
    assert!(!state.on_page(url(2), false));
}

#[test]
fn heuristic_flags_are_collected() {
    let mut state = CollectionState::new(10);
    state.on_page(url(1), true);
    state.on_page(url(2), false);
    state.on_page(url(3), true);
    assert_eq!(state.heuristic_products(), &[url(1), url(3)][..]);
    assert_eq!(state.products_so_far(), 2);
}

#[test]
fn pattern_drops_heuristics_and_counts_matches() {
    let mut state = CollectionState::new(2);
    state.on_page("https://shop.example/about".to_string(), true);
    assert!(state.on_page(url(7), true));
    state.on_pattern(Regex::new(r"/product/\d+$").ok());
    assert!(state.heuristic_products().is_empty());
    assert_eq!(state.products_so_far(), 1);
    state.on_page(url(8), true);
    assert_eq!(state.heuristic_products().len(), 1);
    assert_eq!(state.products_so_far(), 2);
    assert_eq!(state.finish().unwrap(), vec![url(7), url(8)]);
}

#[test]
fn no_pattern_keeps_heuristics_for_the_end() {
    let mut state = CollectionState::new(1);
    assert!(state.on_page(url(1), true));
    state.on_pattern(None);
    assert_eq!(state.heuristic_products().len(), 1);
    state.on_page(format!("{}/", url(1)), true);
    assert_eq!(state.finish().unwrap(), vec![url(1)]);
}

#[test]
fn finish_reports_no_products() {
    let state = CollectionState::new(5);
    match state.finish() {
        Err(AppError::NoProducts(m)) => assert_eq!(m, "Heuristic engine found 0 product pages"),
        _ => panic!("Expected NoProducts"),
    }
}
