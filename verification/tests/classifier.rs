use product_crawler::classifier::{apply_strategy, classify_url, compile_gemini_pattern, dedupe_urls};
use product_crawler::error::AppError;
use regex::{Regex, RegexBuilder};

#[test]
fn classify_url_with_pattern() {
    let pattern = Regex::new(r"/product/\d+").ok();
    assert!(classify_url(&pattern, "https://example.com/product/123"));
    assert!(!classify_url(&pattern, "https://example.com/about"));
}

#[test]
fn classify_url_without_pattern() {
    let pattern: Option<Regex> = None;
    assert!(!classify_url(&pattern, "https://example.com/product/123"));
}

#[test]
fn dedupe_urls_removes_duplicates() {
    let urls = vec![
        "https://example.com/product/1".to_string(),
        "https://example.com/product/1?ref=google".to_string(),
        "https://example.com/product/2".to_string(),
    ];
    let deduped = dedupe_urls(urls);
    assert_eq!(deduped.len(), 2);
    assert!(deduped.contains(&"https://example.com/product/1".to_string()));
    assert!(deduped.contains(&"https://example.com/product/2".to_string()));
}

#[test]
fn apply_strategy_with_pattern_throws_on_empty() {
    let pattern = Regex::new(r"/nomatch").ok();
    let all_urls = vec!["https://example.com/product/1".to_string()];
    let result = apply_strategy(&pattern, &all_urls, &[]);
    assert!(result.is_err());
    match result {
        Err(AppError::NoProducts(msg)) => assert!(msg.contains("pattern matched 0")),
        _ => panic!("Expected NoProducts error"),
    }
}

#[test]
fn apply_strategy_fallback_throws_on_empty() {
    let pattern: Option<Regex> = None;
    let all_urls = vec!["https://example.com/product/1".to_string()];
    let result = apply_strategy(&pattern, &all_urls, &[]);
    assert!(result.is_err());
    match result {
        Err(AppError::NoProducts(msg)) => assert!(msg.contains("Heuristic engine found 0")),
        _ => panic!("Expected NoProducts error"),
    }
}

#[test]
fn apply_strategy_with_pattern_succeeds() {
    let pattern = Regex::new(r"/product/\d+").ok();
    let all_urls = vec![
        "https://example.com/product/1".to_string(),
        "https://example.com/product/2".to_string(),
    ];
    let result = apply_strategy(&pattern, &all_urls, &[]);
    assert!(result.is_ok());
    let products = result.unwrap();
    assert_eq!(products.len(), 2);
}

#[test]
fn apply_strategy_fallback_succeeds() {
    let pattern: Option<Regex> = None;
    let all_urls = vec!["https://example.com/product/1".to_string()];
    let heuristic = vec!["https://example.com/product/1".to_string()];
    let result = apply_strategy(&pattern, &all_urls, &heuristic);
    assert!(result.is_ok());
    let products = result.unwrap();
    assert_eq!(products.len(), 1);
}

#[test]
fn dedupe_keeps_first_appearance_order() {
    let urls = vec![
        "https://example.com/b/".to_string(),
        "  https://example.com/a#top".to_string(),
        "https://example.com/b".to_string(),
        "https://EXAMPLE.com/a".to_string(),
    ];
    assert_eq!(
        dedupe_urls(urls),
        vec!["https://example.com/b".to_string(), "https://example.com/a".to_string()]
    );
}

#[test]
fn dedupe_twice_is_dedupe_once() {
    let urls = vec![
        "https://example.com/x?a=1".to_string(),
        "https://example.com/x".to_string(),
        "https://example.com/y/".to_string(),
    ];
    let once = dedupe_urls(urls);
    let twice = dedupe_urls(once.clone());
    assert_eq!(once, twice);
}

#[test]
fn dedupe_of_nothing_is_nothing() {
    assert!(dedupe_urls(Vec::new()).is_empty());
}

#[test]
fn apply_strategy_filters_and_normalizes() {
    let pattern = Regex::new(r"/product/\d+$").ok();
    let all_urls = vec![
        "https://example.com/product/1#reviews".to_string(),
        "https://example.com/about".to_string(),
        "https://example.com/product/1".to_string(),
        "https://example.com/product/22".to_string(),
    ];
    let heuristic = vec!["https://example.com/about".to_string()];
    let products = apply_strategy(&pattern, &all_urls, &heuristic).unwrap();
    assert_eq!(
        products,
        vec!["https://example.com/product/1".to_string(), "https://example.com/product/22".to_string()]
    );
}

#[test]
fn apply_strategy_pattern_ignores_heuristics() {
    let pattern = Regex::new(r"/nomatch").ok();
    let all_urls = vec!["https://example.com/product/1".to_string()];
    let heuristic = vec!["https://example.com/product/1".to_string()];
    match apply_strategy(&pattern, &all_urls, &heuristic) {
        Err(AppError::NoProducts(msg)) => assert_eq!(msg, "Gemini pattern matched 0 URLs"),
        _ => panic!("Expected NoProducts error"),
    }
}

#[test]
fn apply_strategy_fallback_dedupes_heuristics() {
    let heuristic = vec![
        "https://example.com/item/9/".to_string(),
        "https://example.com/item/9".to_string(),
    ];
    let products = apply_strategy(&None, &[], &heuristic).unwrap();
    assert_eq!(products, vec!["https://example.com/item/9".to_string()]);
}

#[test]
fn apply_strategy_fallback_reason_text() {
    match apply_strategy(&None, &[], &[]) {
        Err(AppError::NoProducts(msg)) => assert_eq!(msg, "Heuristic engine found 0 product pages"),
        _ => panic!("Expected NoProducts error"),
    }
}

#[test]
fn compile_gemini_pattern_compiles_valid_pattern() {
    let result = compile_gemini_pattern(Ok(Some(r"^https://shop\.com/product/[\w%.-]+$".to_string())));
    let re = result.unwrap().unwrap();
    assert_eq!(re.as_str(), r"^https://shop\.com/product/[\w%.-]+$");
    assert!(classify_url(&Some(re.clone()), "https://shop.com/product/oak-chair"));
    assert!(!classify_url(&Some(re), "https://shop.com/product-category/chairs"));
}

#[test]
fn compile_gemini_pattern_drops_invalid_pattern() {
    let result = compile_gemini_pattern(Ok(Some("([unclosed".to_string())));
    assert!(matches!(result, Ok(None)));
}

#[test]
fn compile_gemini_pattern_passes_no_pattern_and_errors() {
    assert!(matches!(compile_gemini_pattern(Ok(None)), Ok(None)));
    match compile_gemini_pattern(Err(AppError::Gemini("down".to_string()))) {
        Err(AppError::Gemini(m)) => assert_eq!(m, "down"),
        _ => panic!("Expected the error to pass through"),
    }
}

#[test]
fn classify_url_follows_the_compiled_regex() {
    let insensitive = RegexBuilder::new("product").case_insensitive(true).build().ok();
    let sensitive = Regex::new("product").ok();
    assert!(classify_url(&insensitive, "https://example.com/PRODUCT/1"));
    assert!(!classify_url(&sensitive, "https://example.com/PRODUCT/1"));
}
