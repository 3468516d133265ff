use product_crawler::url_normalizer::normalize_url;

#[test]
fn normalize_removes_query_and_fragment() {
    let input = "https://www.example.com/product/123?ref=google#reviews";
    let normalized = normalize_url(input);
    assert_eq!(normalized, "https://www.example.com/product/123");
}

#[test]
fn normalize_removes_trailing_slash() {
    let input = "https://www.example.com/products/";
    let normalized = normalize_url(input);
    assert_eq!(normalized, "https://www.example.com/products");
}

#[test]
fn normalize_keeps_root_slash() {
    let input = "https://www.example.com/";
    let normalized = normalize_url(input);
    assert_eq!(normalized, "https://www.example.com/");
}

#[test]
fn normalize_lowercases_scheme_and_host() {
    let input = "HTTPS://WWW.EXAMPLE.COM/Product/123";
    let normalized = normalize_url(input);
    assert!(normalized.starts_with("https://www.example.com/"));
}

#[test]
fn normalize_dedupes_query_variants() {
    let a = normalize_url("https://www.example.com/product/123?ref=google");
    let b = normalize_url("https://www.example.com/product/123?ref=facebook");
    assert_eq!(a, b);
}

#[test]
fn normalize_dedupes_fragment_variants() {
    let a = normalize_url("https://www.example.com/product/123#reviews");
    let b = normalize_url("https://www.example.com/product/123#specs");
    assert_eq!(a, b);
}

#[test]
fn normalize_differs_for_different_paths() {
    let a = normalize_url("https://www.example.com/product/123");
    let b = normalize_url("https://www.example.com/product/124");
    assert_ne!(a, b);
}

#[test]
fn normalize_handles_malformed_urls() {
    let input = "not a valid url";
    let normalized = normalize_url(input);
    assert_eq!(normalized, "not a valid url");
}

#[test]
fn normalize_trims_and_keeps_path_case() {
    assert_eq!(normalize_url("  https://Shop.DE/Produkt/Alt//  "), "https://shop.de/Produkt/Alt");
}

#[test]
fn normalize_bare_host_gets_root_slash() {
    assert_eq!(normalize_url("https://example.com"), "https://example.com/");
    assert_eq!(normalize_url("https://example.com?q=1#f"), "https://example.com/");
}

#[test]
fn normalize_malformed_loses_trailing_slashes() {
    assert_eq!(normalize_url("  shop/products//  "), "shop/products");
    assert_eq!(normalize_url("///"), "");
}

#[test]
fn normalize_is_stable_on_its_output() {
    for raw in [
        "https://www.example.com/products/?a=b#c",
        "https://www.example.com/",
        "HTTP://Example.COM:80/x/y/",
        "not a valid url/",
    ] {
        let once = normalize_url(raw);
        assert_eq!(normalize_url(&once), once);
    }
}

#[test]
fn normalize_leaves_no_query_or_fragment_marks() {
    for raw in [
        "https://a.example/p?x=1&y=2#frag?more",
        "mailto:someone@example.com?subject=hi",
        "https://user:pw@a.example:8080/x/?#",
    ] {
        let n = normalize_url(raw);
        assert!(!n.contains('?') && !n.contains('#'), "{}", n);
    }
}
