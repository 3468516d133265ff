use product_crawler::config::{ensure_scheme, AppConfig, CLASSIFY_THRESHOLD, DEFAULT_TARGET_URL};

fn make_config(url: &str) -> AppConfig {
    AppConfig {
        target_url: ensure_scheme(url),
        api_key: "test-key".to_string(),
        chrome_ws_url: None,
        classify_threshold: 200,
    }
}

#[test]
fn ensure_scheme_prepends_https_when_missing() {
    assert_eq!(ensure_scheme("example.com"), "https://example.com");
    assert_eq!(ensure_scheme("www.example.com/shop"), "https://www.example.com/shop");
}

#[test]
fn ensure_scheme_keeps_existing_https() {
    assert_eq!(ensure_scheme("https://example.com"), "https://example.com");
}

#[test]
fn ensure_scheme_keeps_existing_http() {
    assert_eq!(ensure_scheme("http://example.com"), "http://example.com");
}

#[test]
fn ensure_scheme_trims_whitespace() {
    assert_eq!(ensure_scheme("  example.com  "), "https://example.com");
}

#[test]
fn config_has_correct_threshold() {
    let cfg = make_config("example.com");
    assert_eq!(cfg.classify_threshold, 200);
}

#[test]
fn config_normalizes_url() {
    let cfg = make_config("nostalgie-palast.de");
    assert_eq!(cfg.target_url, "https://nostalgie-palast.de");
}

#[test]
fn ensure_scheme_is_idempotent() {
    for raw in ["example.com", "  http://a.b ", "\u{3000}https://x.y/\t", "", "ftp://host"] {
        let once = ensure_scheme(raw);
        assert_eq!(ensure_scheme(&once), once);
        assert!(once.starts_with("http://") || once.starts_with("https://"));
    }
}

#[test]
fn ensure_scheme_trims_unicode_white_space() {
    assert_eq!(ensure_scheme("\u{a0}\u{2003}shop.de\u{2029}\n"), "https://shop.de");
}

#[test]
fn ensure_scheme_of_blank_input() {
    assert_eq!(ensure_scheme("   "), "https://");
}

#[test]
fn ensure_scheme_other_scheme_gets_https() {
    assert_eq!(ensure_scheme("ftp://host"), "https://ftp://host");
}

#[test]
fn from_values_uses_default_site() {
    let cfg = AppConfig::from_values(None, "k".to_string(), None);
    assert_eq!(cfg.target_url, DEFAULT_TARGET_URL);
    assert_eq!(cfg.api_key, "k");
    assert_eq!(cfg.chrome_ws_url, None);
    assert_eq!(cfg.classify_threshold, CLASSIFY_THRESHOLD);
}

#[test]
fn from_values_normalizes_argument() {
    let cfg = AppConfig::from_values(
        Some(" shop.example ".to_string()),
        "key".to_string(),
        Some("ws://127.0.0.1:9222".to_string()),
    );
    assert_eq!(cfg.target_url, "https://shop.example");
    assert_eq!(cfg.chrome_ws_url.as_deref(), Some("ws://127.0.0.1:9222"));
    assert_eq!(cfg.classify_threshold, 200);
}
