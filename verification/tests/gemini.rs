use product_crawler::error::AppError;
use product_crawler::gemini::{
    build_pattern_prompt, pattern_from_response, should_retry_without_schema, GeminiClient,
    PatternQuery, PatternResponse, QueryAction, QueryEvent, GEMINI_MODEL,
};

fn expected_prompt(urls: &[String]) -> String {
    let sample = if urls.len() > 20 { &urls[..20] } else { urls };
    let prompt = format!(
            "You are an expert at recognising e-commerce URL structures.\n\
            \n\
            TASK: return a single Rust-compatible regex that matches EVERY individual \
            product-detail page URL in the list below and rejects everything else.\n\
            \n\
            ═══════════════════════════════════════════════════════════════════\n\
            STEP 1 – IDENTIFY THE STRUCTURAL SEPARATOR\n\
            ═══════════════════════════════════════════════════════════════════\n\
            Look at every URL path and determine how the site separates product pages\n\
            from other pages. There are two common patterns:\n\
            \n\
            A) SEGMENT-BASED: products live under a dedicated path segment like\n\
               /product/<slug>, /produkt/<slug>, /lot/<slug>, /item/<slug>, etc.\n\
               Other pages use different segments (/category/, /tag/, /about, …).\n\
               → The regex anchors on that exact segment with slashes.\n\
               → Be careful: /produkt-kategorie/ shares a PREFIX with /produkt/\n\
                 but is NOT a product. Always match the segment as a complete\n\
                 path component between slashes.\n\
            \n\
            B) FLAT / MIXED: all pages (products AND non-products) are top-level\n\
               slugs with no distinguishing path segment.\n\
               → There is NO reliable structural pattern.\n\
               → You MUST return an empty pattern string.\n\
            \n\
            ═══════════════════════════════════════════════════════════════════\n\
            STEP 2 – SLUG SUFFIX\n\
            ═══════════════════════════════════════════════════════════════════\n\
            Only if you found a segment in Step 1:\n\
            - If ALL product URLs under that segment end with -<digits only>, \n\
              use  -\\d+$\n\
            - Otherwise use  [\\w%.-]+$  (allow any slug)\n\
            Never require a specific suffix pattern (like -art-\\d+) that only\n\
            appears in SOME product URLs.\n\
            \n\
            ═══════════════════════════════════════════════════════════════════\n\
            STEP 3 – STRICT SELF-CHECK  (critical!)\n\
            ═══════════════════════════════════════════════════════════════════\n\
            Mentally test your pattern against EVERY URL in the list.\n\
            a) Every URL that looks like a product detail page MUST match.\n\
               If even ONE product URL does not match → return empty string.\n\
            b) Every URL that is a category, tag, listing, home, utility, \n\
               or pagination page MUST NOT match.\n\
               If even ONE non-product URL matches → try to tighten the pattern.\n\
               If you cannot tighten it without losing products → return empty string.\n\
            \n\
            Prefer returning an empty string over returning a pattern that\n\
            misses products. Recall is more important than precision.\n\
            \n\
            ═══════════════════════════════════════════════════════════════════\n\
            OUTPUT\n\
            ═══════════════════════════════════════════════════════════════════\n\
            Return JSON with exactly one field:\n\
            • \"pattern\": the Rust regex, or empty string if no safe pattern exists.\n\
              Pattern rules (only when non-empty):\n\
              - Match the full URL including scheme + domain.\n\
              - Use literal slashes to delimit path segments.\n\
              - End with $.\n\
            \n\
            ═══════════════════════════════════════════════════════════════════\n\
            EXAMPLE A – segment-based site (return a pattern)\n\
            ═══════════════════════════════════════════════════════════════════\n\
            URLs:\n\
              https://shop.com/\n\
              https://shop.com/product-category/chairs\n\
              https://shop.com/product-tag/vintage\n\
              https://shop.com/product/oak-chair-12\n\
              https://shop.com/product/pine-desk\n\
            Output:\n\
            {{\n\
              \"pattern\": \"https://shop\\.com/product/[\\\\w%.-]+$\"\n\
            }}\n\
            \n\
            ═══════════════════════════════════════════════════════════════════\n\
            EXAMPLE B – flat site (return empty string)\n\
            ═══════════════════════════════════════════════════════════════════\n\
            URLs:\n\
              https://antiques.com/\n\
              https://antiques.com/about-us\n\
              https://antiques.com/baroque-cabinet-art-5012\n\
              https://antiques.com/empire-clock-7039\n\
              https://antiques.com/contact\n\
              https://antiques.com/mahogany-desk\n\
            Output:\n\
            {{\n\
              \"pattern\": \"\"\n\
            }}\n\
            \n\
            ═══════════════════════════════════════════════════════════════════\n\
            ACTUAL URLS TO ANALYSE\n\
            ═══════════════════════════════════════════════════════════════════\n\
            First 20 (for structure context):\n\
            {}\n\
            \n\
            All {} URLs:\n\
            {}",
            sample.join("\n"),
            urls.len(),
            urls.join("\n")
        );
    prompt
}

fn url_list(n: usize) -> Vec<String> {
    (0..n).map(|i| format!("https://shop.com/product/item-{}", i)).collect()
}

#[test]
fn prompt_matches_template_for_few_urls() {
    let urls = url_list(3);
    assert_eq!(build_pattern_prompt(&urls), expected_prompt(&urls));
}

#[test]
fn prompt_matches_template_for_many_urls() {
    let urls = url_list(137);
    let prompt = build_pattern_prompt(&urls);
    assert_eq!(prompt, expected_prompt(&urls));
    assert!(prompt.contains("All 137 URLs:\n"));
    assert!(prompt.contains("First 20 (for structure context):\nhttps://shop.com/product/item-0\n"));
}

#[test]
fn prompt_for_no_urls() {
    let urls: Vec<String> = Vec::new();
    let prompt = build_pattern_prompt(&urls);
    assert_eq!(prompt, expected_prompt(&urls));
    assert!(prompt.ends_with("\n\nAll 0 URLs:\n"));
}

#[test]
fn client_uses_fixed_model() {
    let client = GeminiClient::new("secret".to_string());
    assert_eq!(client.api_key(), "secret");
    assert_eq!(client.model(), GEMINI_MODEL);
    assert_eq!(client.model(), "gemini-3.1-flash-lite-preview");
}

#[test]
fn retry_on_bad_request_or_schema_trouble() {
    assert!(should_retry_without_schema("HTTP 400: something"));
    assert!(should_retry_without_schema("Bad Request"));
    assert!(should_retry_without_schema("invalid JSON SCHEMA"));
    assert!(should_retry_without_schema("Structured output unsupported"));
    assert!(should_retry_without_schema("INVALID ARGUMENT: field"));
    assert!(!should_retry_without_schema("connection refused"));
    assert!(!should_retry_without_schema("HTTP 500 internal"));
    assert!(!should_retry_without_schema(""));
}

#[test]
fn reply_pattern_empty_means_none() {
    assert_eq!(pattern_from_response(PatternResponse { pattern: "".to_string() }), None);
    assert_eq!(pattern_from_response(PatternResponse { pattern: " \t\n".to_string() }), None);
    assert_eq!(
        pattern_from_response(PatternResponse { pattern: " /product/.+$ ".to_string() }),
        Some(" /product/.+$ ".to_string())
    );
}

fn gemini_message(action: QueryAction) -> String {
    match action {
        QueryAction::Finish(Err(AppError::Gemini(m))) => m,
        _ => panic!("Expected a Gemini error"),
    }
}

fn decode_text(action: QueryAction) -> String {
    match action {
        QueryAction::Decode(t) => t,
        _ => panic!("Expected a decode request"),
    }
}

fn step(query: &mut PatternQuery, event: QueryEvent) -> QueryAction {
    assert!(query.takes(&event));
    query.step(event)
}

#[test]
fn query_starts_with_schema() {
    let (_, action) = PatternQuery::start();
    assert!(matches!(action, QueryAction::Send { with_schema: true }));
}

#[test]
fn query_structured_reply_decodes_whole_text() {
    let (mut q, _) = PatternQuery::start();
    let text = "{\"pattern\": \"/p/\\\\d+$\"}".to_string();
    assert_eq!(decode_text(step(&mut q, QueryEvent::Replied(Some(text.clone())))), text);
    let action = step(&mut q, QueryEvent::Decoded(Ok(PatternResponse { pattern: "/p/\\d+$".to_string() })));
    match action {
        QueryAction::Finish(Ok(Some(p))) => assert_eq!(p, "/p/\\d+$"),
        _ => panic!("Expected a pattern"),
    }
    assert!(!q.takes(&QueryEvent::Replied(None)));
}

#[test]
fn query_falls_back_to_embedded_object() {
    let (mut q, _) = PatternQuery::start();
    let text = "Here you go: {\"pattern\": \"\"} hope it helps".to_string();
    step(&mut q, QueryEvent::Replied(Some(text)));
    let part = decode_text(step(&mut q, QueryEvent::Decoded(Err("expected value".to_string()))));
    assert_eq!(part, "{\"pattern\": \"\"}");
    let action = step(&mut q, QueryEvent::Decoded(Ok(PatternResponse { pattern: "".to_string() })));
    assert!(matches!(action, QueryAction::Finish(Ok(None))));
}

#[test]
fn query_embedded_object_that_fails_is_json_error() {
    let (mut q, _) = PatternQuery::start();
    step(&mut q, QueryEvent::Replied(Some("x {broken} y".to_string())));
    assert_eq!(decode_text(step(&mut q, QueryEvent::Decoded(Err("e1".to_string())))), "{broken}");
    match step(&mut q, QueryEvent::Decoded(Err("e2".to_string()))) {
        QueryAction::Finish(Err(AppError::Json(m))) => assert_eq!(m, "e2"),
        _ => panic!("Expected a JSON error"),
    }
}

#[test]
fn query_without_braces_cannot_parse() {
    let (mut q, _) = PatternQuery::start();
    step(&mut q, QueryEvent::Replied(Some("no json here".to_string())));
    let action = step(&mut q, QueryEvent::Decoded(Err("e".to_string())));
    assert_eq!(gemini_message(action), "Could not parse Gemini JSON response");
}

#[test]
fn query_adjacent_crossed_braces_decode_empty_text() {
    let (mut q, _) = PatternQuery::start();
    step(&mut q, QueryEvent::Replied(Some("a}{b".to_string())));
    assert_eq!(decode_text(step(&mut q, QueryEvent::Decoded(Err("e".to_string())))), "");
}

#[test]
fn query_refuses_crossed_braces() {
    let (mut q, _) = PatternQuery::start();
    step(&mut q, QueryEvent::Replied(Some("} x {".to_string())));
    assert!(!q.takes(&QueryEvent::Decoded(Err("e".to_string()))));
    assert!(q.takes(&QueryEvent::Decoded(Ok(PatternResponse { pattern: String::new() }))));
}

#[test]
fn query_empty_reply_is_error() {
    let (mut q, _) = PatternQuery::start();
    assert_eq!(gemini_message(step(&mut q, QueryEvent::Replied(None))), "Empty response from Gemini");
}

#[test]
fn query_retries_once_without_schema() {
    let (mut q, _) = PatternQuery::start();
    let action = step(&mut q, QueryEvent::ChatFailed("400 Bad Request: schema".to_string()));
    assert!(matches!(action, QueryAction::Send { with_schema: false }));
    let action = step(&mut q, QueryEvent::ChatFailed("timeout".to_string()));
    assert_eq!(
        gemini_message(action),
        "Gemini chat failed with structured output ('400 Bad Request: schema') and fallback without schema ('timeout')."
    );
}

#[test]
fn query_does_not_retry_other_failures() {
    let (mut q, _) = PatternQuery::start();
    let action = step(&mut q, QueryEvent::ChatFailed("connection reset".to_string()));
    assert_eq!(gemini_message(action), "Gemini chat error (structured output): connection reset");
}

#[test]
fn query_client_build_failures() {
    let (mut q, _) = PatternQuery::start();
    assert_eq!(
        gemini_message(step(&mut q, QueryEvent::ClientFailed("no key".to_string()))),
        "Failed to build Gemini client (structured): no key"
    );
    let (mut q, _) = PatternQuery::start();
    step(&mut q, QueryEvent::ChatFailed("invalid argument".to_string()));
    assert_eq!(
        gemini_message(step(&mut q, QueryEvent::ClientFailed("bad model".to_string()))),
        "Failed to build Gemini fallback client (no schema): bad model"
    );
}

#[test]
fn query_fallback_reply_is_decoded() {
    let (mut q, _) = PatternQuery::start();
    step(&mut q, QueryEvent::ChatFailed("structured output not supported".to_string()));
    assert!(!q.takes(&QueryEvent::Decoded(Err("e".to_string()))));
    assert_eq!(decode_text(step(&mut q, QueryEvent::Replied(Some("{}".to_string())))), "{}");
}
