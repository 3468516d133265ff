use product_crawler::classifier::dedupe_urls;
use product_crawler::crawler::{CrawlAction, CrawlDeduplicator, CrawlEvent, CrawledPage};

#[test]
fn crawled_page_creation() {
    let page = CrawledPage {
        url: "https://example.com/product/1".to_string(),
    };
    assert_eq!(page.url, "https://example.com/product/1");
}

#[test]
fn crawled_page_non_product() {
    let page = CrawledPage {
        url: "https://example.com/about".to_string(),
    };
    assert_eq!(page.url, "https://example.com/about");
}

#[test]
fn collector_forwards_each_page_once() {
    let mut collector = CrawlDeduplicator::new();
    let first = collector.observe("https://example.com/product/1?ref=a");
    assert_eq!(first.map(|p| p.url), Some("https://example.com/product/1".to_string()));
    assert!(collector.observe("https://example.com/product/1#top").is_none());
    assert!(collector.observe("https://example.com/product/1/").is_none());
    let second = collector.observe("https://example.com/product/2");
    assert_eq!(second.map(|p| p.url), Some("https://example.com/product/2".to_string()));
}

#[test]
fn collector_steps_through_events() {
    let mut collector = CrawlDeduplicator::new();
    match collector.step(CrawlEvent::Page("https://Example.com/a/".to_string())) {
        CrawlAction::Forward(page) => assert_eq!(page.url, "https://example.com/a"),
        _ => panic!("Expected the first page to be forwarded"),
    }
    assert!(matches!(collector.step(CrawlEvent::Page("https://example.com/a".to_string())), CrawlAction::Skip));
    assert!(matches!(collector.step(CrawlEvent::Lagged(7)), CrawlAction::Skip));
    assert!(matches!(collector.step(CrawlEvent::Closed), CrawlAction::Stop));
}

#[test]
fn collector_output_equals_dedupe() {
    let stream = vec![
        "https://example.com/".to_string(),
        "https://example.com/shop/?x=1".to_string(),
        "https://example.com".to_string(),
        "not a url/".to_string(),
        "https://example.com/shop".to_string(),
        "not a url".to_string(),
    ];
    let mut collector = CrawlDeduplicator::new();
    let mut forwarded = Vec::new();
    for raw in &stream {
        if let Some(page) = collector.observe(raw) {
            forwarded.push(page.url);
        }
    }
    assert_eq!(forwarded, dedupe_urls(stream));
    assert_eq!(
        forwarded,
        vec![
            "https://example.com/".to_string(),
            "https://example.com/shop".to_string(),
            "not a url".to_string()
        ]
    );
}
