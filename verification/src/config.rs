//! Runtime configuration of the crawler.

use vstd::prelude::*;

use crate::text::{
    is_trimmed, is_white_space, lemma_trim_is_trimmed, lemma_trim_of_trimmed, starts_with,
    starts_with_str, trim, trim_str,
};

verus! {

/// The site crawled when no URL is given.
pub const DEFAULT_TARGET_URL: &'static str = "https://www.christies.com/en";

/// Number of URLs to collect before the one-time Gemini classification.
pub const CLASSIFY_THRESHOLD: usize = 200;

/// All runtime configuration read once at startup.
pub struct AppConfig {
    /// The website URL to crawl (always starts with http:// or https://).
    pub target_url: String,
    /// Gemini API key.
    pub api_key: String,
    /// Optional Chrome DevTools WebSocket URL for JavaScript-rendered pages.
    pub chrome_ws_url: Option<String>,
    /// Number of URLs to collect before triggering the one-time Gemini classification.
    pub classify_threshold: usize,
}

/// `url` trimmed, with `https://` put in front unless it already starts
/// with `http://` or `https://`.
pub open spec fn with_scheme(url: Seq<char>) -> Seq<char> {
    let t = trim(url);
    if starts_with(t, "http://"@) || starts_with(t, "https://"@) {
        t
    } else {
        "https://"@ + t
    }
}

/// Ensures the URL starts with a scheme: trims it, and prepends `https://`
/// where it starts with neither `http://` nor `https://`.
pub fn ensure_scheme(url: &str) -> (r: String)
    ensures
        r@ == with_scheme(url@),
{
    let trimmed = trim_str(url);
    if starts_with_str(trimmed.as_str(), "http://") || starts_with_str(
        trimmed.as_str(),
        "https://",
    ) {
        trimmed
    } else {
        String::from_str("https://").concat(trimmed.as_str())
    }
}

impl AppConfig {
    /// The configuration from the values read at startup: the first command
    /// line argument (the default site where there is none), the API key and
    /// the optional Chrome DevTools URL.
    pub fn from_values(
        first_arg: Option<String>,
        api_key: String,
        chrome_ws_url: Option<String>,
    ) -> (r: AppConfig)
        ensures
            r.target_url@ == with_scheme(
                match first_arg {
                    Some(u) => u@,
                    None => DEFAULT_TARGET_URL@,
                },
            ),
            r.api_key == api_key,
            r.chrome_ws_url == chrome_ws_url,
            r.classify_threshold == CLASSIFY_THRESHOLD,
    {
        let target_url = match &first_arg {
            Some(u) => ensure_scheme(u.as_str()),
            None => ensure_scheme(DEFAULT_TARGET_URL),
        };
        AppConfig { target_url, api_key, chrome_ws_url, classify_threshold: CLASSIFY_THRESHOLD }
    }
}

/// Every configured target starts with `http://` or `https://`.
pub proof fn law_scheme_present(url: Seq<char>)
    ensures
        starts_with(with_scheme(url), "http://"@) || starts_with(with_scheme(url), "https://"@),
{
    reveal_strlit("https://");
    let t = trim(url);
    if !(starts_with(t, "http://"@) || starts_with(t, "https://"@)) {
        assert(("https://"@ + t).subrange(0, 8) =~= "https://"@);
    }
}

/// The address itself is kept: the result ends with the trimmed input; an
/// input that already starts with `http://` or `https://` is only trimmed,
/// and any other gets `https://` in front.
pub proof fn law_scheme_kept_or_https(url: Seq<char>)
    ensures
        with_scheme(url).len() >= trim(url).len(),
        with_scheme(url).subrange(
            with_scheme(url).len() - trim(url).len(),
            with_scheme(url).len() as int,
        ) == trim(url),
        starts_with(trim(url), "http://"@) || starts_with(trim(url), "https://"@) ==> with_scheme(
            url,
        ) == trim(url),
        !(starts_with(trim(url), "http://"@) || starts_with(trim(url), "https://"@))
            ==> with_scheme(url).len() == trim(url).len() + 8 && starts_with(
            with_scheme(url),
            "https://"@,
        ),
{
    reveal_strlit("https://");
    let t = trim(url);
    let w = with_scheme(url);
    if starts_with(t, "http://"@) || starts_with(t, "https://"@) {
        assert(w.subrange(0, w.len() as int) =~= w);
    } else {
        assert(w.subrange(w.len() - t.len(), w.len() as int) =~= t);
        assert(w.subrange(0, 8) =~= "https://"@);
    }
}

/// Ensuring the scheme twice is the same as once.
pub proof fn law_ensure_scheme_idempotent(url: Seq<char>)
    ensures
        with_scheme(with_scheme(url)) == with_scheme(url),
{
    reveal_strlit("https://");
    let t = trim(url);
    lemma_trim_is_trimmed(url);
    let w = with_scheme(url);
    if starts_with(t, "http://"@) || starts_with(t, "https://"@) {
        lemma_trim_of_trimmed(t);
    } else {
        assert(w =~= "https://"@ + t);
        assert(w[0] == 'h');
        assert(!is_white_space(w[0]));
        if t.len() > 0 {
            assert(w.last() == t.last());
        } else {
            assert(w.last() == '/');
        }
        assert(is_trimmed(w));
        lemma_trim_of_trimmed(w);
        assert(w.subrange(0, 8) =~= "https://"@);
    }
}

} // verus!
