# product_crawler

A crawler that collects the product-detail pages of a web shop. The library
in `src/` is verified with Verus; `app/` is the program around it (crawling
with `spider`, asking Gemini through `llm`, reading the environment, printing).

- `text`: character-level string helpers (trim, search, join, decimal).
- `url_normalizer`: the canonical form of a crawled URL.
- `classifier`: pattern classification, deduplication, the final strategy.
- `config`: runtime configuration and scheme handling.
- `heuristics`: keyword heuristics on a page's HTML.
- `crawler`: the collector that passes each canonical URL on once.
- `collection`: the crawl loop's decisions (classify once at the threshold, keep or drop heuristic results, the final strategy).
- `gemini`: the prompt and the decisions of the Gemini pattern query.
- `error`: the errors.
