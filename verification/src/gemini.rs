//! The Gemini pattern query: the prompt, the client settings, and every
//! decision between the requests (retrying without the schema, reading the
//! reply, and the errors reported).

use vstd::prelude::*;

use crate::error::AppError;
use crate::text::{
    is_white_space, lemma_first_index_spec, lemma_trim_empty, lemma_join_layout, lemma_line_bounds, lemma_line_start_prefix, lemma_subrange_before, lemma_subrange_after, lemma_last_index_spec, line_start, lines_len,
    ascii_lower, ascii_lowercase_chars, chars_of, contains, contains_chars, decimal,
    decimal_string, first_index, first_index_of, join_first, join_with, last_index,
    last_index_of, trim, trim_str, views,
};

verus! {

/// The model that the client asks.
pub const GEMINI_MODEL: &'static str = "gemini-3.1-flash-lite-preview";

/// How many URLs the prompt shows first, for structure context.
pub const PROMPT_SAMPLE_SIZE: usize = 20;

/// The instructions of the prompt, up to the sample of URLs.
pub const PROMPT_INTRO: &'static str = "You are an expert at recognising e-commerce URL structures.\n\
            \n\
            TASK: return a single Rust-compatible regex that matches EVERY individual \
            product-detail page URL in the list below and rejects everything else.\n\
            \n\
            ═══════════════════════════════════════════════════════════════════\n\
            STEP 1 – IDENTIFY THE STRUCTURAL SEPARATOR\n\
            ═══════════════════════════════════════════════════════════════════\n\
            Look at every URL path and determine how the site separates product pages\n\
            from other pages. There are two common patterns:\n\
            \n\
            A) SEGMENT-BASED: products live under a dedicated path segment like\n\
               /product/<slug>, /produkt/<slug>, /lot/<slug>, /item/<slug>, etc.\n\
               Other pages use different segments (/category/, /tag/, /about, …).\n\
               → The regex anchors on that exact segment with slashes.\n\
               → Be careful: /produkt-kategorie/ shares a PREFIX with /produkt/\n\
                 but is NOT a product. Always match the segment as a complete\n\
                 path component between slashes.\n\
            \n\
            B) FLAT / MIXED: all pages (products AND non-products) are top-level\n\
               slugs with no distinguishing path segment.\n\
               → There is NO reliable structural pattern.\n\
               → You MUST return an empty pattern string.\n\
            \n\
            ═══════════════════════════════════════════════════════════════════\n\
            STEP 2 – SLUG SUFFIX\n\
            ═══════════════════════════════════════════════════════════════════\n\
            Only if you found a segment in Step 1:\n\
            - If ALL product URLs under that segment end with -<digits only>, \n\
              use  -\\d+$\n\
            - Otherwise use  [\\w%.-]+$  (allow any slug)\n\
            Never require a specific suffix pattern (like -art-\\d+) that only\n\
            appears in SOME product URLs.\n\
            \n\
            ═══════════════════════════════════════════════════════════════════\n\
            STEP 3 – STRICT SELF-CHECK  (critical!)\n\
            ═══════════════════════════════════════════════════════════════════\n\
            Mentally test your pattern against EVERY URL in the list.\n\
            a) Every URL that looks like a product detail page MUST match.\n\
               If even ONE product URL does not match → return empty string.\n\
            b) Every URL that is a category, tag, listing, home, utility, \n\
               or pagination page MUST NOT match.\n\
               If even ONE non-product URL matches → try to tighten the pattern.\n\
               If you cannot tighten it without losing products → return empty string.\n\
            \n\
            Prefer returning an empty string over returning a pattern that\n\
            misses products. Recall is more important than precision.\n\
            \n\
            ═══════════════════════════════════════════════════════════════════\n\
            OUTPUT\n\
            ═══════════════════════════════════════════════════════════════════\n\
            Return JSON with exactly one field:\n\
            • \"pattern\": the Rust regex, or empty string if no safe pattern exists.\n\
              Pattern rules (only when non-empty):\n\
              - Match the full URL including scheme + domain.\n\
              - Use literal slashes to delimit path segments.\n\
              - End with $.\n\
            \n\
            ═══════════════════════════════════════════════════════════════════\n\
            EXAMPLE A – segment-based site (return a pattern)\n\
            ═══════════════════════════════════════════════════════════════════\n\
            URLs:\n\
              https://shop.com/\n\
              https://shop.com/product-category/chairs\n\
              https://shop.com/product-tag/vintage\n\
              https://shop.com/product/oak-chair-12\n\
              https://shop.com/product/pine-desk\n\
            Output:\n\
            {\n\
              \"pattern\": \"https://shop\\.com/product/[\\\\w%.-]+$\"\n\
            }\n\
            \n\
            ═══════════════════════════════════════════════════════════════════\n\
            EXAMPLE B – flat site (return empty string)\n\
            ═══════════════════════════════════════════════════════════════════\n\
            URLs:\n\
              https://antiques.com/\n\
              https://antiques.com/about-us\n\
              https://antiques.com/baroque-cabinet-art-5012\n\
              https://antiques.com/empire-clock-7039\n\
              https://antiques.com/contact\n\
              https://antiques.com/mahogany-desk\n\
            Output:\n\
            {\n\
              \"pattern\": \"\"\n\
            }\n\
            \n\
            ═══════════════════════════════════════════════════════════════════\n\
            ACTUAL URLS TO ANALYSE\n\
            ═══════════════════════════════════════════════════════════════════\n\
            First 20 (for structure context):\n\
            ";

/// The reply the model is asked for.
pub struct PatternResponse {
    /// A regex pattern that matches product page URLs.
    /// Empty string if no consistent pattern exists.
    pub pattern: String,
}

/// The settings of the Gemini client: its API key and model.
pub struct GeminiClient {
    api_key: String,
    model: String,
}

impl GeminiClient {
    pub closed spec fn key(&self) -> Seq<char> {
        self.api_key@
    }

    pub closed spec fn model_name(&self) -> Seq<char> {
        self.model@
    }

    /// A client with this API key, for the model `GEMINI_MODEL`.
    pub fn new(api_key: String) -> (r: GeminiClient)
        ensures
            r.key() == api_key@,
            r.model_name() == GEMINI_MODEL@,
    {
        GeminiClient { api_key, model: String::from_str(GEMINI_MODEL) }
    }

    /// The API key.
    pub fn api_key(&self) -> (r: &str)
        ensures
            r@ == self.key(),
    {
        self.api_key.as_str()
    }

    /// The model asked.
    pub fn model(&self) -> (r: &str)
        ensures
            r@ == self.model_name(),
    {
        self.model.as_str()
    }
}

/// The prompt for `urls`: the instructions, the first twenty URLs (all of
/// them where there are fewer), their count, and all of them, one per line.
pub open spec fn pattern_prompt(urls: Seq<Seq<char>>) -> Seq<char> {
    let sample = if urls.len() > PROMPT_SAMPLE_SIZE {
        urls.take(PROMPT_SAMPLE_SIZE as int)
    } else {
        urls
    };
    PROMPT_INTRO@ + join_with(sample, "\n"@) + "\n\nAll "@ + decimal(urls.len()) + " URLs:\n"@
        + join_with(urls, "\n"@)
}

/// Builds the prompt that asks Gemini for a regex matching the product
/// pages among `urls`.
pub fn build_pattern_prompt(urls: &[String]) -> (r: String)
    ensures
        r@ == pattern_prompt(views(urls@)),
{
    let count = if urls.len() > PROMPT_SAMPLE_SIZE {
        PROMPT_SAMPLE_SIZE
    } else {
        urls.len()
    };
    let sample = join_first(urls, count, "\n");
    let all = join_first(urls, urls.len(), "\n");
    let number = decimal_string(urls.len());
    proof {
        assert(views(urls@).take(urls@.len() as int) =~= views(urls@));
        if urls@.len() <= PROMPT_SAMPLE_SIZE {
            assert(views(urls@).take(count as int) =~= views(urls@));
        }
    }
    let mut prompt = String::from_str(PROMPT_INTRO);
    prompt.append(sample.as_str());
    prompt.append("\n\nAll ");
    prompt.append(number.as_str());
    prompt.append(" URLs:\n");
    prompt.append(all.as_str());
    prompt
}

/// The count line that comes before the full list of URLs.
pub open spec fn count_line(n: nat) -> Seq<char> {
    "All "@ + decimal(n) + " URLs:\n"@
}

/// The prompt ends with the count line for all of the URLs, followed by
/// every one of them, in order, one per line: the `i`-th URL (at any index)
/// stands at its own place in that closing list, each but the last followed
/// by a line break, and the list is exactly as long as the URLs with their
/// line breaks.
pub proof fn law_prompt_lists_every_url(urls: Seq<Seq<char>>)
    ensures
        pattern_prompt(urls).len() >= lines_len(urls) + count_line(urls.len()).len(),
        pattern_prompt(urls).subrange(
            pattern_prompt(urls).len() - lines_len(urls) - count_line(urls.len()).len(),
            pattern_prompt(urls).len() - lines_len(urls),
        ) == count_line(urls.len()),
        forall|i: int|
            0 <= i < urls.len() ==> pattern_prompt(urls).subrange(
                pattern_prompt(urls).len() - lines_len(urls) + line_start(urls, i),
                pattern_prompt(urls).len() - lines_len(urls) + line_start(urls, i)
                    + urls[i].len(),
            ) == #[trigger] urls[i],
        forall|i: int|
            0 <= i < urls.len() - 1 ==> pattern_prompt(urls)[pattern_prompt(urls).len()
                - lines_len(urls) + line_start(urls, i) + #[trigger] urls[i].len()] == '\n',
{
    let pre = lemma_prompt_split(urls);
    let c = count_line(urls.len());
    lemma_tail_count(pre, c, urls);
    assert forall|i: int| 0 <= i < urls.len() implies pattern_prompt(urls).subrange(
        pattern_prompt(urls).len() - lines_len(urls) + line_start(urls, i),
        pattern_prompt(urls).len() - lines_len(urls) + line_start(urls, i) + urls[i].len(),
    ) == #[trigger] urls[i] by {
        lemma_tail_url(pre, c, urls, i);
    }
    assert forall|i: int| 0 <= i < urls.len() - 1 implies pattern_prompt(urls)[pattern_prompt(
        urls,
    ).len() - lines_len(urls) + line_start(urls, i) + #[trigger] urls[i].len()] == '\n' by {
        lemma_tail_break(pre, c, urls, i);
    }
}

proof fn lemma_prompt_split(urls: Seq<Seq<char>>) -> (pre: Seq<char>)
    ensures
        pattern_prompt(urls) == pre + count_line(urls.len()) + join_with(urls, "\n"@),
{
    reveal_strlit("\n\nAll ");
    reveal_strlit("All ");
    reveal_strlit("\n\n");
    let sample = if urls.len() > PROMPT_SAMPLE_SIZE {
        urls.take(PROMPT_SAMPLE_SIZE as int)
    } else {
        urls
    };
    let x = PROMPT_INTRO@ + join_with(sample, "\n"@);
    let d = decimal(urls.len());
    let u = " URLs:\n"@;
    let j = join_with(urls, "\n"@);
    assert("\n\nAll "@ =~= "\n\n"@ + "All "@);
    assert(x + "\n\nAll "@ + d + u + j =~= (x + "\n\n"@) + ("All "@ + d + u) + j);
    x + "\n\n"@
}

/// The number of URLs shown first, for structure context.
pub open spec fn sample_size(n: nat) -> nat {
    if n > PROMPT_SAMPLE_SIZE {
        PROMPT_SAMPLE_SIZE as nat
    } else {
        n
    }
}

/// The prompt opens with the instructions, followed by the first twenty URLs
/// (all of them where there are fewer), in order, one per line: the `i`-th
/// of them stands right after the instructions at its own place, each but
/// the last followed by a line break.
pub proof fn law_prompt_opens_with_sample(urls: Seq<Seq<char>>, i: int)
    requires
        0 <= i < sample_size(urls.len()),
    ensures
        pattern_prompt(urls).subrange(0, PROMPT_INTRO@.len() as int) == PROMPT_INTRO@,
        pattern_prompt(urls).subrange(
            PROMPT_INTRO@.len() + line_start(urls, i),
            PROMPT_INTRO@.len() + line_start(urls, i) + urls[i].len(),
        ) == urls[i],
        i < sample_size(urls.len()) - 1 ==> pattern_prompt(urls)[PROMPT_INTRO@.len()
            + line_start(urls, i) + urls[i].len()] == '\n',
{
    reveal_strlit("\n");
    let n = sample_size(urls.len());
    let sample = urls.take(n as int);
    assert(sample =~= (if urls.len() > PROMPT_SAMPLE_SIZE {
        urls.take(PROMPT_SAMPLE_SIZE as int)
    } else {
        urls
    }));
    let intro = PROMPT_INTRO@;
    let js = join_with(sample, "\n"@);
    let rest = "\n\nAll "@ + decimal(urls.len()) + " URLs:\n"@ + join_with(urls, "\n"@);
    assert(pattern_prompt(urls) =~= intro + js + rest);
    lemma_join_layout(sample, "\n"@);
    lemma_line_bounds(sample, i);
    lemma_line_start_prefix(urls, n as int, i);
    assert(sample[i] == urls[i]);
    lemma_subrange_before(intro, js + rest, 0, intro.len() as int);
    assert(intro + js + rest =~= intro + (js + rest));
    let lo = line_start(sample, i);
    let hi = lo + sample[i].len();
    lemma_subrange_before(js, rest, lo, hi);
    lemma_subrange_after(intro, js + rest, lo, hi);
    if i < n - 1 {
        lemma_line_bounds(sample, i + 1);
        assert(js[hi] == "\n"@[0]);
        assert((js + rest)[hi] == js[hi]);
        assert((intro + (js + rest))[intro.len() + hi] == (js + rest)[hi]);
    }
}

proof fn lemma_tail_count(pre: Seq<char>, c: Seq<char>, urls: Seq<Seq<char>>)
    ensures
        (pre + c + join_with(urls, "\n"@)).len() == pre.len() + c.len() + lines_len(urls),
        (pre + c + join_with(urls, "\n"@)).subrange(
            pre.len() as int,
            (pre.len() + c.len()) as int,
        ) == c,
{
    reveal_strlit("\n");
    lemma_join_layout(urls, "\n"@);
    let j = join_with(urls, "\n"@);
    assert((pre + c + j).subrange(pre.len() as int, (pre.len() + c.len()) as int) =~= c);
}

proof fn lemma_tail_url(pre: Seq<char>, c: Seq<char>, urls: Seq<Seq<char>>, i: int)
    requires
        0 <= i < urls.len(),
    ensures
        (pre + c + join_with(urls, "\n"@)).subrange(
            pre.len() + c.len() + line_start(urls, i),
            pre.len() + c.len() + line_start(urls, i) + urls[i].len(),
        ) == urls[i],
{
    reveal_strlit("\n");
    lemma_join_layout(urls, "\n"@);
    lemma_line_bounds(urls, i);
    let j = join_with(urls, "\n"@);
    assert(j.subrange(line_start(urls, i), line_start(urls, i) + urls[i].len()) == urls[i]);
    lemma_subrange_after(pre + c, j, line_start(urls, i), line_start(urls, i) + urls[i].len());
}

proof fn lemma_tail_break(pre: Seq<char>, c: Seq<char>, urls: Seq<Seq<char>>, i: int)
    requires
        0 <= i < urls.len() - 1,
    ensures
        (pre + c + join_with(urls, "\n"@))[pre.len() + c.len() + line_start(urls, i)
            + urls[i].len()] == '\n',
{
    reveal_strlit("\n");
    lemma_join_layout(urls, "\n"@);
    let j = join_with(urls, "\n"@);
    let k = line_start(urls, i) + urls[i].len();
    lemma_line_bounds(urls, i);
    lemma_line_bounds(urls, i + 1);
    assert(line_start(urls, i + 1) == k + 1);
    assert(j.len() == lines_len(urls));
    assert(0 <= k < j.len());
    assert(j[k] == "\n"@[0]);
    assert((pre + c + j)[(pre + c).len() + k] == j[k]);
}

/// Whether a failure of the structured request is worth one more try
/// without the schema: a bad request, or anything about the schema, the
/// structured output or an invalid argument (ASCII case ignored).
pub open spec fn retry_without_schema(error: Seq<char>) -> bool {
    let lower = ascii_lower(error);
    let is_bad_request = contains(lower, "400"@) || contains(lower, "bad request"@);
    let is_schema_related = contains(lower, "schema"@) || contains(lower, "structured"@)
        || contains(lower, "invalid argument"@);
    is_bad_request || is_schema_related
}

/// Whether a failed structured request should be retried without the schema.
pub fn should_retry_without_schema(error: &str) -> (r: bool)
    ensures
        r == retry_without_schema(error@),
{
    let lower = ascii_lowercase_chars(error);
    let is_bad_request = contains_chars(&lower, &chars_of("400")) || contains_chars(
        &lower,
        &chars_of("bad request"),
    );
    let is_schema_related = contains_chars(&lower, &chars_of("schema")) || contains_chars(
        &lower,
        &chars_of("structured"),
    ) || contains_chars(&lower, &chars_of("invalid argument"));
    is_bad_request || is_schema_related
}

/// The pattern that a reply field stands for: none where it is empty or
/// only white space, else the field as it is.
pub open spec fn reply_pattern(field: Seq<char>) -> Option<Seq<char>> {
    if trim(field).len() == 0 {
        None
    } else {
        Some(field)
    }
}

/// The pattern of a decoded reply: `None` when Gemini says no consistent
/// pattern exists.
pub fn pattern_from_response(response: PatternResponse) -> (r: Option<String>)
    ensures
        match reply_pattern(response.pattern@) {
            Some(p) => r matches Some(s) && s@ == p,
            None => r is None,
        },
{
    let trimmed = trim_str(response.pattern.as_str());
    if trimmed.as_str().is_empty() {
        proof {
            assert(trimmed@.len() == 0);
        }
        None
    } else {
        Some(response.pattern)
    }
}

/// The part of a reply from its first `{` to its last `}`, where it has both.
pub open spec fn object_bounds(raw: Seq<char>) -> Option<(int, int)> {
    let s = first_index(raw, '{');
    let e = last_index(raw, '}');
    if s >= 0 && e >= 0 {
        Some((s, e))
    } else {
        None
    }
}

/// Where the reply's first `{` comes more than one place after its last `}`,
/// so that no text lies between them: slicing it out panics.
pub open spec fn object_bounds_crossed(raw: Seq<char>) -> bool {
    object_bounds(raw) matches Some((s, e)) && s > e + 1
}


/// Where the pattern query stands.
pub enum QueryStage {
    /// Asking with the structured-output schema.
    Structured,
    /// The structured request failed with this message; asking again without the schema.
    Fallback(String),
    /// A reply arrived; its whole text is being decoded.
    DecodingWhole(String),
    /// The whole reply did not decode; the part from its first `{` to its last `}` is.
    DecodingObject,
    /// The query is over.
    Done,
}

/// What the outside world reports back to the pattern query.
pub enum QueryEvent {
    /// Building the client for the current request failed with this message.
    ClientFailed(String),
    /// The chat request failed with this message.
    ChatFailed(String),
    /// The chat replied, with its text where it had one.
    Replied(Option<String>),
    /// Decoding the text handed out as a `PatternResponse` gave this, or the decoder's message.
    Decoded(Result<PatternResponse, String>),
}

/// What the pattern query asks the outside world to do next.
pub enum QueryAction {
    /// Build a client (with the structured-output schema or without) and send the prompt.
    Send { with_schema: bool },
    /// Decode this text as a `PatternResponse`.
    Decode(String),
    /// The query is over, with this outcome.
    Finish(Result<Option<String>, AppError>),
}

/// The decisions of one Gemini pattern query.
pub struct PatternQuery {
    stage: QueryStage,
}

pub open spec fn structured_build_failed(e: Seq<char>) -> Seq<char> {
    "Failed to build Gemini client (structured): "@ + e
}

pub open spec fn fallback_build_failed(e: Seq<char>) -> Seq<char> {
    "Failed to build Gemini fallback client (no schema): "@ + e
}

pub open spec fn structured_chat_failed(e: Seq<char>) -> Seq<char> {
    "Gemini chat error (structured output): "@ + e
}

pub open spec fn both_chats_failed(first: Seq<char>, second: Seq<char>) -> Seq<char> {
    "Gemini chat failed with structured output ('"@ + first
        + "') and fallback without schema ('"@ + second + "')."@
}

/// The action ends the query with a Gemini error carrying `message`.
pub open spec fn fails_with(action: QueryAction, message: Seq<char>) -> bool {
    action matches QueryAction::Finish(Err(AppError::Gemini(m))) && m@ == message
}

/// The action ends the query with the pattern that the reply field `field` stands for.
pub open spec fn finishes_with_pattern(action: QueryAction, field: Seq<char>) -> bool {
    action matches QueryAction::Finish(Ok(o)) && match reply_pattern(field) {
        Some(p) => o matches Some(s) && s@ == p,
        None => o is None,
    }
}

/// Whether the query, at `stage`, takes `event`: a request stage takes the
/// outcome of a request, a decoding stage the outcome of decoding (where
/// the braces of the reply are not crossed), and a finished query nothing.
pub open spec fn takes(stage: QueryStage, event: QueryEvent) -> bool {
    match stage {
        QueryStage::Structured => !(event is Decoded),
        QueryStage::Fallback(_) => !(event is Decoded),
        QueryStage::DecodingWhole(raw) => event matches QueryEvent::Decoded(d) && (d is Err
            ==> !object_bounds_crossed(raw@)),
        QueryStage::DecodingObject => event is Decoded,
        QueryStage::Done => false,
    }
}

/// One step of the query: from `stage`, on `event`, to `next`, doing `action`.
pub open spec fn transition(
    stage: QueryStage,
    event: QueryEvent,
    next: QueryStage,
    action: QueryAction,
) -> bool {
    match event {
        QueryEvent::ClientFailed(e) => next is Done && match stage {
            QueryStage::Fallback(_) => fails_with(action, fallback_build_failed(e@)),
            _ => fails_with(action, structured_build_failed(e@)),
        },
        QueryEvent::ChatFailed(e) => match stage {
            QueryStage::Fallback(first) => next is Done && fails_with(
                action,
                both_chats_failed(first@, e@),
            ),
            _ => if retry_without_schema(e@) {
                &&& (next matches QueryStage::Fallback(f) && f@ == e@)
                &&& action == (QueryAction::Send { with_schema: false })
            } else {
                next is Done && fails_with(action, structured_chat_failed(e@))
            },
        },
        QueryEvent::Replied(None) => next is Done && fails_with(
            action,
            "Empty response from Gemini"@,
        ),
        QueryEvent::Replied(Some(t)) => {
            &&& (next matches QueryStage::DecodingWhole(raw) && raw@ == t@)
            &&& (action matches QueryAction::Decode(d) && d@ == t@)
        },
        QueryEvent::Decoded(Ok(response)) => next is Done && finishes_with_pattern(
            action,
            response.pattern@,
        ),
        QueryEvent::Decoded(Err(m)) => match stage {
            QueryStage::DecodingWhole(raw) => match object_bounds(raw@) {
                Some((s, e)) => {
                    &&& next is DecodingObject
                    &&& (action matches QueryAction::Decode(d) && d@ == raw@.subrange(s, e + 1))
                },
                None => next is Done && fails_with(
                    action,
                    "Could not parse Gemini JSON response"@,
                ),
            },
            _ => next is Done && (action matches QueryAction::Finish(Err(AppError::Json(j)))
                && j@ == m@),
        },
    }
}

/// How far the query is from its end: every step brings it closer.
pub open spec fn distance_to_end(stage: QueryStage) -> nat {
    match stage {
        QueryStage::Structured => 4,
        QueryStage::Fallback(_) => 3,
        QueryStage::DecodingWhole(_) => 2,
        QueryStage::DecodingObject => 1,
        QueryStage::Done => 0,
    }
}

/// Where the reply `raw` has a `{` and a `}`: the indices of the first `{`
/// and the last `}`.
fn find_object_bounds(raw: &str) -> (r: Option<(usize, usize)>)
    ensures
        match object_bounds(raw@) {
            Some((s, e)) => r == Some((s as usize, e as usize)) && 0 <= s < raw@.len() && 0 <= e
                < raw@.len(),
            None => r is None,
        },
        raw@.len() <= usize::MAX,
{
    let v = chars_of(raw);
    let s = first_index_of(&v, '{');
    let e = last_index_of(&v, '}');
    proof {
        lemma_index_bounds(raw@, '{', '}');
    }
    match (s, e) {
        (Some(s), Some(e)) => Some((s, e)),
        _ => None,
    }
}

proof fn lemma_index_bounds(s: Seq<char>, a: char, b: char)
    ensures
        first_index(s, a) < s.len(),
        last_index(s, b) < s.len(),
        first_index(s, a) >= -1,
        last_index(s, b) >= -1,
    decreases s.len(),
{
    if s.len() > 0 {
        lemma_index_bounds(s.drop_first(), a, b);
        lemma_index_bounds(s.drop_last(), a, b);
    }
}

fn gemini_failure(prefix: &str, detail: &str) -> (r: QueryAction)
    ensures
        fails_with(r, prefix@ + detail@),
{
    QueryAction::Finish(Err(AppError::Gemini(String::from_str(prefix).concat(detail))))
}

impl PatternQuery {
    pub closed spec fn stage(&self) -> QueryStage {
        self.stage
    }

    /// A new query, and its first action: send the prompt with the
    /// structured-output schema.
    pub fn start() -> (r: (PatternQuery, QueryAction))
        ensures
            r.0.stage() is Structured,
            r.1 == (QueryAction::Send { with_schema: true }),
    {
        (PatternQuery { stage: QueryStage::Structured }, QueryAction::Send { with_schema: true })
    }

    /// Whether the query, where it stands, takes `event`.
    pub fn takes(&self, event: &QueryEvent) -> (r: bool)
        ensures
            r == takes(self.stage(), *event),
    {
        match &self.stage {
            QueryStage::Structured => !matches!(event, QueryEvent::Decoded(_)),
            QueryStage::Fallback(_) => !matches!(event, QueryEvent::Decoded(_)),
            QueryStage::DecodingWhole(raw) => match event {
                QueryEvent::Decoded(Ok(_)) => true,
                QueryEvent::Decoded(Err(_)) => match find_object_bounds(raw.as_str()) {
                    Some((s, e)) => s <= e || s - e == 1,
                    None => true,
                },
                _ => false,
            },
            QueryStage::DecodingObject => matches!(event, QueryEvent::Decoded(_)),
            QueryStage::Done => false,
        }
    }

    /// Takes the outcome of the last action and decides the next one.
    pub fn step(&mut self, event: QueryEvent) -> (r: QueryAction)
        requires
            takes(old(self).stage(), event),
        ensures
            transition(old(self).stage(), event, final(self).stage(), r),
    {
        let mut stage = QueryStage::Done;
        std::mem::swap(&mut stage, &mut self.stage);
        match event {
            QueryEvent::ClientFailed(e) => match stage {
                QueryStage::Fallback(_) => gemini_failure(
                    "Failed to build Gemini fallback client (no schema): ",
                    e.as_str(),
                ),
                _ => gemini_failure("Failed to build Gemini client (structured): ", e.as_str()),
            },
            QueryEvent::ChatFailed(e) => match stage {
                QueryStage::Fallback(first) => {
                    let mut m = String::from_str("Gemini chat failed with structured output ('");
                    m.append(first.as_str());
                    m.append("') and fallback without schema ('");
                    m.append(e.as_str());
                    m.append("').");
                    QueryAction::Finish(Err(AppError::Gemini(m)))
                },
                _ => if should_retry_without_schema(e.as_str()) {
                    self.stage = QueryStage::Fallback(e);
                    QueryAction::Send { with_schema: false }
                } else {
                    gemini_failure("Gemini chat error (structured output): ", e.as_str())
                },
            },
            QueryEvent::Replied(None) => QueryAction::Finish(
                Err(AppError::Gemini(String::from_str("Empty response from Gemini"))),
            ),
            QueryEvent::Replied(Some(text)) => {
                let action = QueryAction::Decode(text.clone());
                self.stage = QueryStage::DecodingWhole(text);
                action
            },
            QueryEvent::Decoded(Ok(response)) => QueryAction::Finish(
                Ok(pattern_from_response(response)),
            ),
            QueryEvent::Decoded(Err(m)) => match stage {
                QueryStage::DecodingWhole(raw) => match find_object_bounds(raw.as_str()) {
                    Some((s, e)) => {
                        let part = String::from_str(raw.as_str().substring_char(s, e + 1));
                        self.stage = QueryStage::DecodingObject;
                        QueryAction::Decode(part)
                    },
                    None => QueryAction::Finish(
                        Err(
                            AppError::Gemini(
                                String::from_str("Could not parse Gemini JSON response"),
                            ),
                        ),
                    ),
                },
                _ => QueryAction::Finish(Err(AppError::Json(m))),
            },
        }
    }
}

/// The fallback slice of a reply runs from its first `{` to its last `}`:
/// where the reply has both, the bounds hold those characters, with no `{`
/// before the start and no `}` after the end; where it lacks either, there
/// are no bounds.
pub proof fn law_object_bounds(raw: Seq<char>)
    ensures
        object_bounds(raw) is None <==> (forall|k: int| 0 <= k < raw.len() ==> raw[k] != '{')
            || (forall|k: int| 0 <= k < raw.len() ==> raw[k] != '}'),
        object_bounds(raw) matches Some((s, e)) ==> {
            &&& 0 <= s < raw.len() && 0 <= e < raw.len()
            &&& raw[s] == '{' && raw[e] == '}'
            &&& forall|k: int| 0 <= k < s ==> raw[k] != '{'
            &&& forall|k: int| e < k < raw.len() ==> raw[k] != '}'
        },
{
    lemma_first_index_spec(raw, '{');
    lemma_last_index_spec(raw, '}');
}

/// When the whole reply fails to decode, what is decoded next is the reply's
/// text from its first `{` through its last `}`.
pub proof fn law_object_fallback(
    raw: String,
    message: String,
    next: QueryStage,
    action: QueryAction,
)
    requires
        transition(
            QueryStage::DecodingWhole(raw),
            QueryEvent::Decoded(Err(message)),
            next,
            action,
        ),
        exists|k: int| 0 <= k < raw@.len() && raw@[k] == '{',
        exists|k: int| 0 <= k < raw@.len() && raw@[k] == '}',
    ensures
        exists|s: int, e: int|
            {
                &&& 0 <= s < raw@.len() && 0 <= e < raw@.len()
                &&& raw@[s] == '{' && raw@[e] == '}'
                &&& (forall|k: int| 0 <= k < s ==> raw@[k] != '{')
                &&& (forall|k: int| e < k < raw@.len() ==> raw@[k] != '}')
                &&& action matches QueryAction::Decode(d) && d@ == raw@.subrange(s, e + 1)
            },
{
    law_object_bounds(raw@);
    let (s, e) = object_bounds(raw@)->0;
    assert(action matches QueryAction::Decode(d) && d@ == raw@.subrange(s, e + 1));
}

/// A reply field stands for no pattern exactly when it is empty or all white
/// space; otherwise it is the pattern, unchanged (not trimmed).
pub proof fn law_reply_pattern(field: Seq<char>)
    ensures
        reply_pattern(field) is None <==> forall|k: int|
            0 <= k < field.len() ==> is_white_space(#[trigger] field[k]),
        reply_pattern(field) is Some ==> reply_pattern(field) == Some(field),
{
    lemma_trim_empty(field);
}

/// Each sign of a bad request or of schema trouble, in any ASCII case and
/// anywhere in the error, is cause to retry without the schema.
pub proof fn law_retry_causes(error: Seq<char>, needle: Seq<char>)
    requires
        needle == "400"@ || needle == "bad request"@ || needle == "schema"@ || needle
            == "structured"@ || needle == "invalid argument"@,
        contains(ascii_lower(error), needle),
    ensures
        retry_without_schema(error),
{
}

/// The schema is dropped at most once: after the fallback request, the
/// query never sends again.
pub proof fn law_single_retry(
    first: String,
    event: QueryEvent,
    next: QueryStage,
    action: QueryAction,
)
    requires
        takes(QueryStage::Fallback(first), event),
        transition(QueryStage::Fallback(first), event, next, action),
    ensures
        !(action is Send),
        !(next is Structured || next is Fallback),
{
}

/// Every step brings the query closer to its end, so it ends after at most
/// four steps, and a finished query asks for nothing more.
pub proof fn law_query_progresses(
    stage: QueryStage,
    event: QueryEvent,
    next: QueryStage,
    action: QueryAction,
)
    requires
        takes(stage, event),
        transition(stage, event, next, action),
    ensures
        distance_to_end(next) < distance_to_end(stage),
        next is Done <==> action is Finish,
{
}

/// A structured request that fails for a reason other than a bad request
/// or the schema is not retried: the query ends with that error.
pub proof fn law_no_retry_without_cause(
    error: String,
    next: QueryStage,
    action: QueryAction,
)
    requires
        !retry_without_schema(error@),
        transition(QueryStage::Structured, QueryEvent::ChatFailed(error), next, action),
    ensures
        next is Done,
        fails_with(action, structured_chat_failed(error@)),
{
}

/// Retrying ignores ASCII case: an error message and its lower-case form
/// are judged alike.
pub proof fn law_retry_ignores_case(error: Seq<char>)
    ensures
        retry_without_schema(ascii_lower(error)) == retry_without_schema(error),
{
    assert(ascii_lower(ascii_lower(error)) =~= ascii_lower(error));
}

} // verus!
