//! Canonical form of a crawled URL, for deduplication and comparison.

use vstd::prelude::*;

use crate::text::{
    chars_of, contains, contains_str, ends_with_char, has_char, has_char_str, occurs_at, trim,
    trim_end_char, trim_end_matches_char, trim_str,
};

verus! {

#[verifier::external_type_specification]
#[verifier::external_body]
pub struct ExUrl(url::Url);

#[verifier::external_type_specification]
#[verifier::external_body]
pub struct ExUrlParseError(url::ParseError);

/// What a `url::Url` holds as text: its serialization, which `Display`
/// writes out. (The `Url` also keeps offsets into that text, so two URLs
/// with one serialization need not be the same value.)
pub uninterp spec fn url_serialization(url: url::Url) -> Seq<char>;

/// What `url::Url::parse` makes of `input`: the parsed URL, or `None` where
/// it returns an error.
pub uninterp spec fn url_parse_result(input: Seq<char>) -> Option<url::Url>;

/// The URL that `Url::set_query(None)` leaves of `url`.
pub uninterp spec fn url_query_cleared(url: url::Url) -> url::Url;

/// The URL that `Url::set_fragment(None)` leaves of `url`.
pub uninterp spec fn url_fragment_cleared(url: url::Url) -> url::Url;

/// Calls `url::Url::parse`: `Ok` exactly where the parse result is named
/// `Some`, holding that URL. The parser (in its URL-parser context) ends the
/// path at `?` and `#` and the query at `#`, and percent-encodes or refuses
/// those characters in user info and host, so in a parsed URL `?` occurs
/// only from the query on and `#` only from the fragment on: once
/// `set_query(None)` and `set_fragment(None)` have removed both, neither
/// character is left.
#[verifier::external_body]
fn parse_url(input: &str) -> (r: Result<url::Url, url::ParseError>)
    ensures
        r is Ok <==> url_parse_result(input@) is Some,
        r matches Ok(u) ==> url_parse_result(input@) == Some(u),
        r matches Ok(u) ==> !has_char(
            url_serialization(url_fragment_cleared(url_query_cleared(u))),
            '?',
        ),
        r matches Ok(u) ==> !has_char(
            url_serialization(url_fragment_cleared(url_query_cleared(u))),
            '#',
        ),
{
    url::Url::parse(input)
}

/// Calls `url::Url::set_query(None)`, which drops the query.
#[verifier::external_body]
fn clear_query(url: &mut url::Url)
    ensures
        *final(url) == url_query_cleared(*old(url)),
{
    url.set_query(None)
}

/// Calls `url::Url::set_fragment(None)`, which drops the fragment.
#[verifier::external_body]
fn clear_fragment(url: &mut url::Url)
    ensures
        *final(url) == url_fragment_cleared(*old(url)),
{
    url.set_fragment(None)
}

/// Calls `ToString::to_string` on a `url::Url`, whose `Display` writes its serialization.
#[verifier::external_body]
fn url_to_string(url: &url::Url) -> (r: String)
    ensures
        r@ == url_serialization(*url),
{
    url.to_string()
}

/// Index of the first occurrence of `needle` in `s` at or after `from`, or -1.
pub open spec fn find_from(s: Seq<char>, needle: Seq<char>, from: int) -> int
    decreases s.len() + 1 - from,
{
    if from < 0 || from + needle.len() > s.len() {
        -1
    } else if occurs_at(s, needle, from) {
        from
    } else {
        find_from(s, needle, from + 1)
    }
}

/// What follows the first `"://"` in `s`, or nothing where there is none
/// (as `s.splitn(2, "://").nth(1).unwrap_or("")` gives it).
pub open spec fn after_scheme(s: Seq<char>) -> Seq<char> {
    let k = find_from(s, scheme_separator(), 0);
    if k < 0 {
        Seq::empty()
    } else {
        s.subrange(k + 3, s.len() as int)
    }
}

pub open spec fn scheme_separator() -> Seq<char> {
    seq![':', '/', '/']
}

/// The trailing-slash rule: a serialization that ends with `/` loses all its
/// trailing slashes, unless that would leave no path after the host.
pub open spec fn trim_path_slash(s: Seq<char>) -> Seq<char> {
    if s.len() > 0 && s.last() == '/' {
        let without = trim_end_char(s, '/');
        if contains(without, scheme_separator()) && has_char(without, '/') && has_char(
            after_scheme(without),
            '/',
        ) {
            without
        } else {
            s
        }
    } else {
        s
    }
}

/// The canonical form of `raw`: trimmed; where it parses as a URL, the
/// serialization without query and fragment and with the trailing-slash rule
/// applied; where it does not, the trimmed text without trailing slashes.
pub open spec fn normalized(raw: Seq<char>) -> Seq<char> {
    let t = trim(raw);
    match url_parse_result(t) {
        None => trim_end_char(t, '/'),
        Some(u) => trim_path_slash(url_serialization(url_fragment_cleared(url_query_cleared(u)))),
    }
}

/// What follows the first `"://"` in `s`.
fn after_scheme_str(s: &str) -> (r: String)
    ensures
        r@ == after_scheme(s@),
{
    let v = chars_of(s);
    let n = v.len();
    let ghost sep = scheme_separator();
    if n < 3 {
        assert(find_from(s@, sep, 0) == -1);
        return String::new();
    }
    let mut i: usize = 0;
    while i < n - 2
        invariant
            v@ == s@,
            n == v.len(),
            n >= 3,
            sep == seq![':', '/', '/'],
            find_from(s@, sep, 0) == find_from(s@, sep, i as int),
        decreases n - i,
    {
        if v[i] == ':' && v[i + 1] == '/' && v[i + 2] == '/' {
            assert(s@.subrange(i as int, i + 3) =~= sep);
            return String::from_str(s.substring_char(i + 3, n));
        }
        proof {
            assert(s@.subrange(i as int, i + 3)[0] == v@[i as int]);
            assert(s@.subrange(i as int, i + 3)[1] == v@[i + 1]);
            assert(s@.subrange(i as int, i + 3)[2] == v@[i + 2]);
            assert(!occurs_at(s@, sep, i as int));
        }
        i = i + 1;
    }
    String::new()
}

/// Applies the trailing-slash rule to a URL serialization.
pub fn trim_trailing_path_slash(s: String) -> (r: String)
    ensures
        r@ == trim_path_slash(s@),
{
    if ends_with_char(s.as_str(), '/') {
        let without = trim_end_matches_char(s.as_str(), '/');
        proof {
            reveal_strlit("://");
            assert("://"@ =~= scheme_separator());
        }
        if contains_str(without.as_str(), "://") && has_char_str(without.as_str(), '/') {
            let after = after_scheme_str(without.as_str());
            if has_char_str(after.as_str(), '/') {
                return without;
            }
        }
    }
    s
}

/// Normalizes URLs for stable deduplication and comparison: surrounding white
/// space, the query and the fragment are dropped, scheme and host come out in
/// lower case (as `url` serializes them), and a trailing slash on a path is
/// trimmed while the bare root keeps its slash. Text that does not parse as
/// a URL is only trimmed and loses its trailing slashes.
pub fn normalize_url(raw: &str) -> (r: String)
    ensures
        r@ == normalized(raw@),
        url_parse_result(trim(raw@)) is Some ==> !has_char(r@, '?') && !has_char(r@, '#'),
{
    let trimmed = trim_str(raw);
    match parse_url(trimmed.as_str()) {
        Err(_) => trim_end_matches_char(trimmed.as_str(), '/'),
        Ok(mut parsed) => {
            clear_query(&mut parsed);
            clear_fragment(&mut parsed);
            let serialized = url_to_string(&parsed);
            proof {
                lemma_trim_end_char_keeps_absent(serialized@, '/', '?');
                lemma_trim_end_char_keeps_absent(serialized@, '/', '#');
            }
            trim_trailing_path_slash(serialized)
        },
    }
}


proof fn lemma_trim_end_char_result(s: Seq<char>, c: char)
    ensures
        !(trim_end_char(s, c).len() > 0 && trim_end_char(s, c).last() == c),
    decreases s.len(),
{
    if s.len() > 0 && s.last() == c {
        lemma_trim_end_char_result(s.drop_last(), c);
    }
}

/// The trailing-slash rule either leaves a serialization as it is or leaves
/// it without any trailing slash.
pub proof fn law_trailing_slash_rule(s: Seq<char>)
    ensures
        trim_path_slash(s) == s || !(trim_path_slash(s).len() > 0 && trim_path_slash(s).last()
            == '/'),
{
    lemma_trim_end_char_result(s, '/');
}

/// Text that is not a URL comes out without trailing slashes.
pub proof fn law_non_url_has_no_trailing_slash(raw: Seq<char>)
    requires
        url_parse_result(trim(raw)) is None,
    ensures
        !(normalized(raw).len() > 0 && normalized(raw).last() == '/'),
{
    lemma_trim_end_char_result(trim(raw), '/');
}


proof fn lemma_trim_end_char_keeps_absent(s: Seq<char>, c: char, x: char)
    requires
        !has_char(s, x),
    ensures
        !has_char(trim_end_char(s, c), x),
    decreases s.len(),
{
    if s.len() > 0 && s.last() == c {
        assert forall|i: int| 0 <= i < s.drop_last().len() implies s.drop_last()[i] != x by {
            assert(s.drop_last()[i] == s[i]);
        }
        lemma_trim_end_char_keeps_absent(s.drop_last(), c, x);
    }
}


proof fn lemma_trim_end_char_spec(s: Seq<char>, c: char)
    ensures
        trim_end_char(s, c).len() <= s.len(),
        s.take(trim_end_char(s, c).len() as int) == trim_end_char(s, c),
        trim_end_char(s, c).len() == 0 || trim_end_char(s, c).last() != c,
        forall|t: int| trim_end_char(s, c).len() <= t < s.len() ==> s[t] == c,
    decreases s.len(),
{
    if s.len() > 0 && s.last() == c {
        let p = s.drop_last();
        lemma_trim_end_char_spec(p, c);
        let r = trim_end_char(p, c);
        assert(s.take(r.len() as int) =~= p.take(r.len() as int));
        assert forall|t: int| r.len() <= t < s.len() implies s[t] == c by {
            if t < s.len() - 1 {
                assert(s[t] == p[t]);
            }
        }
    } else {
        assert(s.take(s.len() as int) =~= s);
    }
}

proof fn lemma_find_from_first(s: Seq<char>, needle: Seq<char>, from: int, k: int)
    requires
        0 <= from <= k,
        occurs_at(s, needle, k),
        forall|j: int| from <= j < k ==> !occurs_at(s, needle, j),
    ensures
        find_from(s, needle, from) == k,
    decreases k - from,
{
    if from < k {
        lemma_find_from_first(s, needle, from + 1, k);
    }
}

/// A trailing slash on a path is trimmed, whatever the URL's length: where a
/// serialization ends with `/` and, after its first `"://"`, has a `/`
/// followed later by some other character (a path below the host), the
/// result is the serialization with all its trailing slashes removed.
pub proof fn law_path_slash_trimmed(s: Seq<char>, k: int, p: int, q: int)
    requires
        s.len() > 0 && s.last() == '/',
        occurs_at(s, seq![':', '/', '/'], k),
        forall|j: int| 0 <= j < k ==> !occurs_at(s, seq![':', '/', '/'], j),
        k + 3 <= p < q < s.len(),
        s[p] == '/',
        s[q] != '/',
    ensures
        trim_path_slash(s).len() < s.len(),
        s.take(trim_path_slash(s).len() as int) == trim_path_slash(s),
        trim_path_slash(s).len() > 0 && trim_path_slash(s).last() != '/',
        forall|t: int| trim_path_slash(s).len() <= t < s.len() ==> s[t] == '/',
{
    let sep = seq![':', '/', '/'];
    assert(sep =~= scheme_separator());
    let w = trim_end_char(s, '/');
    lemma_trim_end_char_spec(s, '/');
    let m = w.len() as int;
    assert(q < m);
    assert(w[p] == s[p]);
    assert(has_char(w, '/'));
    assert(w.subrange(k, k + 3) =~= s.subrange(k, k + 3));
    assert(occurs_at(w, sep, k));
    assert(contains(w, sep));
    assert forall|j: int| 0 <= j < k implies !occurs_at(w, sep, j) by {
        if occurs_at(w, sep, j) {
            assert forall|t: int| j <= t < j + 3 implies w[t] == s[t] by {
                assert(s.take(m)[t] == s[t]);
            }
            assert(w.subrange(j, j + 3) =~= s.subrange(j, j + 3));
            assert(occurs_at(s, sep, j));
        }
    }
    lemma_find_from_first(w, sep, 0, k);
    let after = after_scheme(w);
    assert(after == w.subrange(k + 3, m));
    assert(after[p - (k + 3)] == '/');
    assert(has_char(after, '/'));
    assert(trim_path_slash(s) == w);
    assert(w.last() == s[m - 1]);
}

/// The bare root keeps its slash: where, after the first `"://"`, every `/`
/// is followed only by slashes (no path below the host), the serialization
/// is left as it is.
pub proof fn law_root_slash_kept(s: Seq<char>, k: int)
    requires
        occurs_at(s, seq![':', '/', '/'], k),
        forall|j: int| 0 <= j < k ==> !occurs_at(s, seq![':', '/', '/'], j),
        forall|p: int, q: int| k + 3 <= p < q < s.len() && s[p] == '/' ==> s[q] == '/',
    ensures
        trim_path_slash(s) == s,
{
    let sep = seq![':', '/', '/'];
    assert(sep =~= scheme_separator());
    if s.len() > 0 && s.last() == '/' {
        let w = trim_end_char(s, '/');
        lemma_trim_end_char_spec(s, '/');
        let m = w.len() as int;
        if contains(w, sep) && has_char(w, '/') && has_char(after_scheme(w), '/') {
            if k + 3 <= m {
                assert(w.subrange(k, k + 3) =~= s.subrange(k, k + 3));
                assert forall|j: int| 0 <= j < k implies !occurs_at(w, sep, j) by {
                    if occurs_at(w, sep, j) {
                        assert forall|t: int| j <= t < j + 3 implies w[t] == s[t] by {
                            assert(s.take(m)[t] == s[t]);
                        }
                        assert(w.subrange(j, j + 3) =~= s.subrange(j, j + 3));
                        assert(occurs_at(s, sep, j));
                    }
                }
                lemma_find_from_first(w, sep, 0, k);
                let after = after_scheme(w);
                let i = choose|i: int| 0 <= i < after.len() && after[i] == '/';
                assert(after[i] == w[i + k + 3]);
                assert(w[m - 1] != '/');
                assert(s[i + k + 3] == '/' && s[m - 1] != '/');
                assert(i + k + 3 < m - 1);
            } else {
                let j0 = choose|j: int| occurs_at(w, sep, j);
                assert(w.subrange(j0, j0 + 3) =~= s.subrange(j0, j0 + 3));
                assert(occurs_at(s, sep, j0));
                assert(j0 >= k);
                assert(j0 + 3 <= m);
            }
        }
    }
}

} // verus!
