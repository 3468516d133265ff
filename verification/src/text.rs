//! Character-level helpers on strings, stated over `Seq<char>`.

use vstd::prelude::*;

verus! {

/// The characters of `s`, in order.
pub fn chars_of(s: &str) -> (v: Vec<char>)
    ensures
        v@ == s@,
{
    broadcast use vstd::string::group_string_axioms;
    let mut v: Vec<char> = Vec::new();
    for c in it: s.chars()
        invariant
            v@ == it.seq().take(it.index()),
    {
        v.push(c);
    }
    v
}

/// Unicode `White_Space`, the set that `char::is_whitespace` and `str::trim` use.
pub open spec fn is_white_space(c: char) -> bool {
    ||| ('\u{9}' <= c && c <= '\u{d}')
    ||| c == ' '
    ||| c == '\u{85}'
    ||| c == '\u{a0}'
    ||| c == '\u{1680}'
    ||| ('\u{2000}' <= c && c <= '\u{200a}')
    ||| c == '\u{2028}'
    ||| c == '\u{2029}'
    ||| c == '\u{202f}'
    ||| c == '\u{205f}'
    ||| c == '\u{3000}'
}

pub fn white_space(c: char) -> (r: bool)
    ensures
        r == is_white_space(c),
{
    ('\u{9}' <= c && c <= '\u{d}') || c == ' ' || c == '\u{85}' || c == '\u{a0}' || c == '\u{1680}'
        || ('\u{2000}' <= c && c <= '\u{200a}') || c == '\u{2028}' || c == '\u{2029}' || c
        == '\u{202f}' || c == '\u{205f}' || c == '\u{3000}'
}


/// `s` without its leading white space.
pub open spec fn trim_start(s: Seq<char>) -> Seq<char>
    decreases s.len(),
{
    if s.len() > 0 && is_white_space(s[0]) {
        trim_start(s.drop_first())
    } else {
        s
    }
}

/// `s` without its trailing white space.
pub open spec fn trim_end(s: Seq<char>) -> Seq<char>
    decreases s.len(),
{
    if s.len() > 0 && is_white_space(s.last()) {
        trim_end(s.drop_last())
    } else {
        s
    }
}

/// `s` without leading and trailing white space, as `str::trim` gives it.
pub open spec fn trim(s: Seq<char>) -> Seq<char> {
    trim_end(trim_start(s))
}

/// `s` without any trailing occurrence of `c`, as `str::trim_end_matches` with a `char` gives it.
pub open spec fn trim_end_char(s: Seq<char>, c: char) -> Seq<char>
    decreases s.len(),
{
    if s.len() > 0 && s.last() == c {
        trim_end_char(s.drop_last(), c)
    } else {
        s
    }
}

pub open spec fn starts_with(s: Seq<char>, prefix: Seq<char>) -> bool {
    prefix.len() <= s.len() && s.subrange(0, prefix.len() as int) == prefix
}

/// `needle` occurs in `hay` at position `i`.
pub open spec fn occurs_at(hay: Seq<char>, needle: Seq<char>, i: int) -> bool {
    0 <= i && i + needle.len() <= hay.len() && hay.subrange(i, i + needle.len()) == needle
}

/// `needle` occurs somewhere in `hay`.
pub open spec fn contains(hay: Seq<char>, needle: Seq<char>) -> bool {
    exists|i: int| occurs_at(hay, needle, i)
}

/// `c` occurs in `s`.
pub open spec fn has_char(s: Seq<char>, c: char) -> bool {
    exists|i: int| 0 <= i < s.len() && s[i] == c
}

proof fn lemma_trim_start_suffix(s: Seq<char>, i: int)
    requires
        0 <= i <= s.len(),
        forall|k: int| 0 <= k < i ==> is_white_space(#[trigger] s[k]),
    ensures
        trim_start(s) == trim_start(s.subrange(i, s.len() as int)),
    decreases i,
{
    if i > 0 {
        assert(s.drop_first().subrange(i - 1, s.drop_first().len() as int) =~= s.subrange(
            i,
            s.len() as int,
        ));
        lemma_trim_start_suffix(s.drop_first(), i - 1);
    } else {
        assert(s.subrange(0, s.len() as int) =~= s);
    }
}

proof fn lemma_trim_end_prefix(s: Seq<char>, j: int)
    requires
        0 <= j <= s.len(),
        forall|k: int| j <= k < s.len() ==> is_white_space(#[trigger] s[k]),
    ensures
        trim_end(s) == trim_end(s.subrange(0, j)),
    decreases s.len() - j,
{
    if j < s.len() {
        assert(s.drop_last().subrange(0, j) =~= s.subrange(0, j));
        lemma_trim_end_prefix(s.drop_last(), j);
    } else {
        assert(s.subrange(0, j) =~= s);
    }
}

proof fn lemma_trim_end_char_prefix(s: Seq<char>, c: char, j: int)
    requires
        0 <= j <= s.len(),
        forall|k: int| j <= k < s.len() ==> #[trigger] s[k] == c,
    ensures
        trim_end_char(s, c) == trim_end_char(s.subrange(0, j), c),
    decreases s.len() - j,
{
    if j < s.len() {
        assert(s.drop_last().subrange(0, j) =~= s.subrange(0, j));
        lemma_trim_end_char_prefix(s.drop_last(), c, j);
    } else {
        assert(s.subrange(0, j) =~= s);
    }
}

/// `s` with leading and trailing white space removed.
pub fn trim_str(s: &str) -> (r: String)
    ensures
        r@ == trim(s@),
{
    let v = chars_of(s);
    let n = v.len();
    let mut i: usize = 0;
    while i < n && white_space(v[i])
        invariant
            v@ == s@,
            n == v.len(),
            i <= n,
            forall|k: int| 0 <= k < i ==> is_white_space(#[trigger] s@[k]),
        decreases n - i,
    {
        i = i + 1;
    }
    proof {
        lemma_trim_start_suffix(s@, i as int);
        let t = s@.subrange(i as int, n as int);
        if i < n {
            assert(t[0] == s@[i as int]);
        } else {
            assert(t.len() == 0);
        }
        assert(trim_start(s@) == t);
    }
    let ghost t = s@.subrange(i as int, n as int);
    let mut j: usize = n;
    while j > i && white_space(v[j - 1])
        invariant
            v@ == s@,
            n == v.len(),
            i <= j <= n,
            t == s@.subrange(i as int, n as int),
            forall|k: int| j <= k < n ==> is_white_space(#[trigger] s@[k]),
        decreases j - i,
    {
        j = j - 1;
    }
    proof {
        assert forall|k: int| (j - i) <= k < t.len() implies is_white_space(#[trigger] t[k]) by {
            assert(t[k] == s@[k + i]);
        }
        lemma_trim_end_prefix(t, (j - i) as int);
        let u = t.subrange(0, (j - i) as int);
        assert(u =~= s@.subrange(i as int, j as int));
        if j > i {
            assert(u.last() == s@[j - 1]);
        }
        assert(trim_end(u) == u);
    }
    String::from_str(s.substring_char(i, j))
}

/// `s` with every trailing `c` removed.
pub fn trim_end_matches_char(s: &str, c: char) -> (r: String)
    ensures
        r@ == trim_end_char(s@, c),
{
    let v = chars_of(s);
    let n = v.len();
    let mut j: usize = n;
    while j > 0 && v[j - 1] == c
        invariant
            v@ == s@,
            n == v.len(),
            j <= n,
            forall|k: int| j <= k < n ==> #[trigger] s@[k] == c,
        decreases j,
    {
        j = j - 1;
    }
    proof {
        lemma_trim_end_char_prefix(s@, c, j as int);
        let u = s@.subrange(0, j as int);
        if j > 0 {
            assert(u.last() == s@[j - 1]);
        }
        assert(trim_end_char(u, c) == u);
    }
    String::from_str(s.substring_char(0, j))
}

/// Whether `v` and `w` agree on `len` characters from `i` and `0`.
fn matches_at(v: &Vec<char>, w: &Vec<char>, i: usize) -> (r: bool)
    requires
        i + w.len() <= v.len(),
    ensures
        r == (v@.subrange(i as int, i + w.len()) == w@),
{
    let m = w.len();
    let mut k: usize = 0;
    while k < m
        invariant
            m == w.len(),
            i + m <= v.len(),
            k <= m,
            forall|l: int| 0 <= l < k ==> v@[i + l] == w@[l],
        decreases m - k,
    {
        if v[i + k] != w[k] {
            proof {
                assert(v@.subrange(i as int, i + m)[k as int] != w@[k as int]);
            }
            return false;
        }
        k = k + 1;
    }
    assert(v@.subrange(i as int, i + m) =~= w@);
    true
}

/// Whether the characters `needle` occur in the characters `hay`.
pub fn contains_chars(hay: &Vec<char>, needle: &Vec<char>) -> (r: bool)
    ensures
        r == contains(hay@, needle@),
{
    if needle.len() > hay.len() {
        proof {
            assert forall|i: int| !occurs_at(hay@, needle@, i) by {}
        }
        return false;
    }
    let last = hay.len() - needle.len();
    let mut i: usize = 0;
    while i < last
        invariant
            last == hay.len() - needle.len(),
            needle.len() <= hay.len(),
            i <= last,
            forall|k: int| 0 <= k < i ==> !occurs_at(hay@, needle@, k),
        decreases last - i,
    {
        if matches_at(hay, needle, i) {
            assert(occurs_at(hay@, needle@, i as int));
            return true;
        }
        i = i + 1;
    }
    if matches_at(hay, needle, last) {
        assert(occurs_at(hay@, needle@, last as int));
        return true;
    }
    assert forall|k: int| !occurs_at(hay@, needle@, k) by {
        if 0 <= k < last {
        }
    }
    false
}

/// Whether `needle` occurs in `hay`.
pub fn contains_str(hay: &str, needle: &str) -> (r: bool)
    ensures
        r == contains(hay@, needle@),
{
    contains_chars(&chars_of(hay), &chars_of(needle))
}

/// Whether `s` begins with `prefix`.
pub fn starts_with_str(s: &str, prefix: &str) -> (r: bool)
    ensures
        r == starts_with(s@, prefix@),
{
    let v = chars_of(s);
    let p = chars_of(prefix);
    if p.len() > v.len() {
        return false;
    }
    matches_at(&v, &p, 0)
}

/// Whether `s` ends with `c`.
pub fn ends_with_char(s: &str, c: char) -> (r: bool)
    ensures
        r == (s@.len() > 0 && s@.last() == c),
{
    let v = chars_of(s);
    v.len() > 0 && v[v.len() - 1] == c
}

/// Whether `c` occurs in `s`.
pub fn has_char_str(s: &str, c: char) -> (r: bool)
    ensures
        r == has_char(s@, c),
{
    let v = chars_of(s);
    let n = v.len();
    let mut i: usize = 0;
    while i < n
        invariant
            v@ == s@,
            n == v.len(),
            i <= n,
            forall|k: int| 0 <= k < i ==> s@[k] != c,
        decreases n - i,
    {
        if v[i] == c {
            return true;
        }
        i = i + 1;
    }
    false
}


/// `s` has no white space at either end.
pub open spec fn is_trimmed(s: Seq<char>) -> bool {
    s.len() == 0 || (!is_white_space(s[0]) && !is_white_space(s.last()))
}

proof fn lemma_trim_start_shape(s: Seq<char>)
    ensures
        exists|k: int| 0 <= k <= s.len() && trim_start(s) == #[trigger] s.subrange(k, s.len() as int),
        trim_start(s).len() == 0 || !is_white_space(trim_start(s)[0]),
    decreases s.len(),
{
    if s.len() > 0 && is_white_space(s[0]) {
        lemma_trim_start_shape(s.drop_first());
        let k = choose|k: int|
            0 <= k <= s.drop_first().len() && trim_start(s.drop_first()) == #[trigger] s.drop_first().subrange(
                k,
                s.drop_first().len() as int,
            );
        assert(s.drop_first().subrange(k, s.drop_first().len() as int) =~= s.subrange(
            k + 1,
            s.len() as int,
        ));
    } else {
        assert(s.subrange(0, s.len() as int) =~= s);
    }
}

proof fn lemma_trim_end_shape(s: Seq<char>)
    ensures
        exists|k: int| 0 <= k <= s.len() && trim_end(s) == #[trigger] s.subrange(0, k),
        trim_end(s).len() == 0 || !is_white_space(trim_end(s).last()),
    decreases s.len(),
{
    if s.len() > 0 && is_white_space(s.last()) {
        lemma_trim_end_shape(s.drop_last());
        let k = choose|k: int|
            0 <= k <= s.drop_last().len() && trim_end(s.drop_last()) == #[trigger] s.drop_last().subrange(
                0,
                k,
            );
        assert(s.drop_last().subrange(0, k) =~= s.subrange(0, k));
    } else {
        assert(s.subrange(0, s.len() as int) =~= s);
    }
}

/// What `trim` gives has no white space at either end.
pub proof fn lemma_trim_is_trimmed(s: Seq<char>)
    ensures
        is_trimmed(trim(s)),
{
    lemma_trim_start_shape(s);
    let t = trim_start(s);
    lemma_trim_end_shape(t);
    let k = choose|k: int| 0 <= k <= t.len() && trim_end(t) == #[trigger] t.subrange(0, k);
    if k > 0 {
        assert(trim_end(t)[0] == t[0]);
    }
}

/// Trimming a trimmed text changes nothing.
pub proof fn lemma_trim_of_trimmed(s: Seq<char>)
    requires
        is_trimmed(s),
    ensures
        trim(s) == s,
{
    assert(trim_start(s) == s);
    assert(trim_end(s) == s);
}


/// The views of a list of strings.
pub open spec fn views(v: Seq<String>) -> Seq<Seq<char>> {
    v.map_values(|s: String| s@)
}

/// The texts of `list` with `sep` between each two, as `[String]::join` gives them.
pub open spec fn join_with(list: Seq<Seq<char>>, sep: Seq<char>) -> Seq<char>
    decreases list.len(),
{
    if list.len() == 0 {
        Seq::empty()
    } else if list.len() == 1 {
        list[0]
    } else {
        join_with(list.drop_last(), sep) + sep + list.last()
    }
}

/// The first `count` strings of `list`, with `sep` between each two.
pub fn join_first(list: &[String], count: usize, sep: &str) -> (r: String)
    requires
        count <= list@.len(),
    ensures
        r@ == join_with(views(list@).take(count as int), sep@),
{
    let mut out = String::new();
    let mut i: usize = 0;
    while i < count
        invariant
            count <= list@.len(),
            i <= count,
            out@ == join_with(views(list@).take(i as int), sep@),
        decreases count - i,
    {
        proof {
            let next = views(list@).take(i + 1);
            assert(next.drop_last() =~= views(list@).take(i as int));
            assert(next.last() == list@[i as int]@);
            if i == 0 {
                assert(out@ =~= Seq::<char>::empty());
            }
        }
        if i > 0 {
            out.append(sep);
        }
        out.append(list[i].as_str());
        i = i + 1;
    }
    out
}

/// The decimal digits.
pub open spec fn digit_char(d: int) -> char {
    "0123456789"@[d]
}

/// The decimal representation of `n`, as `Display` writes an unsigned integer.
pub open spec fn decimal(n: nat) -> Seq<char>
    decreases n,
{
    if n < 10 {
        seq![digit_char(n as int)]
    } else {
        decimal(n / 10).push(digit_char((n % 10) as int))
    }
}

/// The decimal representation of `n`.
pub fn decimal_string(n: usize) -> (r: String)
    ensures
        r@ == decimal(n as nat),
    decreases n,
{
    let digits = "0123456789";
    proof {
        reveal_strlit("0123456789");
    }
    if n < 10 {
        let d = digits.substring_char(n, n + 1);
        assert(d@ =~= seq![digit_char(n as int)]);
        String::from_str(d)
    } else {
        let mut s = decimal_string(n / 10);
        let last = n % 10;
        let d = digits.substring_char(last, last + 1);
        assert(d@ =~= seq![digit_char(last as int)]);
        s.append(d);
        s
    }
}

/// `c` with ASCII upper case turned into lower case, as `char::to_ascii_lowercase` gives it.
pub open spec fn ascii_lower_char(c: char) -> char {
    if 'A' <= c && c <= 'Z' {
        ((c as u32) + 32) as char
    } else {
        c
    }
}

/// `s` with ASCII upper case turned into lower case, as `str::to_ascii_lowercase` gives it.
pub open spec fn ascii_lower(s: Seq<char>) -> Seq<char> {
    s.map_values(|c: char| ascii_lower_char(c))
}

/// The characters of `s` with ASCII upper case turned into lower case.
pub fn ascii_lowercase_chars(s: &str) -> (r: Vec<char>)
    ensures
        r@ == ascii_lower(s@),
{
    let v = chars_of(s);
    let n = v.len();
    let mut out: Vec<char> = Vec::new();
    let mut i: usize = 0;
    while i < n
        invariant
            v@ == s@,
            n == v.len(),
            i <= n,
            out@ == ascii_lower(s@).take(i as int),
        decreases n - i,
    {
        let c = v[i];
        let l = if 'A' <= c && c <= 'Z' {
            ((c as u8) + 32) as char
        } else {
            c
        };
        assert(l == ascii_lower_char(c));
        let ghost before = out@;
        out.push(l);
        assert(out@ =~= ascii_lower(s@).take(i + 1));
        i = i + 1;
    }
    assert(ascii_lower(s@).take(n as int) =~= ascii_lower(s@));
    out
}

/// Index of the first `c` in `s`, or -1 where there is none.
pub open spec fn first_index(s: Seq<char>, c: char) -> int
    decreases s.len(),
{
    if s.len() == 0 {
        -1
    } else if s[0] == c {
        0
    } else {
        let k = first_index(s.drop_first(), c);
        if k < 0 {
            -1
        } else {
            k + 1
        }
    }
}

/// Index of the last `c` in `s`, or -1 where there is none.
pub open spec fn last_index(s: Seq<char>, c: char) -> int
    decreases s.len(),
{
    if s.len() == 0 {
        -1
    } else if s.last() == c {
        s.len() - 1
    } else {
        last_index(s.drop_last(), c)
    }
}

proof fn lemma_first_index(s: Seq<char>, c: char, i: int)
    requires
        0 <= i <= s.len(),
        forall|k: int| 0 <= k < i ==> s[k] != c,
    ensures
        first_index(s, c) == (if first_index(s.subrange(i, s.len() as int), c) < 0 {
            -1
        } else {
            first_index(s.subrange(i, s.len() as int), c) + i
        }),
    decreases i,
{
    if i == 0 {
        assert(s.subrange(0, s.len() as int) =~= s);
    } else {
        assert(s.drop_first().subrange(i - 1, s.drop_first().len() as int) =~= s.subrange(
            i,
            s.len() as int,
        ));
        lemma_first_index(s.drop_first(), c, i - 1);
    }
}

proof fn lemma_last_index(s: Seq<char>, c: char, j: int)
    requires
        0 <= j <= s.len(),
        forall|k: int| j <= k < s.len() ==> s[k] != c,
    ensures
        last_index(s, c) == last_index(s.subrange(0, j), c),
    decreases s.len() - j,
{
    if j == s.len() {
        assert(s.subrange(0, j) =~= s);
    } else {
        assert(s.drop_last().subrange(0, j) =~= s.subrange(0, j));
        lemma_last_index(s.drop_last(), c, j);
    }
}

/// Index of the first `c` in `v`.
pub fn first_index_of(v: &Vec<char>, c: char) -> (r: Option<usize>)
    ensures
        match r {
            Some(k) => first_index(v@, c) == k,
            None => first_index(v@, c) == -1,
        },
{
    let n = v.len();
    let mut i: usize = 0;
    while i < n
        invariant
            n == v.len(),
            i <= n,
            forall|k: int| 0 <= k < i ==> v@[k] != c,
        decreases n - i,
    {
        if v[i] == c {
            proof {
                lemma_first_index(v@, c, i as int);
                assert(v@.subrange(i as int, n as int)[0] == c);
            }
            return Some(i);
        }
        i = i + 1;
    }
    proof {
        lemma_first_index(v@, c, n as int);
        assert(v@.subrange(n as int, n as int).len() == 0);
    }
    None
}

/// Index of the last `c` in `v`.
pub fn last_index_of(v: &Vec<char>, c: char) -> (r: Option<usize>)
    ensures
        match r {
            Some(k) => last_index(v@, c) == k,
            None => last_index(v@, c) == -1,
        },
{
    let n = v.len();
    let mut j: usize = n;
    while j > 0
        invariant
            n == v.len(),
            j <= n,
            forall|k: int| j <= k < n ==> v@[k] != c,
        decreases j,
    {
        if v[j - 1] == c {
            proof {
                lemma_last_index(v@, c, j as int);
                assert(v@.subrange(0, j as int).last() == c);
            }
            return Some(j - 1);
        }
        j = j - 1;
    }
    proof {
        lemma_last_index(v@, c, 0);
        assert(v@.subrange(0, 0).len() == 0);
    }
    None
}


/// `first_index` is the place of the first `c`: `c` stands there and nowhere
/// before; it is -1 exactly where `c` does not occur.
pub proof fn lemma_first_index_spec(s: Seq<char>, c: char)
    ensures
        -1 <= first_index(s, c) < s.len(),
        first_index(s, c) >= 0 ==> s[first_index(s, c)] == c,
        forall|k: int| 0 <= k < first_index(s, c) ==> s[k] != c,
        first_index(s, c) == -1 <==> forall|k: int| 0 <= k < s.len() ==> s[k] != c,
    decreases s.len(),
{
    if s.len() > 0 && s[0] != c {
        let t = s.drop_first();
        lemma_first_index_spec(t, c);
        assert forall|k: int| 0 <= k < first_index(s, c) implies s[k] != c by {
            if k > 0 {
                assert(s[k] == t[k - 1]);
            }
        }
        if first_index(t, c) == -1 {
            assert forall|k: int| 0 <= k < s.len() implies s[k] != c by {
                if k > 0 {
                    assert(s[k] == t[k - 1]);
                }
            }
        } else {
            assert(s[first_index(s, c)] == t[first_index(t, c)]);
            assert(t[first_index(t, c)] == c);
        }
    }
}

/// `last_index` is the place of the last `c`: `c` stands there and nowhere
/// after; it is -1 exactly where `c` does not occur.
pub proof fn lemma_last_index_spec(s: Seq<char>, c: char)
    ensures
        -1 <= last_index(s, c) < s.len(),
        last_index(s, c) >= 0 ==> s[last_index(s, c)] == c,
        forall|k: int| last_index(s, c) < k < s.len() ==> s[k] != c,
        last_index(s, c) == -1 <==> forall|k: int| 0 <= k < s.len() ==> s[k] != c,
    decreases s.len(),
{
    if s.len() > 0 && s.last() != c {
        let t = s.drop_last();
        lemma_last_index_spec(t, c);
        assert forall|k: int| last_index(s, c) < k < s.len() implies s[k] != c by {
            if k < s.len() - 1 {
                assert(s[k] == t[k]);
            }
        }
        if last_index(t, c) == -1 {
            assert forall|k: int| 0 <= k < s.len() implies s[k] != c by {
                if k < s.len() - 1 {
                    assert(s[k] == t[k]);
                }
            }
        } else {
            assert(s[last_index(s, c)] == t[last_index(t, c)]);
        }
    }
}


/// A stretch of `a + b` past `a` is the same stretch of `b`.
pub proof fn lemma_subrange_after(a: Seq<char>, b: Seq<char>, x: int, y: int)
    requires
        0 <= x <= y <= b.len(),
    ensures
        (a + b).subrange(a.len() + x, a.len() + y) == b.subrange(x, y),
        forall|k: int| 0 <= k < b.len() ==> (a + b)[a.len() + k] == #[trigger] b[k],
{
    assert((a + b).subrange(a.len() + x, a.len() + y) =~= b.subrange(x, y));
}

/// Where the `i`-th text starts when the texts of `list` are written one
/// after another with one separator character between each two.
pub open spec fn line_start(list: Seq<Seq<char>>, i: int) -> int
    decreases i,
{
    if i <= 0 {
        0
    } else {
        line_start(list, i - 1) + list[i - 1].len() + 1
    }
}

/// The length of the texts of `list` written with one separator character
/// between each two.
pub open spec fn lines_len(list: Seq<Seq<char>>) -> int {
    if list.len() == 0 {
        0
    } else {
        line_start(list, list.len() - 1) + list.last().len()
    }
}

pub proof fn lemma_line_start_prefix(list: Seq<Seq<char>>, n: int, i: int)
    requires
        0 <= i <= n <= list.len(),
    ensures
        line_start(list, i) == line_start(list.take(n), i),
        line_start(list, i) >= 0,
    decreases i,
{
    if i > 0 {
        lemma_line_start_prefix(list, n, i - 1);
        assert(list.take(n)[i - 1] == list[i - 1]);
    }
}

/// Every text of the list lies within the joined length.
pub proof fn lemma_line_bounds(list: Seq<Seq<char>>, i: int)
    requires
        0 <= i < list.len(),
    ensures
        0 <= line_start(list, i),
        line_start(list, i) + list[i].len() <= lines_len(list),
{
    lemma_line_start_prefix(list, list.len() as int, i);
    lemma_line_start_mono(list, i, list.len() - 1);
}

/// Joining with a one-character separator writes every text of the list in
/// order: the `i`-th at `line_start(list, i)`, each followed (but the last)
/// by the separator, and nothing else.
#[verifier::spinoff_prover]
#[verifier::rlimit(50)]
pub proof fn lemma_join_layout(list: Seq<Seq<char>>, sep: Seq<char>)
    requires
        sep.len() == 1,
    ensures
        join_with(list, sep).len() == lines_len(list),
        forall|i: int|
            0 <= i < list.len() ==> join_with(list, sep).subrange(
                line_start(list, i),
                line_start(list, i) + list[i].len(),
            ) == #[trigger] list[i],
        forall|i: int|
            0 <= i < list.len() - 1 ==> join_with(list, sep)[line_start(list, i)
                + #[trigger] list[i].len()] == sep[0],
    decreases list.len(),
{
    if list.len() == 1 {
        assert(join_with(list, sep).subrange(0, list[0].len() as int) =~= list[0]);
    } else if list.len() > 1 {
        let p = list.drop_last();
        lemma_join_layout(p, sep);
        let jp = join_with(p, sep);
        let j = join_with(list, sep);
        assert(j == jp + sep + list.last());
        assert(p =~= list.take(list.len() - 1));
        assert forall|i: int| 0 <= i < list.len() implies line_start(list, i) == line_start(p, i)
            || i == list.len() - 1 by {
            if i < list.len() - 1 {
                lemma_line_start_prefix(list, list.len() - 1, i);
            }
        }
        lemma_line_start_prefix(list, list.len() - 1, list.len() - 2);
        assert(line_start(list, list.len() - 1) == jp.len() + 1);
        assert forall|i: int| 0 <= i < list.len() implies j.subrange(
            line_start(list, i),
            line_start(list, i) + list[i].len(),
        ) == #[trigger] list[i] by {
            if i < list.len() - 1 {
                lemma_line_start_prefix(list, list.len() - 1, i);
                assert(p[i] == list[i]);
                lemma_line_start_prefix(p, p.len() as int, i);
                assert(line_start(p, i) + p[i].len() <= lines_len(p)) by {
                    lemma_line_start_mono(p, i, p.len() - 1);
                }
                assert(j.subrange(line_start(list, i), line_start(list, i) + list[i].len())
                    =~= jp.subrange(line_start(p, i), line_start(p, i) + p[i].len()));
            } else {
                assert(j.subrange(line_start(list, i), line_start(list, i) + list[i].len())
                    =~= list.last());
            }
        }
        assert forall|i: int| 0 <= i < list.len() - 1 implies j[line_start(list, i)
            + #[trigger] list[i].len()] == sep[0] by {
            lemma_line_start_prefix(list, list.len() - 1, i);
            assert(p[i] == list[i]);
            if i < list.len() - 2 {
                lemma_line_start_mono(p, i, p.len() - 1);
                assert(j[line_start(p, i) + p[i].len()] == jp[line_start(p, i) + p[i].len()]);
            } else {
                assert(line_start(p, i) + p[i].len() == jp.len());
            }
        }
    }
}

proof fn lemma_line_start_mono(list: Seq<Seq<char>>, i: int, k: int)
    requires
        0 <= i <= k < list.len(),
    ensures
        line_start(list, i) + list[i].len() <= line_start(list, k) + list[k].len(),
        i < k ==> line_start(list, i) + list[i].len() < line_start(list, k),
    decreases k - i,
{
    if i < k {
        lemma_line_start_mono(list, i, k - 1);
    }
}


/// A stretch of `a + b` inside `a` is the same stretch of `a`.
pub proof fn lemma_subrange_before(a: Seq<char>, b: Seq<char>, x: int, y: int)
    requires
        0 <= x <= y <= a.len(),
    ensures
        (a + b).subrange(x, y) == a.subrange(x, y),
{
    assert((a + b).subrange(x, y) =~= a.subrange(x, y));
}

/// The number that a text of decimal digits stands for.
pub open spec fn digits_value(s: Seq<char>) -> int
    decreases s.len(),
{
    if s.len() == 0 {
        0
    } else {
        digits_value(s.drop_last()) * 10 + (s.last() as int - '0' as int)
    }
}

proof fn lemma_digit_char(d: int)
    requires
        0 <= d < 10,
    ensures
        digit_char(d) as int - '0' as int == d,
{
    reveal_strlit("0123456789");
    if d == 0 {
    } else if d == 1 {
    } else if d == 2 {
    } else if d == 3 {
    } else if d == 4 {
    } else if d == 5 {
    } else if d == 6 {
    } else if d == 7 {
    } else if d == 8 {
    } else {
    }
}

/// `decimal(n)` writes `n` in decimal: only digits, standing for `n`, with
/// no leading zero (but for zero itself).
pub proof fn law_decimal(n: nat)
    ensures
        decimal(n).len() > 0,
        forall|k: int| 0 <= k < decimal(n).len() ==> '0' <= #[trigger] decimal(n)[k] <= '9',
        digits_value(decimal(n)) == n,
        decimal(n)[0] != '0' || n == 0,
    decreases n,
{
    if n < 10 {
        lemma_digit_char(n as int);
        let d = decimal(n);
        assert(d == seq![digit_char(n as int)]);
        assert(d.drop_last() =~= Seq::<char>::empty());
        assert(d.last() == digit_char(n as int));
        assert(digits_value(d.drop_last()) == 0);
    } else {
        law_decimal(n / 10);
        lemma_digit_char((n % 10) as int);
        let d = decimal(n);
        assert(d.drop_last() =~= decimal(n / 10));
        assert(d.last() == digit_char((n % 10) as int));
        assert(digits_value(d) == digits_value(decimal(n / 10)) * 10 + (n % 10));
        assert((n / 10) * 10 + n % 10 == n);
        assert forall|k: int| 0 <= k < d.len() implies '0' <= #[trigger] d[k] <= '9' by {
            if k < d.len() - 1 {
                assert(d[k] == decimal(n / 10)[k]);
            }
        }
        assert(d[0] == decimal(n / 10)[0]);
    }
}


/// Trimming leaves nothing exactly when the text is all white space.
pub proof fn lemma_trim_empty(s: Seq<char>)
    ensures
        trim(s).len() == 0 <==> forall|k: int| 0 <= k < s.len() ==> is_white_space(#[trigger] s[k]),
    decreases s.len(),
{
    lemma_trim_start_shape(s);
    let t = trim_start(s);
    lemma_trim_end_shape(t);
    if forall|k: int| 0 <= k < s.len() ==> is_white_space(#[trigger] s[k]) {
        lemma_trim_start_suffix(s, s.len() as int);
        assert(s.subrange(s.len() as int, s.len() as int).len() == 0);
    } else {
        let k0 = choose|k: int| 0 <= k < s.len() && !is_white_space(#[trigger] s[k]);
        let k = choose|k: int| 0 <= k <= s.len() && t == #[trigger] s.subrange(k, s.len() as int);
        if t.len() == 0 {
            assert(k == s.len());
            assert forall|m: int| 0 <= m < s.len() implies is_white_space(#[trigger] s[m]) by {
                lemma_trim_start_all_white(s, m);
            }
        } else {
            let e = choose|e: int| 0 <= e <= t.len() && trim_end(t) == #[trigger] t.subrange(0, e);
            if e == 0 {
                assert(trim_end(t).len() == 0);
                lemma_trim_end_keeps_first(t);
            }
        }
    }
}

proof fn lemma_trim_start_all_white(s: Seq<char>, m: int)
    requires
        trim_start(s).len() == 0,
        0 <= m < s.len(),
    ensures
        is_white_space(s[m]),
    decreases s.len(),
{
    if s.len() > 0 && is_white_space(s[0]) {
        if m > 0 {
            lemma_trim_start_all_white(s.drop_first(), m - 1);
        }
    }
}

proof fn lemma_trim_end_keeps_first(t: Seq<char>)
    requires
        t.len() > 0,
        !is_white_space(t[0]),
    ensures
        trim_end(t).len() > 0,
    decreases t.len(),
{
    if is_white_space(t.last()) {
        assert(t.len() > 1);
        assert(t.drop_last()[0] == t[0]);
        lemma_trim_end_keeps_first(t.drop_last());
    }
}

} // verus!
