//! Character-sequence helpers the rest of the library builds on: turning
//! strings into their characters and back, comparing and searching them.

use vstd::prelude::*;

verus! {

/// `String::push`: appends one character to the end of the string.
#[verifier::external_body]
pub(crate) fn push_char(s: &mut String, c: char)
    ensures
        final(s)@ == old(s)@.push(c),
{
    s.push(c);
}

/// The characters of `s`, in order.
pub fn chars_of(s: &str) -> (v: Vec<char>)
    ensures
        v@ == s@,
{
    let mut v: Vec<char> = Vec::new();
    for c in it: s.chars()
        invariant
            v@ == it.seq().take(it.index() as int),
            it.seq() == s@,
    {
        v.push(c);
    }
    v
}

/// The string made of `chars`, in order.
pub fn string_of(chars: &[char]) -> (s: String)
    ensures
        s@ == chars@,
{
    let mut s = String::new();
    for i in 0..chars.len()
        invariant
            s@ == chars@.take(i as int),
    {
        push_char(&mut s, chars[i]);
        assert(chars@.take(i + 1) == chars@.take(i as int).push(chars@[i as int]));
    }
    assert(chars@.take(chars.len() as int) == chars@);
    s
}

/// The string made of `chars[start..end]`, in order.
pub fn string_of_range(chars: &[char], start: usize, end: usize) -> (s: String)
    requires
        start <= end <= chars.len(),
    ensures
        s@ == chars@.subrange(start as int, end as int),
{
    let mut s = String::new();
    let mut i: usize = start;
    while i < end
        invariant
            start <= i <= end <= chars.len(),
            s@ == chars@.subrange(start as int, i as int),
        decreases end - i,
    {
        push_char(&mut s, chars[i]);
        assert(chars@.subrange(start as int, i + 1) == chars@.subrange(start as int, i as int).push(chars@[i as int]));
        i = i + 1;
    }
    s
}

/// A directory joined with the relative file name `name`, as a Unix path
/// joins: a separator goes between them unless the directory is empty or
/// already ends in one.
pub open spec fn joined_path(directory: Seq<char>, name: Seq<char>) -> Seq<char> {
    if directory.len() == 0 || directory.last() == '/' {
        directory + name
    } else {
        directory + "/"@ + name
    }
}

/// `directory` joined with the relative name `name`, as a Unix path joins.
pub fn join_path(directory: &str, name: &str) -> (path: String)
    ensures
        path@ == joined_path(directory@, name@),
{
    let mut path = directory.to_owned();
    let chars = chars_of(directory);
    if chars.len() > 0 && chars[chars.len() - 1] != '/' {
        path.append("/");
    }
    path.append(name);
    path
}

/// Unicode's `White_Space` characters — what `char::is_whitespace` accepts,
/// and so what separates the fields of a table line.
pub open spec fn is_whitespace(c: char) -> bool {
    c == '\t' || c == '\n' || c == '\u{0B}' || c == '\u{0C}' || c == '\r' || c == ' ' || c == '\u{85}'
        || c == '\u{A0}' || c == '\u{1680}' || ('\u{2000}' <= c && c <= '\u{200A}') || c == '\u{2028}'
        || c == '\u{2029}' || c == '\u{202F}' || c == '\u{205F}' || c == '\u{3000}'
}

/// Whether `c` is whitespace, as `char::is_whitespace` decides.
pub fn whitespace(c: char) -> (b: bool)
    ensures
        b == is_whitespace(c),
{
    c == '\t' || c == '\n' || c == '\u{0B}' || c == '\u{0C}' || c == '\r' || c == ' ' || c == '\u{85}'
        || c == '\u{A0}' || c == '\u{1680}' || ('\u{2000}' <= c && c <= '\u{200A}') || c == '\u{2028}'
        || c == '\u{2029}' || c == '\u{202F}' || c == '\u{205F}' || c == '\u{3000}'
}

/// How many characters `s` starts with that are whitespace (`ws`) or that
/// are not (`!ws`).
pub open spec fn run_len(s: Seq<char>, ws: bool) -> nat
    decreases s.len(),
{
    if s.len() == 0 || is_whitespace(s[0]) != ws {
        0
    } else {
        1 + run_len(s.drop_first(), ws)
    }
}

/// `run_len` is the length of the run that `n` ends.
pub proof fn lemma_run_len(s: Seq<char>, ws: bool, n: int)
    requires
        0 <= n <= s.len(),
        forall|k: int| 0 <= k < n ==> is_whitespace(#[trigger] s[k]) == ws,
        n == s.len() || is_whitespace(s[n]) != ws,
    ensures
        run_len(s, ws) == n,
    decreases s.len(),
{
    if s.len() > 0 && n > 0 {
        assert forall|k: int| 0 <= k < n - 1 implies is_whitespace(#[trigger] s.drop_first()[k]) == ws by {
            assert(is_whitespace(s[k + 1]) == ws);
        }
        lemma_run_len(s.drop_first(), ws, n - 1);
    }
}

/// How many characters `s` ends with that are whitespace.
pub open spec fn trailing_ws(s: Seq<char>) -> nat
    decreases s.len(),
{
    if s.len() == 0 || !is_whitespace(s.last()) {
        0
    } else {
        1 + trailing_ws(s.drop_last())
    }
}

/// `trailing_ws` is the length of the whitespace run that starts at `n`
/// and reaches the end.
pub proof fn lemma_trailing_ws(s: Seq<char>, n: int)
    requires
        0 <= n <= s.len(),
        forall|k: int| n <= k < s.len() ==> is_whitespace(#[trigger] s[k]),
        n == 0 || !is_whitespace(s[n - 1]),
    ensures
        trailing_ws(s) == s.len() - n,
    decreases s.len(),
{
    if s.len() > n {
        assert forall|k: int| n <= k < s.drop_last().len() implies is_whitespace(#[trigger] s.drop_last()[k]) by {
            assert(is_whitespace(s[k]));
        }
        lemma_trailing_ws(s.drop_last(), n);
    }
}

/// `s` without its leading and trailing whitespace, as `str::trim` gives it.
pub open spec fn trimmed(s: Seq<char>) -> Seq<char> {
    let t = s.skip(run_len(s, true) as int);
    t.take(t.len() - trailing_ws(t))
}

/// `s` without its leading and trailing whitespace.
pub fn trim(s: &str) -> (t: String)
    ensures
        t@ == trimmed(s@),
{
    let chars = chars_of(s);
    let mut start: usize = 0;
    while start < chars.len() && whitespace(chars[start])
        invariant
            start <= chars.len(),
            chars@ == s@,
            forall|k: int| 0 <= k < start ==> is_whitespace(#[trigger] chars@[k]),
        decreases chars.len() - start,
    {
        start = start + 1;
    }
    proof {
        lemma_run_len(s@, true, start as int);
    }
    let mut end: usize = chars.len();
    while end > start && whitespace(chars[end - 1])
        invariant
            start <= end <= chars.len(),
            chars@ == s@,
            forall|k: int| end <= k < chars.len() ==> is_whitespace(#[trigger] chars@[k]),
        decreases end - start,
    {
        end = end - 1;
    }
    proof {
        let t = s@.skip(start as int);
        assert forall|k: int| end - start <= k < t.len() implies is_whitespace(#[trigger] t[k]) by {
            assert(t[k] == chars@[k + start]);
        }
        if end > start {
            assert(t[end - start - 1] == chars@[end - 1]);
        }
        lemma_trailing_ws(t, end - start);
        assert(trimmed(s@) =~= chars@.subrange(start as int, end as int));
    }
    string_of_range(chars.as_slice(), start, end)
}

/// The decimal digits of `n`, most significant first, as `u64`'s
/// `Display` writes them.
pub open spec fn decimal(n: nat) -> Seq<char>
    decreases n,
{
    if n < 10 {
        seq![digit_char(n as int)]
    } else {
        decimal(n / 10) + seq![digit_char((n % 10) as int)]
    }
}

/// The character of the digit `d`, below 16, in lower case.
pub open spec fn digit_char(d: int) -> char {
    if d < 10 {
        (48 + d) as char
    } else {
        (87 + d) as char
    }
}

/// The character of the digit `d`.
pub fn digit_of(d: u64) -> (c: char)
    requires
        d < 16,
    ensures
        c == digit_char(d as int),
{
    let digits: [char; 16] = ['0', '1', '2', '3', '4', '5', '6', '7', '8', '9', 'a', 'b', 'c', 'd', 'e', 'f'];
    let c = digits[d as usize];
    assert(c == digit_char(d as int)) by {
        assert(digits@ =~= seq!['0', '1', '2', '3', '4', '5', '6', '7', '8', '9', 'a', 'b', 'c', 'd', 'e', 'f']);
    }
    c
}

/// `n` in decimal.
pub fn to_decimal(n: u64) -> (s: String)
    ensures
        s@ == decimal(n as nat),
    decreases n,
{
    if n < 10 {
        let mut s = String::new();
        push_char(&mut s, digit_of(n));
        assert(s@ =~= decimal(n as nat));
        s
    } else {
        let mut s = to_decimal(n / 10);
        push_char(&mut s, digit_of(n % 10));
        s
    }
}

/// Whether two strings hold the same characters.
pub fn str_eq(a: &str, b: &str) -> (equal: bool)
    ensures
        equal == (a@ == b@),
{
    let a = a.to_owned();
    let b = b.to_owned();
    a == b
}

/// `prefix` followed by `suffix`.
pub fn joined_text(prefix: &str, suffix: &str) -> (s: String)
    ensures
        s@ == prefix@ + suffix@,
{
    let mut s = prefix.to_owned();
    s.append(suffix);
    s
}

/// The index of the first `c` in `s`, or -1.
pub open spec fn index_of_char(s: Seq<char>, c: char) -> int
    decreases s.len(),
{
    if s.len() == 0 {
        -1
    } else if s[0] == c {
        0
    } else {
        let rest = index_of_char(s.drop_first(), c);
        if rest < 0 {
            -1
        } else {
            rest + 1
        }
    }
}

/// `index_of_char` is `j`: the first position of `c`, or -1 for none.
pub proof fn lemma_index_of_char(s: Seq<char>, c: char, j: int)
    requires
        0 <= j <= s.len(),
        forall|k: int| 0 <= k < j ==> s[k] != c,
        j == s.len() || s[j] == c,
    ensures
        index_of_char(s, c) == if j == s.len() { -1 } else { j },
    decreases s.len(),
{
    if s.len() > 0 && j > 0 {
        assert forall|k: int| 0 <= k < j - 1 implies s.drop_first()[k] != c by {
            assert(s[k + 1] != c);
        }
        lemma_index_of_char(s.drop_first(), c, j - 1);
    }
}

/// `index_of_char` finds `c` within `s`, or says -1.
pub proof fn lemma_index_of_char_bounds(s: Seq<char>, c: char)
    ensures
        -1 <= index_of_char(s, c) < s.len(),
        index_of_char(s, c) >= 0 ==> s[index_of_char(s, c)] == c,
    decreases s.len(),
{
    if s.len() > 0 {
        lemma_index_of_char_bounds(s.drop_first(), c);
    }
}

/// Where the first `c` at or after `from` in `chars` is, as
/// [`index_of_char`] finds it in what follows `from`.
pub fn find_char_from(chars: &Vec<char>, from: usize, c: char) -> (found: Option<usize>)
    requires
        from <= chars.len(),
    ensures
        found is None ==> index_of_char(chars@.skip(from as int), c) < 0,
        found matches Some(k) ==> from <= k < chars.len() && chars@[k as int] == c && index_of_char(
            chars@.skip(from as int),
            c,
        ) == k - from,
{
    let mut k: usize = from;
    while k < chars.len() && chars[k] != c
        invariant
            from <= k <= chars.len(),
            forall|m: int| from <= m < k ==> chars@[m] != c,
        decreases chars.len() - k,
    {
        k = k + 1;
    }
    proof {
        let rest = chars@.skip(from as int);
        assert forall|m: int| 0 <= m < k - from implies rest[m] != c by {
            assert(rest[m] == chars@[m + from]);
        }
        if k < chars.len() {
            assert(rest[k - from] == chars@[k as int]);
        }
        lemma_index_of_char(rest, c, k - from);
    }
    if k < chars.len() {
        Some(k)
    } else {
        None
    }
}

/// Lexicographic order on characters by code point — the order of `String`
/// values, since UTF-8 preserves code point order byte for byte.
pub open spec fn text_less(a: Seq<char>, b: Seq<char>) -> bool
    decreases a.len(),
{
    if a.len() == 0 {
        b.len() > 0
    } else if b.len() == 0 {
        false
    } else if a[0] != b[0] {
        a[0] < b[0]
    } else {
        text_less(a.drop_first(), b.drop_first())
    }
}

/// No text comes before itself.
pub proof fn lemma_text_less_irreflexive(a: Seq<char>)
    ensures
        !text_less(a, a),
    decreases a.len(),
{
    if a.len() > 0 {
        lemma_text_less_irreflexive(a.drop_first());
    }
}

/// Of two different texts, exactly one comes before the other.
pub proof fn lemma_text_less_total(a: Seq<char>, b: Seq<char>)
    ensures
        a == b || text_less(a, b) || text_less(b, a),
        !(text_less(a, b) && text_less(b, a)),
    decreases a.len(),
{
    if a.len() > 0 && b.len() > 0 {
        lemma_text_less_total(a.drop_first(), b.drop_first());
        if a[0] == b[0] && a.drop_first() == b.drop_first() {
            assert(a =~= seq![a[0]] + a.drop_first());
            assert(b =~= seq![b[0]] + b.drop_first());
        }
    } else if a.len() == 0 && b.len() == 0 {
        assert(a =~= b);
    }
}

/// Lexicographic order is transitive.
pub proof fn lemma_text_less_transitive(a: Seq<char>, b: Seq<char>, c: Seq<char>)
    requires
        text_less(a, b),
        text_less(b, c),
    ensures
        text_less(a, c),
    decreases a.len(),
{
    if a.len() > 0 && b.len() > 0 && c.len() > 0 && a[0] == b[0] && b[0] == c[0] {
        lemma_text_less_transitive(a.drop_first(), b.drop_first(), c.drop_first());
    }
}

/// Whether `a` comes before `b` in lexicographic order.
pub fn less_than(a: &str, b: &str) -> (less: bool)
    ensures
        less == text_less(a@, b@),
{
    let x = chars_of(a);
    let y = chars_of(b);
    let mut i: usize = 0;
    assert(x@.skip(0) =~= x@);
    assert(y@.skip(0) =~= y@);
    while i < x.len() && i < y.len() && x[i] == y[i]
        invariant
            i <= x.len(),
            i <= y.len(),
            text_less(x@, y@) == text_less(x@.skip(i as int), y@.skip(i as int)),
        decreases x.len() - i,
    {
        assert(x@.skip(i as int).drop_first() =~= x@.skip(i + 1));
        assert(y@.skip(i as int).drop_first() =~= y@.skip(i + 1));
        i = i + 1;
    }
    assert(x@.skip(i as int).len() == x.len() - i);
    if i < x.len() && i < y.len() {
        assert(x@.skip(i as int)[0] == x@[i as int]);
        assert(y@.skip(i as int)[0] == y@[i as int]);
    }
    if i == x.len() {
        i < y.len()
    } else if i == y.len() {
        false
    } else {
        x[i] < y[i]
    }
}

/// Whether `needle` occurs in `haystack` at `at`.
pub open spec fn occurs_at(haystack: Seq<char>, needle: Seq<char>, at: int) -> bool {
    0 <= at && at + needle.len() <= haystack.len() && haystack.subrange(at, at + needle.len()) == needle
}

/// Whether `needle` occurs anywhere in `haystack`.
pub open spec fn has_substring(haystack: Seq<char>, needle: Seq<char>) -> bool {
    exists|at: int| #[trigger] occurs_at(haystack, needle, at)
}

/// Whether `needle` occurs anywhere in `haystack` — `str::contains`.
pub fn contains_text(haystack: &str, needle: &str) -> (found: bool)
    ensures
        found == has_substring(haystack@, needle@),
{
    let h = chars_of(haystack);
    let n = chars_of(needle);
    if n.len() > h.len() {
        assert forall|at: int| !#[trigger] occurs_at(haystack@, needle@, at) by {}
        return false;
    }
    let mut at: usize = 0;
    while at <= h.len() - n.len()
        invariant
            n.len() <= h.len(),
            h@ == haystack@,
            n@ == needle@,
            forall|a: int| 0 <= a < at ==> !#[trigger] occurs_at(h@, n@, a),
        decreases h.len() - at,
    {
        let mut k: usize = 0;
        while k < n.len() && h[at + k] == n[k]
            invariant
                k <= n.len(),
                at + n.len() <= h.len(),
                forall|m: int| 0 <= m < k ==> h@[at + m] == n@[m],
            decreases n.len() - k,
        {
            k = k + 1;
        }
        if k == n.len() {
            assert(h@.subrange(at as int, at + n.len()) =~= n@);
            assert(occurs_at(h@, n@, at as int));
            return true;
        }
        assert(h@.subrange(at as int, at + n.len())[k as int] != n@[k as int]);
        at = at + 1;
    }
    assert forall|a: int| !#[trigger] occurs_at(h@, n@, a) by {
        if a >= at {
            assert(a + n@.len() > h@.len());
        }
    }
    false
}

} // verus!
