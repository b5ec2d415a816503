//! Character-level text model shared by the string-processing modules:
//! pattern search, splitting, joining and UTF-8 lengths over `Seq<char>`,
//! with the executable routines that compute them.
use vstd::prelude::*;

verus! {

/// Appends one character to a `String` (`String::push`).
#[verifier::external_body]
pub(crate) fn push_char(s: &mut String, c: char)
    ensures
        final(s)@ == old(s)@.push(c),
{
    s.push(c);
}

/// The characters of `s`, in order.
pub fn chars_of(s: &str) -> (r: Vec<char>)
    ensures
        r@ == s@,
{
    let mut r: Vec<char> = Vec::new();
    for c in it: s.chars()
        invariant
            r@ == it.seq().take(it.index() as int),
    {
        r.push(c);
    }
    r
}

/// A `String` holding exactly the characters of `cs`.
pub fn string_of(cs: &[char]) -> (r: String)
    ensures
        r@ == cs@,
{
    let mut r = String::new();
    let mut i: usize = 0;
    while i < cs.len()
        invariant
            i <= cs.len(),
            r@ == cs@.take(i as int),
        decreases cs.len() - i,
    {
        push_char(&mut r, cs[i]);
        assert(cs@.take(i + 1) == cs@.take(i as int).push(cs@[i as int]));
        i += 1;
    }
    assert(cs@.take(cs.len() as int) == cs@);
    r
}

/// `pat` occurs in `s` at position `i`.
pub open spec fn matches_at(s: Seq<char>, pat: Seq<char>, i: int) -> bool {
    0 <= i && i + pat.len() <= s.len() && s.subrange(i, i + pat.len()) == pat
}

/// First position at or after `from` where `pat` occurs in `s`.
pub open spec fn find_at(s: Seq<char>, pat: Seq<char>, from: int) -> Option<int>
    decreases s.len() + 1 - from,
{
    if from < 0 || from + pat.len() > s.len() {
        None
    } else if matches_at(s, pat, from) {
        Some(from)
    } else {
        find_at(s, pat, from + 1)
    }
}

/// First position of `pat` in `s`.
pub open spec fn find(s: Seq<char>, pat: Seq<char>) -> Option<int> {
    find_at(s, pat, 0)
}

/// What `find_at` returns is a match at or after `from`, with none between.
pub proof fn lemma_find_at(s: Seq<char>, pat: Seq<char>, from: int)
    requires
        0 <= from,
    ensures
        match find_at(s, pat, from) {
            Some(i) => from <= i && matches_at(s, pat, i) && forall|j: int|
                from <= j < i ==> !matches_at(s, pat, j),
            None => forall|j: int| from <= j ==> !matches_at(s, pat, j),
        },
    decreases s.len() + 1 - from,
{
    if from + pat.len() <= s.len() && !matches_at(s, pat, from) {
        lemma_find_at(s, pat, from + 1);
    }
}

/// Whether `pat` occurs at `i` (computed).
pub fn occurs_at(s: &[char], pat: &[char], i: usize) -> (r: bool)
    ensures
        r == matches_at(s@, pat@, i as int),
{
    if i > s.len() || pat.len() > s.len() - i {
        return false;
    }
    let n = s.len();
    let mut k: usize = 0;
    while k < pat.len()
        invariant
            n == s@.len(),
            k <= pat@.len(),
            i + pat@.len() <= s@.len(),
            forall|j: int| 0 <= j < k ==> s@[i + j] == pat@[j],
        decreases pat@.len() - k,
    {
        if s[i + k] != pat[k] {
            assert(s@.subrange(i as int, i + pat@.len())[k as int] != pat@[k as int]);
            return false;
        }
        k += 1;
    }
    assert(s@.subrange(i as int, i + pat@.len()) =~= pat@);
    true
}

/// First position at or after `from` where `pat` occurs (computed).
pub fn find_from(s: &[char], pat: &[char], from: usize) -> (r: Option<usize>)
    ensures
        match r {
            Some(i) => find_at(s@, pat@, from as int) == Some(i as int),
            None => find_at(s@, pat@, from as int) is None,
        },
{
    let mut i = from;
    while i <= s.len() && pat.len() <= s.len() - i
        invariant
            from <= i,
            find_at(s@, pat@, from as int) == find_at(s@, pat@, i as int),
        decreases s@.len() + 1 - i,
    {
        if occurs_at(s, pat, i) {
            return Some(i);
        }
        if i == s.len() {
            assert(find_at(s@, pat@, i + 1) is None);
            assert(find_at(s@, pat@, i as int) == find_at(s@, pat@, i + 1));
            return None;
        }
        i += 1;
    }
    None
}

/// `s` split at every occurrence of `pat` found scanning from `start`
/// (non-overlapping, left to right), like `str::split`.
pub open spec fn split_from(s: Seq<char>, pat: Seq<char>, start: int) -> Seq<Seq<char>>
    decreases s.len() - start,
{
    if start < 0 || start > s.len() || pat.len() == 0 {
        seq![s.subrange(start, s.len() as int)]
    } else {
        match find_at(s, pat, start) {
            None => seq![s.subrange(start, s.len() as int)],
            Some(i) => {
                proof {
                    lemma_find_at(s, pat, start);
                }
                seq![s.subrange(start, i)] + split_from(s, pat, i + pat.len())
            },
        }
    }
}

/// `s` split at every occurrence of the non-empty `pat` (`str::split`).
pub open spec fn split(s: Seq<char>, pat: Seq<char>) -> Seq<Seq<char>> {
    split_from(s, pat, 0)
}

/// `s` split at every occurrence of the non-empty `pat` (computed).
pub fn split_chars(s: &[char], pat: &[char]) -> (r: Vec<Vec<char>>)
    requires
        pat@.len() > 0,
    ensures
        r@.map_values(|v: Vec<char>| v@) == split(s@, pat@),
{
    let mut out: Vec<Vec<char>> = Vec::new();
    let mut start: usize = 0;
    loop
        invariant
            pat@.len() > 0,
            start <= s@.len(),
            out@.map_values(|v: Vec<char>| v@) + split_from(s@, pat@, start as int) == split(
                s@,
                pat@,
            ),
        decreases s@.len() - start,
    {
        let ghost before = out@.map_values(|v: Vec<char>| v@);
        match find_from(s, pat, start) {
            None => {
                let piece = slice_chars(s, start, s.len());
                out.push(piece);
                assert(out@.map_values(|v: Vec<char>| v@) == before + split_from(
                    s@,
                    pat@,
                    start as int,
                ));
                return out;
            },
            Some(i) => {
                proof {
                    lemma_find_at(s@, pat@, start as int);
                }
                let n = s.len();
                assert(i + pat@.len() <= n);
                let piece = slice_chars(s, start, i);
                out.push(piece);
                assert(split_from(s@, pat@, start as int) == seq![s@.subrange(start as int, i as int)]
                    + split_from(s@, pat@, i + pat@.len()));
                assert(out@.map_values(|v: Vec<char>| v@) == before + seq![
                    s@.subrange(start as int, i as int),
                ]);
                start = i + pat.len();
            },
        }
    }
}

/// The characters of `s` in `[start, end)`.
pub fn slice_chars(s: &[char], start: usize, end: usize) -> (r: Vec<char>)
    requires
        start <= end <= s@.len(),
    ensures
        r@ == s@.subrange(start as int, end as int),
{
    let mut r: Vec<char> = Vec::new();
    let mut i = start;
    while i < end
        invariant
            start <= i <= end,
            end <= s@.len(),
            r@ == s@.subrange(start as int, i as int),
        decreases end - i,
    {
        r.push(s[i]);
        i += 1;
    }
    r
}

/// The pieces of `parts` joined with `sep` between consecutive pieces.
pub open spec fn join(parts: Seq<Seq<char>>, sep: Seq<char>) -> Seq<char>
    decreases parts.len(),
{
    if parts.len() == 0 {
        Seq::empty()
    } else if parts.len() == 1 {
        parts[0]
    } else {
        join(parts.drop_last(), sep) + sep + parts.last()
    }
}

/// Number of UTF-8 bytes that encode `c`.
pub open spec fn utf8_width(c: char) -> nat {
    if (c as u32) < 0x80 {
        1
    } else if (c as u32) < 0x800 {
        2
    } else if (c as u32) < 0x10000 {
        3
    } else {
        4
    }
}

/// Number of UTF-8 bytes that encode `s`.
pub open spec fn utf8_len(s: Seq<char>) -> nat
    decreases s.len(),
{
    if s.len() == 0 {
        0
    } else {
        utf8_len(s.drop_last()) + utf8_width(s.last())
    }
}

/// Number of UTF-8 bytes that encode `c` (computed).
pub fn char_utf8_width(c: char) -> (r: usize)
    ensures
        r == utf8_width(c),
{
    let v = c as u32;
    if v < 0x80 {
        1
    } else if v < 0x800 {
        2
    } else if v < 0x10000 {
        3
    } else {
        4
    }
}

/// UTF-8 length is additive over concatenation.
pub proof fn lemma_utf8_len_add(a: Seq<char>, b: Seq<char>)
    ensures
        utf8_len(a + b) == utf8_len(a) + utf8_len(b),
    decreases b.len(),
{
    if b.len() > 0 {
        lemma_utf8_len_add(a, b.drop_last());
        assert((a + b).drop_last() == a + b.drop_last());
    } else {
        assert(a + b == a);
    }
}

/// Whether two character sequences are equal (computed).
pub fn chars_eq(a: &[char], b: &[char]) -> (r: bool)
    ensures
        r == (a@ == b@),
{
    if a.len() != b.len() {
        return false;
    }
    let mut i: usize = 0;
    while i < a.len()
        invariant
            i <= a@.len(),
            a@.len() == b@.len(),
            forall|j: int| 0 <= j < i ==> a@[j] == b@[j],
        decreases a@.len() - i,
    {
        if a[i] != b[i] {
            return false;
        }
        i += 1;
    }
    assert(a@ =~= b@);
    true
}

/// Whether two strings hold the same characters (computed).
pub fn str_eq(a: &str, b: &str) -> (r: bool)
    ensures
        r == (a@ == b@),
{
    let x = chars_of(a);
    let y = chars_of(b);
    chars_eq(x.as_slice(), y.as_slice())
}

/// Mapping after a push is pushing the mapped element.
pub proof fn lemma_map_push<A, B>(s: Seq<A>, x: A, f: spec_fn(A) -> B)
    ensures
        s.push(x).map_values(f) == s.map_values(f).push(f(x)),
{
    assert(s.push(x).map_values(f) =~= s.map_values(f).push(f(x)));
}

/// Whether `c` has the Unicode `White_Space` property (the characters
/// `char::is_whitespace` accepts).
pub open spec fn is_ws(c: char) -> bool {
    let u = c as u32;
    ||| 0x09 <= u <= 0x0D
    ||| u == 0x20
    ||| u == 0x85
    ||| u == 0xA0
    ||| u == 0x1680
    ||| 0x2000 <= u <= 0x200A
    ||| u == 0x2028
    ||| u == 0x2029
    ||| u == 0x202F
    ||| u == 0x205F
    ||| u == 0x3000
}

/// Whether `c` is Unicode white space (computed).
pub fn is_whitespace(c: char) -> (r: bool)
    ensures
        r == is_ws(c),
{
    let u = c as u32;
    (0x09 <= u && u <= 0x0D) || u == 0x20 || u == 0x85 || u == 0xA0 || u == 0x1680 || (0x2000
        <= u && u <= 0x200A) || u == 0x2028 || u == 0x2029 || u == 0x202F || u == 0x205F || u
        == 0x3000
}

/// Result of `char::is_alphanumeric`: whether `c` is Unicode alphabetic or
/// numeric.
pub uninterp spec fn unicode_alphanumeric(c: char) -> bool;

/// An ASCII letter or digit.
pub open spec fn ascii_alphanumeric(c: char) -> bool {
    ('a' <= c && c <= 'z') || ('A' <= c && c <= 'Z') || ('0' <= c && c <= '9')
}

/// Whether `c` is alphanumeric: for ASCII characters, exactly the letters
/// and digits; beyond ASCII, as `unicode_alphanumeric` names it.
pub open spec fn alphanumeric(c: char) -> bool {
    if (c as u32) < 0x80 {
        ascii_alphanumeric(c)
    } else {
        unicode_alphanumeric(c)
    }
}

/// `char::is_alphanumeric`: whether `c` has the Unicode `Alphabetic`
/// property or a numeric general category. The tables behind it are not
/// restated; the result is named `unicode_alphanumeric`. As std documents,
/// among ASCII characters exactly the letters and digits are alphanumeric.
#[verifier::external_body]
pub(crate) fn is_alphanumeric(c: char) -> (r: bool)
    ensures
        r == unicode_alphanumeric(c),
        (c as u32) < 0x80 ==> r == ascii_alphanumeric(c),
{
    c.is_alphanumeric()
}

/// `s` without its leading white space (`str::trim_start`).
pub open spec fn trim_start(s: Seq<char>) -> Seq<char>
    decreases s.len(),
{
    if s.len() > 0 && is_ws(s[0]) {
        trim_start(s.drop_first())
    } else {
        s
    }
}

/// `s` without its trailing white space (`str::trim_end`).
pub open spec fn trim_end(s: Seq<char>) -> Seq<char>
    decreases s.len(),
{
    if s.len() > 0 && is_ws(s.last()) {
        trim_end(s.drop_last())
    } else {
        s
    }
}

/// `s` without leading and trailing white space (`str::trim`).
pub open spec fn trim(s: Seq<char>) -> Seq<char> {
    trim_end(trim_start(s))
}

/// `trim_start` drops the white space before position `k`, the first
/// character that is not white space.
pub proof fn lemma_trim_start_at(s: Seq<char>, k: int)
    requires
        0 <= k <= s.len(),
        forall|j: int| 0 <= j < k ==> is_ws(s[j]),
        k == s.len() || !is_ws(s[k]),
    ensures
        trim_start(s) == s.subrange(k, s.len() as int),
    decreases k,
{
    if k == 0 {
        assert(s.subrange(0, s.len() as int) == s);
    } else {
        let t = s.drop_first();
        assert forall|j: int| 0 <= j < k - 1 implies is_ws(t[j]) by {
            assert(t[j] == s[j + 1]);
        }
        lemma_trim_start_at(t, k - 1);
        assert(t.subrange(k - 1, t.len() as int) == s.subrange(k, s.len() as int));
    }
}

/// `trim_end` drops the white space from position `k` on, `k` being just
/// after the last character that is not white space.
pub proof fn lemma_trim_end_at(s: Seq<char>, k: int)
    requires
        0 <= k <= s.len(),
        forall|j: int| k <= j < s.len() ==> is_ws(s[j]),
        k == 0 || !is_ws(s[k - 1]),
    ensures
        trim_end(s) == s.subrange(0, k),
    decreases s.len() - k,
{
    if k == s.len() {
        assert(s.subrange(0, k) == s);
    } else {
        let t = s.drop_last();
        lemma_trim_end_at(t, k);
        assert(t.subrange(0, k) == s.subrange(0, k));
    }
}

/// `trim_start` gives a suffix of its argument.
pub proof fn lemma_trim_start_suffix(s: Seq<char>)
    ensures
        trim_start(s).len() <= s.len(),
        trim_start(s) == s.subrange(s.len() - trim_start(s).len(), s.len() as int),
        trim_start(s).len() > 0 ==> !is_ws(trim_start(s)[0]),
    decreases s.len(),
{
    if s.len() > 0 && is_ws(s[0]) {
        lemma_trim_start_suffix(s.drop_first());
        let t = trim_start(s.drop_first());
        assert(s.drop_first().subrange(s.len() - 1 - t.len(), s.len() - 1) == s.subrange(
            s.len() - t.len(),
            s.len() as int,
        ));
    } else {
        assert(s.subrange(0, s.len() as int) == s);
    }
}

/// Index of the first character of `s` at or after `from` that is not white
/// space (or the length).
fn skip_ws(s: &[char], from: usize) -> (r: usize)
    requires
        from <= s@.len(),
    ensures
        from <= r <= s@.len(),
        forall|j: int| from <= j < r ==> is_ws(s@[j]),
        r == s@.len() || !is_ws(s@[r as int]),
{
    let mut i = from;
    while i < s.len() && is_whitespace(s[i])
        invariant
            from <= i <= s@.len(),
            forall|j: int| from <= j < i ==> is_ws(s@[j]),
        decreases s@.len() - i,
    {
        i += 1;
    }
    i
}

/// `s` without leading white space (computed).
pub fn trim_start_chars(s: &[char]) -> (r: Vec<char>)
    ensures
        r@ == trim_start(s@),
{
    let k = skip_ws(s, 0);
    proof {
        lemma_trim_start_at(s@, k as int);
    }
    slice_chars(s, k, s.len())
}

/// `s` without leading and trailing white space (computed).
pub fn trim_chars(s: &[char]) -> (r: Vec<char>)
    ensures
        r@ == trim(s@),
{
    let t = trim_start_chars(s);
    let mut k = t.len();
    while k > 0 && is_whitespace(t[k - 1])
        invariant
            k <= t@.len(),
            forall|j: int| k <= j < t@.len() ==> is_ws(t@[j]),
        decreases k,
    {
        k -= 1;
    }
    proof {
        lemma_trim_end_at(t@, k as int);
    }
    slice_chars(t.as_slice(), 0, k)
}

/// Number of leading characters of `s` that are not white space.
pub open spec fn word_len(s: Seq<char>) -> nat
    decreases s.len(),
{
    if s.len() > 0 && !is_ws(s[0]) {
        1 + word_len(s.drop_first())
    } else {
        0
    }
}

/// A word is no longer than the text it starts.
pub proof fn lemma_word_len_bound(s: Seq<char>)
    ensures
        word_len(s) <= s.len(),
        s.len() > 0 && !is_ws(s[0]) ==> word_len(s) >= 1,
    decreases s.len(),
{
    if s.len() > 0 && !is_ws(s[0]) {
        lemma_word_len_bound(s.drop_first());
    }
}

/// `word_len` counts exactly the characters before position `k`, the first
/// white space (or the end).
pub proof fn lemma_word_len_at(s: Seq<char>, k: int)
    requires
        0 <= k <= s.len(),
        forall|j: int| 0 <= j < k ==> !is_ws(s[j]),
        k == s.len() || is_ws(s[k]),
    ensures
        word_len(s) == k,
    decreases k,
{
    if k > 0 {
        let t = s.drop_first();
        assert forall|j: int| 0 <= j < k - 1 implies !is_ws(t[j]) by {
            assert(t[j] == s[j + 1]);
        }
        lemma_word_len_at(t, k - 1);
    }
}

/// The white-space separated words of `s` (`str::split_whitespace`).
pub open spec fn words(s: Seq<char>) -> Seq<Seq<char>>
    decreases s.len(),
{
    let t = trim_start(s);
    if t.len() == 0 {
        Seq::empty()
    } else {
        proof {
            lemma_trim_start_suffix(s);
            lemma_word_len_bound(t);
        }
        let n = word_len(t);
        seq![t.subrange(0, n as int)] + words(t.subrange(n as int, t.len() as int))
    }
}

/// The first white-space separated word of `s`, or nothing.
pub open spec fn first_word(s: Seq<char>) -> Seq<char> {
    let w = words(s);
    if w.len() > 0 {
        w[0]
    } else {
        Seq::empty()
    }
}

/// The words of `s[from..]` (computed).
pub fn words_from(s: &[char], from: usize) -> (r: Vec<Vec<char>>)
    requires
        from <= s@.len(),
    ensures
        r@.map_values(|v: Vec<char>| v@) == words(s@.subrange(from as int, s@.len() as int)),
{
    let mut out: Vec<Vec<char>> = Vec::new();
    let mut i = from;
    let n = s.len();
    loop
        invariant
            n == s@.len(),
            from <= i <= n,
            out@.map_values(|v: Vec<char>| v@) + words(s@.subrange(i as int, n as int)) == words(
                s@.subrange(from as int, n as int),
            ),
        decreases n - i,
    {
        let ghost rest = s@.subrange(i as int, n as int);
        let a = skip_ws(s, i);
        proof {
            lemma_trim_start_at(rest, a - i);
            assert(rest.subrange(a - i, rest.len() as int) == s@.subrange(a as int, n as int));
        }
        if a == n {
            assert(words(rest) == Seq::<Seq<char>>::empty());
            assert(out@.map_values(|v: Vec<char>| v@) + words(rest) == out@.map_values(
                |v: Vec<char>| v@,
            ));
            return out;
        }
        let mut b = a;
        while b < n && !is_whitespace(s[b])
            invariant
                n == s@.len(),
                a <= b <= n,
                forall|j: int| a <= j < b ==> !is_ws(s@[j]),
            decreases n - b,
        {
            b += 1;
        }
        let ghost t = s@.subrange(a as int, n as int);
        proof {
            assert forall|j: int| 0 <= j < b - a implies !is_ws(t[j]) by {
                assert(t[j] == s@[a + j]);
            }
            if b < n {
                assert(t[b - a] == s@[b as int]);
            }
            lemma_word_len_at(t, b - a);
            assert(t.subrange(0, b - a) == s@.subrange(a as int, b as int));
            assert(t.subrange(b - a, t.len() as int) == s@.subrange(b as int, n as int));
            assert(words(rest) == seq![s@.subrange(a as int, b as int)] + words(
                s@.subrange(b as int, n as int),
            ));
        }
        let w = slice_chars(s, a, b);
        let ghost prev = out@;
        out.push(w);
        proof {
            lemma_map_push(prev, w, |v: Vec<char>| v@);
        }
        i = b;
    }
}

/// Searching a suffix of `s` is searching `s` from where the suffix starts.
pub proof fn lemma_find_at_shift(s: Seq<char>, pat: Seq<char>, a: int, j: int)
    requires
        0 <= a <= s.len(),
        0 <= j,
    ensures
        find_at(s.subrange(a, s.len() as int), pat, j) == match find_at(s, pat, a + j) {
            Some(x) => Some(x - a),
            None => None::<int>,
        },
    decreases s.len() - a - j + 1,
{
    let t = s.subrange(a, s.len() as int);
    if j + pat.len() <= t.len() {
        assert(t.subrange(j, j + pat.len()) == s.subrange(a + j, a + j + pat.len()));
        if !matches_at(t, pat, j) {
            lemma_find_at_shift(s, pat, a, j + 1);
        }
    }
}

/// First position of `pat` in `s[from..]`, counted from `from` (computed).
pub fn find_in(s: &[char], pat: &[char], from: usize) -> (r: Option<usize>)
    requires
        from <= s@.len(),
    ensures
        match r {
            Some(i) => find(s@.subrange(from as int, s@.len() as int), pat@) == Some(i as int),
            None => find(s@.subrange(from as int, s@.len() as int), pat@) is None,
        },
{
    proof {
        lemma_find_at_shift(s@, pat@, from as int, 0);
    }
    match find_from(s, pat, from) {
        Some(i) => {
            proof {
                lemma_find_at(s@, pat@, from as int);
            }
            Some(i - from)
        },
        None => None,
    }
}

/// What `find` returns is the first match.
pub proof fn lemma_find(s: Seq<char>, pat: Seq<char>)
    ensures
        match find(s, pat) {
            Some(i) => 0 <= i && i + pat.len() <= s.len() && matches_at(s, pat, i) && forall|j: int|
                0 <= j < i ==> !matches_at(s, pat, j),
            None => forall|j: int| 0 <= j ==> !matches_at(s, pat, j),
        },
{
    lemma_find_at(s, pat, 0);
}

/// Lexicographic order on character sequences by code point, the order of
/// `str`'s `<` (UTF-8 keeps code point order).
pub open spec fn seq_lt(a: Seq<char>, b: Seq<char>) -> bool
    decreases a.len(),
{
    if a.len() == 0 {
        b.len() > 0
    } else if b.len() == 0 {
        false
    } else if a[0] != b[0] {
        (a[0] as int) < (b[0] as int)
    } else {
        seq_lt(a.drop_first(), b.drop_first())
    }
}

/// `seq_lt` is irreflexive.
pub proof fn lemma_seq_lt_irreflexive(a: Seq<char>)
    ensures
        !seq_lt(a, a),
    decreases a.len(),
{
    if a.len() > 0 {
        lemma_seq_lt_irreflexive(a.drop_first());
    }
}

/// `seq_lt` is transitive.
pub proof fn lemma_seq_lt_transitive(a: Seq<char>, b: Seq<char>, c: Seq<char>)
    requires
        seq_lt(a, b),
        seq_lt(b, c),
    ensures
        seq_lt(a, c),
    decreases a.len(),
{
    if a.len() > 0 && a[0] == b[0] && b[0] == c[0] {
        lemma_seq_lt_transitive(a.drop_first(), b.drop_first(), c.drop_first());
    }
}

/// Two different sequences are ordered one way or the other.
pub proof fn lemma_seq_lt_total(a: Seq<char>, b: Seq<char>)
    requires
        a != b,
    ensures
        seq_lt(a, b) || seq_lt(b, a),
    decreases a.len(),
{
    if a.len() == 0 {
        if b.len() == 0 {
            assert(a =~= b);
        }
    } else if b.len() > 0 && a[0] == b[0] {
        if a.drop_first() == b.drop_first() {
            assert(a =~= seq![a[0]] + a.drop_first());
            assert(b =~= seq![b[0]] + b.drop_first());
        }
        lemma_seq_lt_total(a.drop_first(), b.drop_first());
    } else if b.len() > 0 {
        assert((a[0] as int) != (b[0] as int));
    }
}

/// A common prefix does not change the order.
proof fn lemma_seq_lt_skip(a: Seq<char>, b: Seq<char>, i: int)
    requires
        0 <= i <= a.len(),
        i <= b.len(),
        a.subrange(0, i) == b.subrange(0, i),
    ensures
        seq_lt(a, b) == seq_lt(a.subrange(i, a.len() as int), b.subrange(i, b.len() as int)),
    decreases i,
{
    if i > 0 {
        assert(a[0] == a.subrange(0, i)[0]);
        assert(b[0] == b.subrange(0, i)[0]);
        let a1 = a.drop_first();
        let b1 = b.drop_first();
        assert(a1.subrange(0, i - 1) == b1.subrange(0, i - 1)) by {
            assert(a1.subrange(0, i - 1) == a.subrange(0, i).drop_first());
            assert(b1.subrange(0, i - 1) == b.subrange(0, i).drop_first());
        }
        lemma_seq_lt_skip(a1, b1, i - 1);
        assert(a1.subrange(i - 1, a1.len() as int) == a.subrange(i, a.len() as int));
        assert(b1.subrange(i - 1, b1.len() as int) == b.subrange(i, b.len() as int));
    } else {
        assert(a.subrange(0, a.len() as int) == a);
        assert(b.subrange(0, b.len() as int) == b);
    }
}

/// Whether `a` comes before `b` in code point order (computed).
pub fn chars_lt(a: &[char], b: &[char]) -> (r: bool)
    ensures
        r == seq_lt(a@, b@),
{
    let mut i: usize = 0;
    while i < a.len() && i < b.len() && a[i] == b[i]
        invariant
            i <= a@.len(),
            i <= b@.len(),
            a@.subrange(0, i as int) == b@.subrange(0, i as int),
        decreases a@.len() - i,
    {
        assert(a@.subrange(0, i + 1) == a@.subrange(0, i as int).push(a@[i as int]));
        assert(b@.subrange(0, i + 1) == b@.subrange(0, i as int).push(b@[i as int]));
        i += 1;
    }
    proof {
        lemma_seq_lt_skip(a@, b@, i as int);
    }
    let ghost ra = a@.subrange(i as int, a@.len() as int);
    let ghost rb = b@.subrange(i as int, b@.len() as int);
    if i == a.len() {
        assert(ra.len() == 0);
        i < b.len()
    } else if i == b.len() {
        assert(rb.len() == 0);
        false
    } else {
        assert(ra[0] == a@[i as int]);
        assert(rb[0] == b@[i as int]);
        a[i] < b[i]
    }
}

/// The decimal digit character for `d` (below ten).
pub open spec fn digit_char(d: nat) -> char {
    seq!['0', '1', '2', '3', '4', '5', '6', '7', '8', '9'][d as int]
}

/// The decimal numeral of `n`, without leading zeros.
pub open spec fn decimal(n: nat) -> Seq<char>
    decreases n,
{
    if n < 10 {
        seq![digit_char(n)]
    } else {
        decimal(n / 10).push(digit_char(n % 10))
    }
}

/// The decimal numeral of `n` (computed).
pub fn decimal_text(n: usize) -> (r: Vec<char>)
    ensures
        r@ == decimal(n as nat),
    decreases n,
{
    let digits: Vec<char> = vec!['0', '1', '2', '3', '4', '5', '6', '7', '8', '9'];
    assert(digits@ == seq!['0', '1', '2', '3', '4', '5', '6', '7', '8', '9']);
    if n < 10 {
        vec![digits[n]]
    } else {
        let mut v = decimal_text(n / 10);
        v.push(digits[n % 10]);
        v
    }
}

/// `split` always gives at least one piece.
pub proof fn lemma_split_nonempty(s: Seq<char>, pat: Seq<char>)
    ensures
        split(s, pat).len() > 0,
{
    let start = 0int;
    if pat.len() == 0 {
    } else {
        match find_at(s, pat, start) {
            None => {},
            Some(i) => {
                lemma_find_at(s, pat, start);
            },
        }
    }
}

/// Joining a piece in front of at least one more piece puts the separator
/// between them.
pub proof fn lemma_join_prepend(a: Seq<char>, rest: Seq<Seq<char>>, sep: Seq<char>)
    requires
        rest.len() >= 1,
    ensures
        join(seq![a] + rest, sep) == a + sep + join(rest, sep),
    decreases rest.len(),
{
    let all = seq![a] + rest;
    if rest.len() == 1 {
        assert(all.drop_last() == seq![a]);
        assert(all.last() == rest[0]);
        assert(join(seq![a], sep) == a);
        assert(join(rest, sep) == rest[0]);
        assert(join(all, sep) == join(all.drop_last(), sep) + sep + all.last());
    } else {
        assert(all.drop_last() == seq![a] + rest.drop_last());
        lemma_join_prepend(a, rest.drop_last(), sep);
        assert(all.last() == rest.last());
        assert(join(all, sep) == join(all.drop_last(), sep) + sep + all.last());
        assert(join(rest, sep) == join(rest.drop_last(), sep) + sep + rest.last());
        assert(a + sep + join(rest.drop_last(), sep) + sep + rest.last() =~= a + sep + (join(
            rest.drop_last(),
            sep,
        ) + sep + rest.last()));
    }
}

/// `split_from` gives at least one piece.
pub proof fn lemma_split_from_nonempty(s: Seq<char>, pat: Seq<char>, start: int)
    ensures
        split_from(s, pat, start).len() >= 1,
    decreases s.len() - start,
{
    if !(start < 0 || start > s.len() || pat.len() == 0) {
        match find_at(s, pat, start) {
            None => {},
            Some(i) => {
                lemma_find_at(s, pat, start);
                lemma_split_from_nonempty(s, pat, i + pat.len());
            },
        }
    }
}

/// Joining the pieces of a split with the pattern gives the text back.
pub proof fn lemma_split_join_from(s: Seq<char>, pat: Seq<char>, start: int)
    requires
        pat.len() > 0,
        0 <= start <= s.len(),
    ensures
        join(split_from(s, pat, start), pat) == s.subrange(start, s.len() as int),
    decreases s.len() - start,
{
    match find_at(s, pat, start) {
        None => {},
        Some(i) => {
            lemma_find_at(s, pat, start);
            let rest = split_from(s, pat, i + pat.len());
            lemma_split_from_nonempty(s, pat, i + pat.len());
            lemma_split_join_from(s, pat, i + pat.len());
            lemma_join_prepend(s.subrange(start, i), rest, pat);
            assert(s.subrange(start, i) + pat + s.subrange(i + pat.len(), s.len() as int)
                =~= s.subrange(start, s.len() as int));
        },
    }
}

/// Joining the pieces of `split(s, pat)` with `pat` gives `s` back.
pub proof fn lemma_split_join(s: Seq<char>, pat: Seq<char>)
    requires
        pat.len() > 0,
    ensures
        join(split(s, pat), pat) == s,
{
    lemma_split_join_from(s, pat, 0);
    assert(s.subrange(0, s.len() as int) == s);
}

/// Joining the one-character pieces of `s` with nothing gives `s` back.
pub proof fn lemma_chars_join(s: Seq<char>)
    ensures
        join(Seq::new(s.len(), |i: int| seq![s[i]]), Seq::empty()) == s,
    decreases s.len(),
{
    let parts = Seq::new(s.len(), |i: int| seq![s[i]]);
    if s.len() == 1 {
        assert(parts[0] == s);
    } else if s.len() > 1 {
        let t = s.drop_last();
        assert(parts.drop_last() == Seq::new(t.len(), |i: int| seq![t[i]]));
        lemma_chars_join(t);
        assert(t + Seq::<char>::empty() + seq![s.last()] =~= s);
    }
}

} // verus!
