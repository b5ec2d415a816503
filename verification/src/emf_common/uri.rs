//! URI value type following EMF's rules: a URI is split into scheme,
//! authority, device, path, query and fragment (or an opaque part), and can
//! be rendered back, trimmed, extended, resolved and deresolved.
use vstd::prelude::*;
use crate::text::str_eq;
use crate::text::{lemma_map_push, chars_eq, chars_of, find, find_from, join, lemma_find_at, slice_chars, split,
    split_chars, string_of,
};

verus! {

/// The parts of a URI.
pub struct UriView {
    pub scheme: Seq<char>,
    pub opaque: Seq<char>,
    pub device: Seq<char>,
    pub authority: Seq<char>,
    pub path: Seq<char>,
    pub fragment: Seq<char>,
    pub query: Seq<char>,
    pub scheme_opaque: bool,
    pub is_archive: bool,
    pub has_authority: bool,
}

/// The empty URI.
pub open spec fn empty_uri() -> UriView {
    UriView {
        scheme: Seq::empty(),
        opaque: Seq::empty(),
        device: Seq::empty(),
        authority: Seq::empty(),
        path: Seq::empty(),
        fragment: Seq::empty(),
        query: Seq::empty(),
        scheme_opaque: false,
        is_archive: false,
        has_authority: false,
    }
}

/// `s` up to the first `c`, and what follows that `c` (if there is one).
pub open spec fn cut(s: Seq<char>, c: char) -> (Seq<char>, Option<Seq<char>>) {
    match find(s, seq![c]) {
        Some(i) => (s.take(i), Some(s.skip(i + 1))),
        None => (s, None),
    }
}

/// An ASCII letter.
pub open spec fn is_alpha(c: char) -> bool {
    ('a' <= c && c <= 'z') || ('A' <= c && c <= 'Z')
}

/// A character allowed after the first one of a scheme.
pub open spec fn is_scheme_char(c: char) -> bool {
    is_alpha(c) || ('0' <= c && c <= '9') || c == '+' || c == '-' || c == '.'
}

/// A scheme: a letter followed by letters, digits, `+`, `-` or `.`.
pub open spec fn valid_scheme(p: Seq<char>) -> bool {
    p.len() > 0 && is_alpha(p[0]) && forall|i: int| 1 <= i < p.len() ==> is_scheme_char(p[i])
}

/// Starts with `//`.
pub open spec fn starts_with_two_slashes(s: Seq<char>) -> bool {
    s.len() >= 2 && s[0] == '/' && s[1] == '/'
}

/// `s` with every leading `//` removed.
pub open spec fn strip_slashes(s: Seq<char>) -> Seq<char>
    decreases s.len(),
{
    if starts_with_two_slashes(s) {
        strip_slashes(s.skip(2))
    } else {
        s
    }
}

/// Starts with a DOS device such as `C:`.
pub open spec fn has_device(s: Seq<char>) -> bool {
    s.len() >= 2 && is_alpha(s[0]) && s[1] == ':'
}

/// The device prefix of `s` (if any) and the rest.
pub open spec fn split_device(s: Seq<char>) -> (Seq<char>, Seq<char>) {
    if has_device(s) {
        (s.take(2), s.skip(2))
    } else {
        (Seq::empty(), s)
    }
}

/// The URI parts after `scheme:`, given what follows the colon: an
/// authority after `//`, a hierarchical path when it starts with `/`, an
/// opaque part otherwise.
pub open spec fn parse_after_scheme(u: UriView, rest: Seq<char>) -> UriView {
    if starts_with_two_slashes(rest) {
        let body = rest.skip(2);
        let ap = find(body, seq!['/']);
        let authority = match ap {
            Some(i) => body.take(i),
            None => body,
        };
        let tail = match ap {
            Some(i) => body.skip(i),
            None => Seq::empty(),
        };
        let host = match find(authority, seq!['@']) {
            Some(i) => authority.skip(i + 1),
            None => authority,
        };
        match find(host, seq!['!', '/']) {
            Some(b) => {
                let (device, first) = split_device(strip_slashes(host.take(b)));
                let first = if first.len() > 0 && first[0] != '/' {
                    seq!['/'] + first
                } else {
                    first
                };
                UriView {
                    has_authority: true,
                    is_archive: true,
                    device: device,
                    authority: host.take(b),
                    path: first + host.skip(b + 1) + tail,
                    ..u
                }
            },
            None => {
                let (device, h) = split_device(strip_slashes(host));
                UriView { has_authority: true, device: device, authority: h, path: tail, ..u }
            },
        }
    } else if rest.len() > 0 && rest[0] == '/' {
        UriView { path: rest, ..u }
    } else {
        UriView { scheme_opaque: true, opaque: rest, ..u }
    }
}

/// What parsing stops short of: a colon at the very start of the part before
/// the query and fragment (no scheme can be empty).
pub open spec fn parse_refused(s: Seq<char>) -> bool {
    let s2 = cut(cut(s, '#').0, '?').0;
    find(s2, seq![':']) == Some(0int)
}

/// The URI that the text `s` denotes.
pub open spec fn parse_spec(s: Seq<char>) -> UriView {
    if s.len() == 0 {
        empty_uri()
    } else {
        let (s1, frag) = cut(s, '#');
        let (s2, q) = cut(s1, '?');
        let u = UriView {
            fragment: match frag {
                Some(f) => f,
                None => Seq::empty(),
            },
            query: match q {
                Some(x) => x,
                None => Seq::empty(),
            },
            ..empty_uri()
        };
        match find(s2, seq![':']) {
            Some(cp) => if valid_scheme(s2.take(cp)) {
                parse_after_scheme(UriView { scheme: s2.take(cp), ..u }, s2.skip(cp + 1))
            } else {
                UriView { path: s2, ..u }
            },
            None => UriView { path: s2, ..u },
        }
    }
}

/// The text of a URI.
pub open spec fn display(u: UriView) -> Seq<char> {
    let a = if u.scheme.len() > 0 {
        u.scheme + seq![':']
    } else {
        Seq::empty()
    };
    let b = if u.scheme_opaque {
        u.opaque
    } else {
        (if u.has_authority {
            seq!['/', '/']
        } else {
            Seq::empty()
        }) + u.authority + u.path
    };
    let c = if u.query.len() > 0 {
        seq!['?'] + u.query
    } else {
        Seq::empty()
    };
    let d = if u.fragment.len() > 0 {
        seq!['#'] + u.fragment
    } else {
        Seq::empty()
    };
    a + b + c + d
}

/// `parts` without its empty pieces.
pub open spec fn drop_empty(parts: Seq<Seq<char>>) -> Seq<Seq<char>>
    decreases parts.len(),
{
    if parts.len() == 0 {
        Seq::empty()
    } else {
        let d = drop_empty(parts.drop_last());
        if parts.last().len() == 0 {
            d
        } else {
            d.push(parts.last())
        }
    }
}

/// The non-empty `/`-separated segments of a path.
pub open spec fn path_segments(p: Seq<char>) -> Seq<Seq<char>> {
    drop_empty(split(p, seq!['/']))
}

/// A `.` that starts a path segment and is followed by the end, `/` or `.`.
pub open spec fn dot_segment_at(p: Seq<char>, i: int) -> bool {
    0 <= i < p.len() && p[i] == '.' && (i == 0 || p[i - 1] == '/') && (i + 1 == p.len() || p[i
        + 1] == '/' || p[i + 1] == '.')
}

/// The path holds a `.` or `..` segment.
pub open spec fn has_relative_path_spec(p: Seq<char>) -> bool {
    exists|i: int| dot_segment_at(p, i)
}

/// The URI is relative: no scheme and no path, or a path that does not start
/// with `/`.
pub open spec fn is_relative_spec(u: UriView) -> bool {
    (u.scheme.len() == 0 && u.path.len() == 0) || (u.path.len() > 0 && u.path[0] != '/')
}

/// The path starts with `/`.
pub open spec fn has_absolute_path_spec(u: UriView) -> bool {
    u.path.len() > 0 && u.path[0] == '/'
}

/// A URI parsed per EMF rules.
#[derive(Debug, Clone, PartialEq)]
pub struct Uri {
    scheme: String,
    opaque: String,
    device: String,
    authority: String,
    path: String,
    fragment: String,
    query: String,
    scheme_opaque: bool,
    is_archive: bool,
    has_authority: bool,
}

impl View for Uri {
    type V = UriView;

    closed spec fn view(&self) -> UriView {
        UriView {
            scheme: self.scheme@,
            opaque: self.opaque@,
            device: self.device@,
            authority: self.authority@,
            path: self.path@,
            fragment: self.fragment@,
            query: self.query@,
            scheme_opaque: self.scheme_opaque,
            is_archive: self.is_archive,
            has_authority: self.has_authority,
        }
    }
}

/// Position of the first `c` in `s` (computed).
fn find_char(s: &[char], c: char) -> (r: Option<usize>)
    ensures
        match r {
            Some(i) => find(s@, seq![c]) == Some(i as int) && i < s@.len(),
            None => find(s@, seq![c]) is None,
        },
{
    let mut pat: Vec<char> = Vec::new();
    pat.push(c);
    assert(pat@ == seq![c]);
    let r = find_from(s, pat.as_slice(), 0);
    proof {
        lemma_find_at(s@, pat@, 0);
    }
    r
}

/// `s` from `start` on.
fn skip_chars(s: &[char], start: usize) -> (r: Vec<char>)
    requires
        start <= s@.len(),
    ensures
        r@ == s@.skip(start as int),
{
    slice_chars(s, start, s.len())
}

/// `strip_slashes` (computed).
fn strip_slashes_exec(s: Vec<char>) -> (r: Vec<char>)
    ensures
        r@ == strip_slashes(s@),
    decreases s@.len(),
{
    if s.len() >= 2 && s[0] == '/' && s[1] == '/' {
        let rest = skip_chars(s.as_slice(), 2);
        strip_slashes_exec(rest)
    } else {
        s
    }
}

/// Whether `c` is an ASCII letter (computed).
fn is_alpha_exec(c: char) -> (r: bool)
    ensures
        r == is_alpha(c),
{
    ('a' <= c && c <= 'z') || ('A' <= c && c <= 'Z')
}

/// `split_device` (computed).
fn split_device_exec(s: Vec<char>) -> (r: (Vec<char>, Vec<char>))
    ensures
        (r.0@, r.1@) == split_device(s@),
{
    if s.len() >= 2 && is_alpha_exec(s[0]) && s[1] == ':' {
        (slice_chars(s.as_slice(), 0, 2), skip_chars(s.as_slice(), 2))
    } else {
        (Vec::new(), s)
    }
}

/// Whether `p` is a valid scheme (computed).
fn valid_scheme_exec(p: &[char]) -> (r: bool)
    ensures
        r == valid_scheme(p@),
{
    if p.len() == 0 || !is_alpha_exec(p[0]) {
        return false;
    }
    let mut i: usize = 1;
    while i < p.len()
        invariant
            1 <= i <= p@.len(),
            forall|j: int| 1 <= j < i ==> is_scheme_char(p@[j]),
        decreases p@.len() - i,
    {
        let c = p[i];
        if !(is_alpha_exec(c) || ('0' <= c && c <= '9') || c == '+' || c == '-' || c == '.') {
            return false;
        }
        i += 1;
    }
    true
}

/// `a` followed by `b`.
pub(crate) fn concat(a: &[char], b: &[char]) -> (r: Vec<char>)
    ensures
        r@ == a@ + b@,
{
    let mut r = slice_chars(a, 0, a.len());
    let mut i: usize = 0;
    while i < b.len()
        invariant
            i <= b@.len(),
            r@ == a@ + b@.take(i as int),
        decreases b@.len() - i,
    {
        r.push(b[i]);
        assert(b@.take(i + 1) == b@.take(i as int).push(b@[i as int]));
        i += 1;
    }
    assert(b@.take(b@.len() as int) == b@);
    r
}

impl Uri {
    /// A URI with the given parts.
    fn from_parts(
        scheme: &[char],
        opaque: &[char],
        device: &[char],
        authority: &[char],
        path: &[char],
        fragment: &[char],
        query: &[char],
        scheme_opaque: bool,
        is_archive: bool,
        has_authority: bool,
    ) -> (r: Uri)
        ensures
            r@ == (UriView {
                scheme: scheme@,
                opaque: opaque@,
                device: device@,
                authority: authority@,
                path: path@,
                fragment: fragment@,
                query: query@,
                scheme_opaque,
                is_archive,
                has_authority,
            }),
    {
        Uri {
            scheme: string_of(scheme),
            opaque: string_of(opaque),
            device: string_of(device),
            authority: string_of(authority),
            path: string_of(path),
            fragment: string_of(fragment),
            query: string_of(query),
            scheme_opaque,
            is_archive,
            has_authority,
        }
    }

    /// An exact copy.
    pub(crate) fn copy(&self) -> (r: Uri)
        ensures
            r@ == self@,
    {
        Uri {
            scheme: self.scheme.clone(),
            opaque: self.opaque.clone(),
            device: self.device.clone(),
            authority: self.authority.clone(),
            path: self.path.clone(),
            fragment: self.fragment.clone(),
            query: self.query.clone(),
            scheme_opaque: self.scheme_opaque,
            is_archive: self.is_archive,
            has_authority: self.has_authority,
        }
    }

    /// The empty URI.
    pub fn new() -> (r: Self)
        ensures
            r@ == empty_uri(),
    {
        let e: Vec<char> = Vec::new();
        Self::from_parts(
            e.as_slice(),
            e.as_slice(),
            e.as_slice(),
            e.as_slice(),
            e.as_slice(),
            e.as_slice(),
            e.as_slice(),
            false,
            false,
            false,
        )
    }

    /// Whether `parse` accepts `s`: no colon at the very start of the part
    /// before any `?` or `#`.
    pub fn parse_accepted(s: &str) -> (r: bool)
        ensures
            r == !parse_refused(s@),
    {
        let cs = chars_of(s);
        let s1 = match find_char(cs.as_slice(), '#') {
            Some(i) => slice_chars(cs.as_slice(), 0, i),
            None => cs,
        };
        let s2 = match find_char(s1.as_slice(), '?') {
            Some(i) => slice_chars(s1.as_slice(), 0, i),
            None => s1,
        };
        match find_char(s2.as_slice(), ':') {
            Some(i) => i != 0,
            None => true,
        }
    }

    /// Parse `s` into a URI. A colon at the very start of the part before
    /// any `?` or `#` is not accepted (no scheme can be empty).
    pub fn parse(s: &str) -> (r: Self)
        requires
            !parse_refused(s@),
        ensures
            r@ == parse_spec(s@),
    {
        let cs = chars_of(s);
        if cs.len() == 0 {
            return Self::new();
        }
        let e: Vec<char> = Vec::new();
        let (s1, fragment) = match find_char(cs.as_slice(), '#') {
            Some(i) => (slice_chars(cs.as_slice(), 0, i), skip_chars(cs.as_slice(), i + 1)),
            None => (cs, Vec::new()),
        };
        let (s2, query) = match find_char(s1.as_slice(), '?') {
            Some(i) => (slice_chars(s1.as_slice(), 0, i), skip_chars(s1.as_slice(), i + 1)),
            None => (s1, Vec::new()),
        };
        match find_char(s2.as_slice(), ':') {
            Some(cp) => {
                let scheme = slice_chars(s2.as_slice(), 0, cp);
                if valid_scheme_exec(scheme.as_slice()) {
                    let rest = skip_chars(s2.as_slice(), cp + 1);
                    Self::parse_after_scheme(scheme, rest, fragment, query)
                } else {
                    Self::from_parts(
                        e.as_slice(),
                        e.as_slice(),
                        e.as_slice(),
                        e.as_slice(),
                        s2.as_slice(),
                        fragment.as_slice(),
                        query.as_slice(),
                        false,
                        false,
                        false,
                    )
                }
            },
            None => Self::from_parts(
                e.as_slice(),
                e.as_slice(),
                e.as_slice(),
                e.as_slice(),
                s2.as_slice(),
                fragment.as_slice(),
                query.as_slice(),
                false,
                false,
                false,
            ),
        }
    }

    /// The URI for `scheme:rest` with the given fragment and query.
    fn parse_after_scheme(scheme: Vec<char>, rest: Vec<char>, fragment: Vec<char>, query: Vec<char>) -> (r: Uri)
        ensures
            r@ == parse_after_scheme(
                UriView { scheme: scheme@, fragment: fragment@, query: query@, ..empty_uri() },
                rest@,
            ),
    {
        let e: Vec<char> = Vec::new();
        if rest.len() > 0 && rest[0] == '/' && !(rest.len() >= 2 && rest[1] == '/') {
            return Self::from_parts(
                scheme.as_slice(),
                e.as_slice(),
                e.as_slice(),
                e.as_slice(),
                rest.as_slice(),
                fragment.as_slice(),
                query.as_slice(),
                false,
                false,
                false,
            );
        }
        if !(rest.len() >= 2 && rest[0] == '/' && rest[1] == '/') {
            return Self::from_parts(
                scheme.as_slice(),
                rest.as_slice(),
                e.as_slice(),
                e.as_slice(),
                e.as_slice(),
                fragment.as_slice(),
                query.as_slice(),
                true,
                false,
                false,
            );
        }
        let body = skip_chars(rest.as_slice(), 2);
        let (authority, tail) = match find_char(body.as_slice(), '/') {
            Some(i) => (slice_chars(body.as_slice(), 0, i), skip_chars(body.as_slice(), i)),
            None => (body, Vec::new()),
        };
        let host = match find_char(authority.as_slice(), '@') {
            Some(i) => skip_chars(authority.as_slice(), i + 1),
            None => authority,
        };
        let mut bang: Vec<char> = Vec::new();
        bang.push('!');
        bang.push('/');
        assert(bang@ == seq!['!', '/']);
        match find_from(host.as_slice(), bang.as_slice(), 0) {
            Some(b) => {
                proof {
                    lemma_find_at(host@, bang@, 0);
                }
                let head = slice_chars(host.as_slice(), 0, b);
                let (device, first) = split_device_exec(strip_slashes_exec(
                    slice_chars(host.as_slice(), 0, b),
                ));
                let first = if first.len() > 0 && first[0] != '/' {
                    let mut slash: Vec<char> = Vec::new();
                    slash.push('/');
                    assert(slash@ == seq!['/']);
                    concat(slash.as_slice(), first.as_slice())
                } else {
                    first
                };
                let after = skip_chars(host.as_slice(), b + 1);
                let p1 = concat(first.as_slice(), after.as_slice());
                let path = concat(p1.as_slice(), tail.as_slice());
                Self::from_parts(
                    scheme.as_slice(),
                    e.as_slice(),
                    device.as_slice(),
                    head.as_slice(),
                    path.as_slice(),
                    fragment.as_slice(),
                    query.as_slice(),
                    false,
                    true,
                    true,
                )
            },
            None => {
                let (device, h) = split_device_exec(strip_slashes_exec(host));
                Self::from_parts(
                    scheme.as_slice(),
                    e.as_slice(),
                    device.as_slice(),
                    h.as_slice(),
                    tail.as_slice(),
                    fragment.as_slice(),
                    query.as_slice(),
                    false,
                    false,
                    true,
                )
            },
        }
    }
}


/// `seq!['f', 'i', 'l', 'e']`.
pub open spec fn file_word() -> Seq<char> {
    seq!['f', 'i', 'l', 'e']
}

/// The file-system path of a URI: the path (after a two-character device
/// that starts with `/`) for `file:` and scheme-less URIs, else its text.
pub open spec fn file_path(u: UriView) -> Seq<char> {
    if u.scheme == file_word() || u.scheme.len() == 0 {
        if u.device.len() == 2 && u.device[0] == '/' {
            u.device + u.path
        } else {
            u.path
        }
    } else {
        display(u)
    }
}

/// `seq!['p', 'l', 'a', 't', 'f', 'o', 'r', 'm']`.
pub open spec fn platform_word() -> Seq<char> {
    seq!['p', 'l', 'a', 't', 'f', 'o', 'r', 'm']
}

/// The characters of the scheme `file`.
fn file_chars() -> (r: Vec<char>)
    ensures
        r@ == file_word(),
{
    let mut r: Vec<char> = Vec::new();
    r.push('f');
    r.push('i');
    r.push('l');
    r.push('e');
    assert(r@ =~= file_word());
    r
}

/// The characters of the scheme `platform`.
fn platform_chars() -> (r: Vec<char>)
    ensures
        r@ == platform_word(),
{
    let mut r: Vec<char> = Vec::new();
    r.push('p');
    r.push('l');
    r.push('a');
    r.push('t');
    r.push('f');
    r.push('o');
    r.push('r');
    r.push('m');
    assert(r@ =~= platform_word());
    r
}

/// One character.
fn one_char(c: char) -> (r: Vec<char>)
    ensures
        r@ == seq![c],
{
    let mut r: Vec<char> = Vec::new();
    r.push(c);
    assert(r@ =~= seq![c]);
    r
}

/// Views of a vector of character vectors.
pub open spec fn char_views(v: Seq<Vec<char>>) -> Seq<Seq<char>> {
    v.map_values(|x: Vec<char>| x@)
}

/// Pushing a vector pushes its view.
proof fn lemma_char_views_push(v: Seq<Vec<char>>, x: Vec<char>)
    ensures
        char_views(v.push(x)) == char_views(v).push(x@),
{
    assert(char_views(v.push(x)) =~= char_views(v).push(x@));
}

/// `path_segments` (computed).
fn path_segments_exec(p: &[char]) -> (r: Vec<Vec<char>>)
    ensures
        char_views(r@) == path_segments(p@),
{
    let slash = one_char('/');
    let parts = split_chars(p, slash.as_slice());
    let ghost pv = char_views(parts@);
    assert(pv == split(p@, seq!['/']));
    let mut out: Vec<Vec<char>> = Vec::new();
    let mut i: usize = 0;
    while i < parts.len()
        invariant
            i <= parts@.len(),
            pv == char_views(parts@),
            char_views(out@) == drop_empty(pv.take(i as int)),
        decreases parts@.len() - i,
    {
        proof {
            assert(pv.take(i + 1).drop_last() == pv.take(i as int));
            assert(pv.take(i + 1).last() == parts@[i as int]@);
        }
        if parts[i].len() > 0 {
            let ghost prev = out@;
            let x = slice_chars(parts[i].as_slice(), 0, parts[i].len());
            assert(x@ == parts@[i as int]@);
            out.push(x);
            proof {
                lemma_char_views_push(prev, x);
            }
        }
        i += 1;
    }
    assert(pv.take(parts@.len() as int) == pv);
    out
}

/// The segments joined with `/` and each preceded by `/`.
pub open spec fn slash_join(segs: Seq<Seq<char>>) -> Seq<char>
    decreases segs.len(),
{
    if segs.len() == 0 {
        Seq::empty()
    } else {
        slash_join(segs.drop_last()) + seq!['/'] + segs.last()
    }
}

/// `slash_join` over `segs[start..]` appended to `acc` (computed).
fn push_slash_join(acc: &mut Vec<char>, segs: &[Vec<char>], start: usize, end: usize)
    requires
        start <= end <= segs@.len(),
    ensures
        final(acc)@ == old(acc)@ + slash_join(char_views(segs@).subrange(start as int, end as int)),
{
    let ghost base = acc@;
    let ghost sv = char_views(segs@);
    let mut i = start;
    while i < end
        invariant
            start <= i <= end,
            end <= segs@.len(),
            sv == char_views(segs@),
            acc@ == base + slash_join(sv.subrange(start as int, i as int)),
        decreases end - i,
    {
        let ghost before = acc@;
        acc.push('/');
        let seg = &segs[i];
        let mut k: usize = 0;
        while k < seg.len()
            invariant
                k <= seg@.len(),
                acc@ == before + seq!['/'] + seg@.take(k as int),
            decreases seg@.len() - k,
        {
            acc.push(seg[k]);
            assert(seg@.take(k + 1) == seg@.take(k as int).push(seg@[k as int]));
            k += 1;
        }
        proof {
            assert(seg@.take(seg@.len() as int) == seg@);
            assert(sv.subrange(start as int, i + 1).drop_last() == sv.subrange(start as int, i as int));
            assert(sv.subrange(start as int, i + 1).last() == seg@);
        }
        i += 1;
    }
}

/// One step of resolving relative segments: the segments kept so far and
/// whether no segment but `.` has been seen yet.
pub open spec fn resolve_step(
    st: (Seq<Seq<char>>, bool),
    seg: Seq<char>,
    base_absolute: bool,
) -> (Seq<Seq<char>>, bool) {
    let (ns, first) = st;
    if seg == seq!['.'] {
        (ns, first)
    } else if seg == seq!['.', '.'] {
        if ns.len() > 0 && ns.last() != seq!['.', '.'] {
            (ns.drop_last(), false)
        } else if !first || !base_absolute {
            (ns.push(seg), false)
        } else {
            (ns, false)
        }
    } else {
        (ns.push(seg), false)
    }
}

/// Resolving `segs` one by one.
pub open spec fn resolve_segments(segs: Seq<Seq<char>>, base_absolute: bool) -> (
    Seq<Seq<char>>,
    bool,
)
    decreases segs.len(),
{
    if segs.len() == 0 {
        (Seq::empty(), true)
    } else {
        resolve_step(resolve_segments(segs.drop_last(), base_absolute), segs.last(), base_absolute)
    }
}

/// The path of `rel` resolved against `base`.
pub open spec fn resolved_path(rel: UriView, base: UriView) -> Seq<char> {
    if rel.path.len() > 0 {
        let base_segs = path_segments(base.path);
        let ns = resolve_segments(path_segments(rel.path), has_absolute_path_spec(base)).0;
        let prefix = if has_absolute_path_spec(base) && ns.len() == 0 {
            seq!['/']
        } else if has_absolute_path_spec(base) && base_segs.len() > 0 {
            slash_join(base_segs.drop_last())
        } else {
            Seq::empty()
        };
        prefix + slash_join(ns)
    } else {
        base.path
    }
}

/// `rel` resolved against `base` (EMF `URI.resolve`).
pub open spec fn resolve_spec(rel: UriView, base: UriView) -> UriView {
    if !is_relative_spec(rel) || base.scheme_opaque || is_relative_spec(base) {
        rel
    } else {
        UriView {
            scheme: base.scheme,
            device: base.device,
            has_authority: base.has_authority,
            authority: base.authority,
            path: resolved_path(rel, base),
            query: rel.query,
            fragment: rel.fragment,
            ..empty_uri()
        }
    }
}

/// Length of the common prefix of `a` and `b` starting at `i`.
pub open spec fn common_prefix_from(a: Seq<Seq<char>>, b: Seq<Seq<char>>, i: int) -> int
    decreases a.len() - i,
{
    if i < 0 || i >= a.len() || i >= b.len() || a[i] != b[i] {
        i
    } else {
        common_prefix_from(a, b, i + 1)
    }
}

/// `n` copies of `../`.
pub open spec fn ups(n: nat) -> Seq<char>
    decreases n,
{
    if n == 0 {
        Seq::empty()
    } else {
        ups((n - 1) as nat) + seq!['.', '.', '/']
    }
}

/// `uri` made relative to `base` (EMF `URI.deresolve`).
pub open spec fn deresolve_spec(uri: UriView, base: UriView) -> UriView {
    if is_relative_spec(uri) || base.scheme_opaque || is_relative_spec(base) || uri.scheme
        != base.scheme || uri.device != base.device {
        uri
    } else {
        let base_segs = path_segments(base.path);
        let my_segs = path_segments(uri.path);
        let common = common_prefix_from(base_segs, my_segs, 0);
        UriView {
            path: ups((base_segs.len() - common) as nat) + join(my_segs.skip(common), seq!['/']),
            query: uri.query,
            fragment: uri.fragment,
            ..empty_uri()
        }
    }
}

/// The path after trimming `count` segments.
pub open spec fn trimmed_path(path: Seq<char>, count: nat) -> Seq<char> {
    let p = if path.len() > 0 && path[0] == '/' {
        path.skip(1)
    } else {
        path
    };
    let segs = path_segments(p);
    if count >= segs.len() {
        Seq::empty()
    } else {
        seq!['/'] + join(segs.take(segs.len() - count), seq!['/'])
    }
}

impl Uri {
    /// Whether the URI has no scheme, no path and no opaque part.
    pub fn is_empty(&self) -> (r: bool)
        ensures
            r == (self@.scheme.len() == 0 && self@.path.len() == 0 && self@.opaque.len() == 0),
    {
        self.scheme.as_str().is_empty() && self.path.as_str().is_empty()
            && self.opaque.as_str().is_empty()
    }

    /// Whether the scheme is `file`.
    pub fn is_file(&self) -> (r: bool)
        ensures
            r == (self@.scheme == file_word()),
    {
        let s = chars_of(self.scheme.as_str());
        let f = file_chars();
        chars_eq(s.as_slice(), f.as_slice())
    }

    /// Whether the scheme is `platform`.
    pub fn is_platform(&self) -> (r: bool)
        ensures
            r == (self@.scheme == platform_word()),
    {
        let s = chars_of(self.scheme.as_str());
        let f = platform_chars();
        chars_eq(s.as_slice(), f.as_slice())
    }

    /// Whether the URI denotes an archive entry (`!/` in the authority).
    pub fn is_archive(&self) -> (r: bool)
        ensures
            r == self@.is_archive,
    {
        self.is_archive
    }

    /// Whether the URI is written with a `//` authority part.
    pub fn has_authority(&self) -> (r: bool)
        ensures
            r == self@.has_authority,
    {
        self.has_authority
    }

    /// Whether the path does not start with `/`, or the URI has neither a
    /// scheme nor a path.
    pub fn is_relative(&self) -> (r: bool)
        ensures
            r == is_relative_spec(self@),
    {
        let p = chars_of(self.path.as_str());
        let no_scheme_empty_path = self.scheme.as_str().is_empty() && p.len() == 0;
        let rel_path = p.len() > 0 && p[0] != '/';
        no_scheme_empty_path || rel_path
    }

    /// Whether the path holds a `.` or `..` segment.
    pub fn has_relative_path(&self) -> (r: bool)
        ensures
            r == has_relative_path_spec(self@.path),
    {
        let p = chars_of(self.path.as_str());
        let mut i: usize = 0;
        while i < p.len()
            invariant
                i <= p@.len(),
                p@ == self@.path,
                forall|j: int| 0 <= j < i ==> !dot_segment_at(p@, j),
            decreases p@.len() - i,
        {
            if p[i] == '.' && (i == 0 || p[i - 1] == '/') && (i + 1 == p.len() || p[i + 1] == '/'
                || p[i + 1] == '.') {
                assert(dot_segment_at(p@, i as int));
                assert(p@ == self@.path);
                assert(dot_segment_at(self@.path, i as int));
                return true;
            }
            i += 1;
        }
        false
    }

    /// Whether the URI is hierarchical (not scheme-opaque).
    pub fn is_hierarchical(&self) -> (r: bool)
        ensures
            r == !self@.scheme_opaque,
    {
        !self.scheme_opaque
    }

    /// Whether the path starts with `/`.
    pub fn has_absolute_path(&self) -> (r: bool)
        ensures
            r == has_absolute_path_spec(self@),
    {
        let p = chars_of(self.path.as_str());
        p.len() > 0 && p[0] == '/'
    }

    /// Whether there is a scheme.
    pub fn has_scheme(&self) -> (r: bool)
        ensures
            r == (self@.scheme.len() > 0),
    {
        !self.scheme.as_str().is_empty()
    }

    /// Whether the path is non-empty and does not start with `/`.
    pub fn path_is_relative(&self) -> (r: bool)
        ensures
            r == (self@.path.len() > 0 && self@.path[0] != '/'),
    {
        let p = chars_of(self.path.as_str());
        p.len() > 0 && p[0] != '/'
    }

    /// The scheme.
    pub fn scheme(&self) -> (r: &str)
        ensures
            r@ == self@.scheme,
    {
        self.scheme.as_str()
    }

    /// The opaque part (of a scheme-opaque URI).
    pub fn opaque_part(&self) -> (r: &str)
        ensures
            r@ == self@.opaque,
    {
        self.opaque.as_str()
    }

    /// The device (such as `C:`).
    pub fn device(&self) -> (r: &str)
        ensures
            r@ == self@.device,
    {
        self.device.as_str()
    }

    /// The path.
    pub fn path(&self) -> (r: &str)
        ensures
            r@ == self@.path,
    {
        self.path.as_str()
    }

    /// The fragment.
    pub fn fragment(&self) -> (r: &str)
        ensures
            r@ == self@.fragment,
    {
        self.fragment.as_str()
    }

    /// The query.
    pub fn query(&self) -> (r: &str)
        ensures
            r@ == self@.query,
    {
        self.query.as_str()
    }

    /// The authority.
    pub fn authority(&self) -> (r: &str)
        ensures
            r@ == self@.authority,
    {
        self.authority.as_str()
    }

    /// Whether the URI is scheme-opaque.
    pub fn is_scheme_opaque(&self) -> (r: bool)
        ensures
            r == self@.scheme_opaque,
    {
        self.scheme_opaque
    }

    /// The non-empty path segments; none for a scheme-opaque URI.
    pub fn segments(&self) -> (r: Vec<String>)
        ensures
            r@.map_values(|s: String| s@) == (if self@.scheme_opaque {
                Seq::empty()
            } else {
                path_segments(self@.path)
            }),
    {
        let mut out: Vec<String> = Vec::new();
        if self.scheme_opaque {
            assert(out@.map_values(|s: String| s@) =~= Seq::<Seq<char>>::empty());
            return out;
        }
        let p = chars_of(self.path.as_str());
        let segs = path_segments_exec(p.as_slice());
        let mut i: usize = 0;
        while i < segs.len()
            invariant
                i <= segs@.len(),
                out@.map_values(|s: String| s@) == char_views(segs@).take(i as int),
            decreases segs@.len() - i,
        {
            let x = string_of(segs[i].as_slice());
            let ghost prev = out@;
            out.push(x);
            proof {
                lemma_map_push(prev, x, |s: String| s@);
                assert(char_views(segs@).take(i + 1) =~= char_views(segs@).take(i as int).push(x@));
            }
            i += 1;
        }
        assert(char_views(segs@).take(segs@.len() as int) =~= char_views(segs@));
        out
    }

    /// Segment `index` (of `segments`), `None` when out of range.
    pub fn segment(&self, index: usize) -> (r: Option<String>)
        ensures
            ({
                let segs = if self@.scheme_opaque {
                    Seq::empty()
                } else {
                    path_segments(self@.path)
                };
                &&& index < segs.len() ==> (r matches Some(x) && x@ == segs[index as int])
                &&& index >= segs.len() ==> r is None
            }),
    {
        let segs = self.segments();
        if index < segs.len() {
            let x = segs[index].clone();
            assert(x@ == segs@.map_values(|s: String| s@)[index as int]);
            Some(x)
        } else {
            None
        }
    }

    /// The text of the URI.
    pub fn to_string(&self) -> (r: String)
        ensures
            r@ == display(self@),
    {
        let mut out: Vec<char> = Vec::new();
        let scheme = chars_of(self.scheme.as_str());
        if scheme.len() > 0 {
            let a = concat(scheme.as_slice(), one_char(':').as_slice());
            out = a;
        }
        let ghost a = out@;
        if self.scheme_opaque {
            let o = chars_of(self.opaque.as_str());
            out = concat(out.as_slice(), o.as_slice());
        } else {
            let mut b: Vec<char> = Vec::new();
            if self.has_authority {
                b.push('/');
                b.push('/');
            }
            assert(b@ =~= (if self.has_authority {
                seq!['/', '/']
            } else {
                Seq::<char>::empty()
            }));
            let au = chars_of(self.authority.as_str());
            let pa = chars_of(self.path.as_str());
            let b2 = concat(b.as_slice(), au.as_slice());
            let b3 = concat(b2.as_slice(), pa.as_slice());
            out = concat(out.as_slice(), b3.as_slice());
        }
        let q = chars_of(self.query.as_str());
        if q.len() > 0 {
            let c = concat(one_char('?').as_slice(), q.as_slice());
            out = concat(out.as_slice(), c.as_slice());
        } else {
            assert(out@ + Seq::<char>::empty() == out@);
        }
        let f = chars_of(self.fragment.as_str());
        if f.len() > 0 {
            let d = concat(one_char('#').as_slice(), f.as_slice());
            out = concat(out.as_slice(), d.as_slice());
        } else {
            assert(out@ + Seq::<char>::empty() == out@);
        }
        string_of(out.as_slice())
    }

    /// The file-system path: the path (after a two-character device that
    /// starts with `/`) for `file:` and scheme-less URIs, else the text of
    /// the URI.
    pub fn to_file_path(&self) -> (r: String)
        ensures
            r@ == file_path(self@),
    {
        if self.is_file() || self.scheme.as_str().is_empty() {
            let d = chars_of(self.device.as_str());
            let p = chars_of(self.path.as_str());
            if d.len() == 2 && d[0] == '/' {
                let x = concat(d.as_slice(), p.as_slice());
                string_of(x.as_slice())
            } else {
                self.path.clone()
            }
        } else {
            self.to_string()
        }
    }

    /// A copy with the fragment replaced by `f`.
    pub fn append_fragment(&self, f: &str) -> (r: Uri)
        ensures
            r@ == (UriView { fragment: f@, ..self@ }),
    {
        let mut r = self.copy();
        r.fragment = f.to_owned();
        r
    }

    /// A copy with `seg` appended to the path (after a `/` unless the path is
    /// empty or already ends with one).
    pub fn append_segment(&self, seg: &str) -> (r: Uri)
        ensures
            r@ == (UriView {
                path: (if self@.path.len() > 0 && self@.path.last() != '/' {
                    self@.path + seq!['/']
                } else {
                    self@.path
                }) + seg@,
                ..self@
            }),
    {
        let mut r = self.copy();
        let p = chars_of(self.path.as_str());
        let ghost pv = p@;
        let mut np = p;
        if np.len() > 0 && np[np.len() - 1] != '/' {
            np.push('/');
            assert(np@ =~= pv + seq!['/']);
        }
        let s = chars_of(seg);
        let full = concat(np.as_slice(), s.as_slice());
        r.path = string_of(full.as_slice());
        r
    }

    /// A copy without the fragment.
    pub fn trim_fragment(&self) -> (r: Uri)
        ensures
            r@ == (UriView { fragment: Seq::empty(), ..self@ }),
    {
        let mut r = self.copy();
        r.fragment = String::new();
        r
    }

    /// A copy with the last `count` path segments dropped (EMF
    /// `trimSegments`); the path becomes empty when `count` reaches the number
    /// of segments.
    pub fn trim_segments(&self, count: u32) -> (r: Uri)
        ensures
            count < 1 ==> r@ == self@,
            count >= 1 ==> r@ == (UriView { path: trimmed_path(self@.path, count as nat), ..self@ }),
    {
        let mut r = self.copy();
        if count < 1 {
            return r;
        }
        let path = chars_of(self.path.as_str());
        let p = if path.len() > 0 && path[0] == '/' {
            skip_chars(path.as_slice(), 1)
        } else {
            path
        };
        let segs = path_segments_exec(p.as_slice());
        if count as usize >= segs.len() {
            r.path = String::new();
        } else {
            let keep = segs.len() - count as usize;
            let mut out: Vec<char> = Vec::new();
            out.push('/');
            let strs = strings_of_chars(&segs, keep);
            let slash = one_char('/');
            let joined = join_strings(strs.as_slice(), slash.as_slice());
            proof {
                assert(char_views(segs@).take(keep as int) =~= char_views(segs@).subrange(0, keep as int));
            }
            let full = concat(out.as_slice(), joined.as_slice());
            assert(out@ == seq!['/']);
            r.path = string_of(full.as_slice());
        }
        r
    }
}

/// The first `n` vectors as strings.
fn strings_of_chars(segs: &Vec<Vec<char>>, n: usize) -> (r: Vec<String>)
    requires
        n <= segs@.len(),
    ensures
        r@.map_values(|s: String| s@) == char_views(segs@).subrange(0, n as int),
{
    let mut out: Vec<String> = Vec::new();
    let mut i: usize = 0;
    while i < n
        invariant
            i <= n,
            n <= segs@.len(),
            out@.map_values(|s: String| s@) == char_views(segs@).subrange(0, i as int),
        decreases n - i,
    {
        let x = string_of(segs[i].as_slice());
        let ghost prev = out@;
        out.push(x);
        proof {
            lemma_map_push(prev, x, |s: String| s@);
            assert(char_views(segs@).subrange(0, i + 1) =~= char_views(segs@).subrange(0, i as int).push(x@));
        }
        i += 1;
    }
    out
}

/// The strings joined with `sep` (computed).
fn join_strings(parts: &[String], sep: &[char]) -> (r: Vec<char>)
    ensures
        r@ == join(parts@.map_values(|s: String| s@), sep@),
{
    let mut out: Vec<char> = Vec::new();
    let ghost pv = parts@.map_values(|s: String| s@);
    let mut i: usize = 0;
    while i < parts.len()
        invariant
            i <= parts@.len(),
            pv == parts@.map_values(|s: String| s@),
            out@ == join(pv.take(i as int), sep@),
        decreases parts@.len() - i,
    {
        let cs = chars_of(parts[i].as_str());
        if i > 0 {
            out = concat(out.as_slice(), sep);
        }
        let ghost mid = out@;
        out = concat(out.as_slice(), cs.as_slice());
        proof {
            assert(pv.take(i + 1).drop_last() == pv.take(i as int));
            assert(pv.take(i + 1).last() == pv[i as int]);
            if i == 0 {
                assert(pv.take(1)[0] == pv[0]);
                assert(join(pv.take(1), sep@) == pv[0]);
                assert(out@ == Seq::<char>::empty() + cs@);
            }
        }
        i += 1;
    }
    assert(pv.take(parts@.len() as int) == pv);
    out
}

/// Whether `a` holds exactly `.` (computed).
fn is_dot(a: &[char]) -> (r: bool)
    ensures
        r == (a@ == seq!['.']),
{
    let d = one_char('.');
    chars_eq(a, d.as_slice())
}

/// Whether `a` holds exactly `..` (computed).
fn is_dot_dot(a: &[char]) -> (r: bool)
    ensures
        r == (a@ == seq!['.', '.']),
{
    let mut d: Vec<char> = Vec::new();
    d.push('.');
    d.push('.');
    assert(d@ =~= seq!['.', '.']);
    chars_eq(a, d.as_slice())
}

/// `resolve_segments` (computed): the kept segments.
fn resolve_segments_exec(segs: &Vec<Vec<char>>, base_absolute: bool) -> (r: Vec<Vec<char>>)
    ensures
        char_views(r@) == resolve_segments(char_views(segs@), base_absolute).0,
{
    let ghost sv = char_views(segs@);
    let mut ns: Vec<Vec<char>> = Vec::new();
    let mut first = true;
    let mut i: usize = 0;
    assert(char_views(ns@) =~= Seq::<Seq<char>>::empty());
    while i < segs.len()
        invariant
            i <= segs@.len(),
            sv == char_views(segs@),
            (char_views(ns@), first) == resolve_segments(sv.take(i as int), base_absolute),
        decreases segs@.len() - i,
    {
        proof {
            assert(sv.take(i + 1).drop_last() == sv.take(i as int));
            assert(sv.take(i + 1).last() == segs@[i as int]@);
        }
        let seg = &segs[i];
        let ghost before = ns@;
        let ghost old_first = first;
        proof {
            if before.len() > 0 {
                assert(char_views(before).last() == before[before.len() - 1]@);
            }
        }
        if is_dot(seg.as_slice()) {
        } else if is_dot_dot(seg.as_slice()) {
            let n = ns.len();
            if n > 0 && !is_dot_dot(ns[n - 1].as_slice()) {
                let _ = ns.pop();
                assert(char_views(ns@) =~= char_views(before).drop_last());
            } else if !first || !base_absolute {
                let x = slice_chars(seg.as_slice(), 0, seg.len());
                assert(x@ =~= seg@);
                ns.push(x);
                proof {
                    lemma_char_views_push(before, x);
                }
            }
            first = false;
        } else {
            let x = slice_chars(seg.as_slice(), 0, seg.len());
            assert(x@ =~= seg@);
            ns.push(x);
            proof {
                lemma_char_views_push(before, x);
            }
            first = false;
        }
        assert((char_views(ns@), first) == resolve_step((char_views(before), old_first), seg@, base_absolute));
        i += 1;
    }
    assert(sv.take(segs@.len() as int) == sv);
    ns
}

/// `join(segs[start..], sep)` (computed).
fn join_from(segs: &Vec<Vec<char>>, start: usize, sep: &[char]) -> (r: Vec<char>)
    requires
        start <= segs@.len(),
    ensures
        r@ == join(char_views(segs@).skip(start as int), sep@),
{
    let ghost sv = char_views(segs@).skip(start as int);
    let mut out: Vec<char> = Vec::new();
    let mut i = start;
    while i < segs.len()
        invariant
            start <= i <= segs@.len(),
            sv == char_views(segs@).skip(start as int),
            out@ == join(sv.take(i - start), sep@),
        decreases segs@.len() - i,
    {
        if i > start {
            out = concat(out.as_slice(), sep);
        }
        out = concat(out.as_slice(), segs[i].as_slice());
        proof {
            let k = i - start;
            assert(sv.take(k + 1).drop_last() == sv.take(k));
            assert(sv.take(k + 1).last() == segs@[i as int]@);
            if k == 0 {
                assert(sv.take(1)[0] == segs@[i as int]@);
            }
        }
        i += 1;
    }
    assert(sv.take(segs@.len() - start) == sv);
    out
}

/// Whether the first `n` segments of `a` and `b` agree, from `i` on
/// (computed common prefix length).
fn common_prefix(a: &Vec<Vec<char>>, b: &Vec<Vec<char>>) -> (r: usize)
    ensures
        r == common_prefix_from(char_views(a@), char_views(b@), 0),
{
    let ghost av = char_views(a@);
    let ghost bv = char_views(b@);
    let mut i: usize = 0;
    while i < a.len() && i < b.len() && chars_eq(a[i].as_slice(), b[i].as_slice())
        invariant
            i <= a@.len(),
            av == char_views(a@),
            bv == char_views(b@),
            common_prefix_from(av, bv, 0) == common_prefix_from(av, bv, i as int),
        decreases a@.len() - i,
    {
        i += 1;
    }
    i
}

impl Uri {
    /// Resolve this (relative) URI against `base` (EMF `URI.resolve`): `.`
    /// segments are dropped and `..` segments drop the segment kept before
    /// them; the result takes the base's scheme, device and authority.
    pub fn resolve(&self, base: &Uri) -> (r: Uri)
        ensures
            r@ == resolve_spec(self@, base@),
    {
        if !self.is_relative() {
            return self.copy();
        }
        if !base.is_hierarchical() || base.is_relative() {
            return self.copy();
        }
        let my_path = chars_of(self.path.as_str());
        let path = if my_path.len() > 0 {
            let base_path = chars_of(base.path.as_str());
            let base_segs = path_segments_exec(base_path.as_slice());
            let rel_segs = path_segments_exec(my_path.as_slice());
            let base_abs = base.has_absolute_path();
            let ns = resolve_segments_exec(&rel_segs, base_abs);
            let mut out: Vec<char> = Vec::new();
            if base_abs && ns.len() == 0 {
                out.push('/');
                assert(out@ =~= seq!['/']);
            } else if base_abs && base_segs.len() > 0 {
                push_slash_join(&mut out, base_segs.as_slice(), 0, base_segs.len() - 1);
                assert(char_views(base_segs@).subrange(0, base_segs@.len() - 1) =~= char_views(
                    base_segs@,
                ).drop_last());
            }
            let ghost prefix = out@;
            push_slash_join(&mut out, ns.as_slice(), 0, ns.len());
            assert(char_views(ns@).subrange(0, ns@.len() as int) =~= char_views(ns@));
            out
        } else {
            chars_of(base.path.as_str())
        };
        let e: Vec<char> = Vec::new();
        let scheme = chars_of(base.scheme.as_str());
        let device = chars_of(base.device.as_str());
        let authority = chars_of(base.authority.as_str());
        let fragment = chars_of(self.fragment.as_str());
        let query = chars_of(self.query.as_str());
        Self::from_parts(
            scheme.as_slice(),
            e.as_slice(),
            device.as_slice(),
            authority.as_slice(),
            path.as_slice(),
            fragment.as_slice(),
            query.as_slice(),
            false,
            false,
            base.has_authority,
        )
    }

    /// Make this (absolute) URI relative to `base` (EMF `URI.deresolve`):
    /// one `../` per base segment past the common prefix, then the rest of
    /// this URI's segments.
    pub fn deresolve(&self, base: &Uri) -> (r: Uri)
        ensures
            r@ == deresolve_spec(self@, base@),
    {
        if self.is_relative() || !base.is_hierarchical() || base.is_relative() {
            return self.copy();
        }
        let s1 = chars_of(self.scheme.as_str());
        let s2 = chars_of(base.scheme.as_str());
        if !chars_eq(s1.as_slice(), s2.as_slice()) {
            return self.copy();
        }
        let d1 = chars_of(self.device.as_str());
        let d2 = chars_of(base.device.as_str());
        if !chars_eq(d1.as_slice(), d2.as_slice()) {
            return self.copy();
        }
        let base_path = chars_of(base.path.as_str());
        let my_path = chars_of(self.path.as_str());
        let base_segs = path_segments_exec(base_path.as_slice());
        let my_segs = path_segments_exec(my_path.as_slice());
        let common = common_prefix(&base_segs, &my_segs);
        proof {
            lemma_common_prefix_bound(char_views(base_segs@), char_views(my_segs@), 0);
        }
        let mut out: Vec<char> = Vec::new();
        let mut k = common;
        while k < base_segs.len()
            invariant
                common <= k <= base_segs@.len(),
                out@ == ups((k - common) as nat),
            decreases base_segs@.len() - k,
        {
            out.push('.');
            out.push('.');
            out.push('/');
            assert(out@ =~= ups((k + 1 - common) as nat));
            k += 1;
        }
        let slash = one_char('/');
        let rest = join_from(&my_segs, common, slash.as_slice());
        let path = concat(out.as_slice(), rest.as_slice());
        let e: Vec<char> = Vec::new();
        let fragment = chars_of(self.fragment.as_str());
        let query = chars_of(self.query.as_str());
        Self::from_parts(
            e.as_slice(),
            e.as_slice(),
            e.as_slice(),
            e.as_slice(),
            path.as_slice(),
            fragment.as_slice(),
            query.as_slice(),
            false,
            false,
            false,
        )
    }

    /// Whether this URI can serve as a base: hierarchical and not relative.
    pub fn is_base(&self) -> (r: bool)
        ensures
            r == (!self@.scheme_opaque && !is_relative_spec(self@)),
    {
        self.is_hierarchical() && !self.is_relative()
    }

    /// The URI unchanged (a raw segment is not appended).
    pub fn append_raw_segment(&self, _raw: &str) -> (r: Uri)
        ensures
            r@ == self@,
    {
        self.copy()
    }

    /// A `platform:` URI for `path` (an empty path becomes `/`, and a `/` is
    /// put in front of a path that lacks one).
    pub fn create_platform_uri(path: &str) -> (r: Self)
        ensures
            r@ == (UriView {
                scheme: platform_word(),
                path: if path@.len() == 0 {
                    seq!['/']
                } else if path@[0] == '/' {
                    path@
                } else {
                    seq!['/'] + path@
                },
                ..empty_uri()
            }),
    {
        let p = chars_of(path);
        let np = if p.len() == 0 {
            one_char('/')
        } else if p[0] == '/' {
            p
        } else {
            concat(one_char('/').as_slice(), p.as_slice())
        };
        let e: Vec<char> = Vec::new();
        let scheme = platform_chars();
        Self::from_parts(
            scheme.as_slice(),
            e.as_slice(),
            e.as_slice(),
            e.as_slice(),
            np.as_slice(),
            e.as_slice(),
            e.as_slice(),
            false,
            false,
            false,
        )
    }

    /// A `file:` URI for the file-system path `path` (see
    /// `create_file_uri_in`); a relative path is kept as a scheme-less
    /// relative URI, as no working directory is given.
    pub fn create_file_uri(path: &str) -> (r: Self)
        ensures
            r@ == file_uri_spec(path@, None),
    {
        Self::create_file_uri_in(path, None)
    }

    /// A `file:` URI for the file-system path `path`: a DOS path such as
    /// `C:x` gets device `C:` and path `/x`; an absolute path is taken as it
    /// is; a relative path is joined onto the working directory `cwd` (when
    /// that gives an absolute path), else kept as a scheme-less relative URI.
    pub fn create_file_uri_in(path: &str, cwd: Option<&str>) -> (r: Self)
        ensures
            r@ == file_uri_spec(path@, match cwd {
                Some(c) => Some(c@),
                None => None,
            }),
    {
        let p = chars_of(path);
        let e: Vec<char> = Vec::new();
        if p.len() == 0 {
            return Self::new();
        }
        let file = file_chars();
        if p.len() >= 2 && (p[0] as u32) < 0x80 && p[1] == ':' {
            let device = slice_chars(p.as_slice(), 0, 2);
            let rest = skip_chars(p.as_slice(), 2);
            let np = if rest.len() > 0 && rest[0] != '/' {
                concat(one_char('/').as_slice(), rest.as_slice())
            } else {
                rest
            };
            return Self::from_parts(
                file.as_slice(),
                e.as_slice(),
                device.as_slice(),
                e.as_slice(),
                np.as_slice(),
                e.as_slice(),
                e.as_slice(),
                false,
                false,
                true,
            );
        }
        if p[0] == '/' {
            return Self::from_parts(
                file.as_slice(),
                e.as_slice(),
                e.as_slice(),
                e.as_slice(),
                p.as_slice(),
                e.as_slice(),
                e.as_slice(),
                false,
                false,
                true,
            );
        }
        let relative = Self::from_parts(
            e.as_slice(),
            e.as_slice(),
            e.as_slice(),
            e.as_slice(),
            p.as_slice(),
            e.as_slice(),
            e.as_slice(),
            false,
            false,
            false,
        );
        match cwd {
            None => relative,
            Some(c) => {
                let cs = chars_of(c);
                let base = if cs.len() > 0 && cs[cs.len() - 1] != '/' {
                    concat(cs.as_slice(), one_char('/').as_slice())
                } else {
                    cs
                };
                let abs = concat(base.as_slice(), p.as_slice());
                if abs.len() > 0 && abs[0] == '/' {
                    Self::from_parts(
                        file.as_slice(),
                        e.as_slice(),
                        e.as_slice(),
                        e.as_slice(),
                        abs.as_slice(),
                        e.as_slice(),
                        e.as_slice(),
                        false,
                        false,
                        true,
                    )
                } else {
                    relative
                }
            },
        }
    }
}

/// The URI for a file-system path, given the working directory (if known).
pub open spec fn file_uri_spec(p: Seq<char>, cwd: Option<Seq<char>>) -> UriView {
    if p.len() == 0 {
        empty_uri()
    } else if p.len() >= 2 && (p[0] as u32) < 0x80 && p[1] == ':' {
        let rest = p.skip(2);
        UriView {
            scheme: file_word(),
            has_authority: true,
            device: p.take(2),
            path: if rest.len() > 0 && rest[0] != '/' {
                seq!['/'] + rest
            } else {
                rest
            },
            ..empty_uri()
        }
    } else if p[0] == '/' {
        UriView { scheme: file_word(), has_authority: true, path: p, ..empty_uri() }
    } else {
        match cwd {
            Some(c) => {
                let abs = (if c.len() > 0 && c.last() != '/' {
                    c + seq!['/']
                } else {
                    c
                }) + p;
                if abs.len() > 0 && abs[0] == '/' {
                    UriView { scheme: file_word(), has_authority: true, path: abs, ..empty_uri() }
                } else {
                    UriView { path: p, ..empty_uri() }
                }
            },
            None => UriView { path: p, ..empty_uri() },
        }
    }
}

/// The common prefix found from `i` lies between `i` and both lengths.
proof fn lemma_common_prefix_bound(a: Seq<Seq<char>>, b: Seq<Seq<char>>, i: int)
    requires
        0 <= i,
    ensures
        i <= common_prefix_from(a, b, i),
        i <= a.len() && i <= b.len() ==> common_prefix_from(a, b, i) <= a.len()
            && common_prefix_from(a, b, i) <= b.len(),
    decreases a.len() - i,
{
    if !(i >= a.len() || i >= b.len() || a[i] != b[i]) {
        lemma_common_prefix_bound(a, b, i + 1);
    }
}

impl Uri {
    /// The two URIs have the same parts.
    pub(crate) fn same_as(&self, other: &Uri) -> (r: bool)
        ensures
            r == (self@ == other@),
    {
        str_eq(self.scheme.as_str(), other.scheme.as_str()) && str_eq(
            self.opaque.as_str(),
            other.opaque.as_str(),
        ) && str_eq(self.device.as_str(), other.device.as_str()) && str_eq(
            self.authority.as_str(),
            other.authority.as_str(),
        ) && str_eq(self.path.as_str(), other.path.as_str()) && str_eq(
            self.fragment.as_str(),
            other.fragment.as_str(),
        ) && str_eq(self.query.as_str(), other.query.as_str())
            && self.scheme_opaque == other.scheme_opaque && self.is_archive == other.is_archive
            && self.has_authority == other.has_authority
    }
}

impl Default for Uri {
    fn default() -> (r: Self)
        ensures
            r@ == empty_uri(),
    {
        Self::new()
    }
}

/// A `.` segment contributes nothing to resolution: resolving the segments
/// with a `.` at position `k` gives what resolving them without it gives.
pub proof fn lemma_resolve_dot_is_noop(segs: Seq<Seq<char>>, k: int, base_absolute: bool)
    requires
        0 <= k < segs.len(),
        segs[k] == seq!['.'],
    ensures
        resolve_segments(segs, base_absolute) == resolve_segments(segs.remove(k), base_absolute),
    decreases segs.len(),
{
    if k == segs.len() - 1 {
        assert(segs.remove(k) =~= segs.drop_last());
    } else {
        lemma_resolve_dot_is_noop(segs.drop_last(), k, base_absolute);
        assert(segs.remove(k).drop_last() =~= segs.drop_last().remove(k));
        assert(segs.remove(k).last() == segs.last());
    }
}

/// No `.` segment survives resolution.
pub proof fn lemma_resolve_drops_dots(segs: Seq<Seq<char>>, base_absolute: bool)
    ensures
        forall|i: int|
            0 <= i < resolve_segments(segs, base_absolute).0.len() ==> #[trigger] resolve_segments(
                segs,
                base_absolute,
            ).0[i] != seq!['.'],
    decreases segs.len(),
{
    if segs.len() > 0 {
        lemma_resolve_drops_dots(segs.drop_last(), base_absolute);
        let prev = resolve_segments(segs.drop_last(), base_absolute).0;
        let now = resolve_segments(segs, base_absolute).0;
        assert forall|i: int| 0 <= i < now.len() implies #[trigger] now[i] != seq!['.'] by {
            if i < prev.len() {
                assert(now[i] == prev[i]);
            } else {
                assert(now[i] == segs.last());
                assert(segs.last() != seq!['.']);
            }
        }
    }
}

/// Resolving a relative URI whose path has an extra `.` segment gives the
/// same URI as resolving it without that segment: `./x` and `x` resolve
/// alike against any hierarchical, non-relative base.
pub proof fn lemma_resolve_ignores_dot_segment(rel_dot: UriView, rel: UriView, base: UriView, k: int)
    requires
        rel_dot.path.len() > 0,
        rel.path.len() > 0,
        is_relative_spec(rel_dot),
        is_relative_spec(rel),
        rel_dot.query == rel.query,
        rel_dot.fragment == rel.fragment,
        0 <= k < path_segments(rel_dot.path).len(),
        path_segments(rel_dot.path)[k] == seq!['.'],
        path_segments(rel.path) == path_segments(rel_dot.path).remove(k),
        !base.scheme_opaque,
        !is_relative_spec(base),
    ensures
        resolve_spec(rel_dot, base) == resolve_spec(rel, base),
{
    lemma_resolve_dot_is_noop(path_segments(rel_dot.path), k, has_absolute_path_spec(base));
}

/// Deresolving keeps the URI's fragment and query, and resolving the
/// deresolved URI against the same base gives back its fragment and query.
pub proof fn lemma_deresolve_keeps_fragment(uri: UriView, base: UriView)
    ensures
        deresolve_spec(uri, base).fragment == uri.fragment,
        deresolve_spec(uri, base).query == uri.query,
        resolve_spec(deresolve_spec(uri, base), base).fragment == uri.fragment,
        resolve_spec(deresolve_spec(uri, base), base).query == uri.query,
{
}

} // verus!
