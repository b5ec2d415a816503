//! Parser for Acceleo MTL template files: it finds the `[template ...]` and
//! `[query ...]` declarations of a file, with their visibility, name,
//! parameters and raw body, and skips every other tag (`[module ...]`,
//! `[import ...]`, `[comment ...]`).
use vstd::prelude::*;
use crate::text::{
    chars_eq, chars_of, find, find_in, first_word, is_whitespace, is_ws, lemma_find,
    lemma_trim_start_at, lemma_trim_start_suffix, slice_chars, split, split_chars, string_of,
    trim, trim_chars, trim_start, trim_start_chars, words_from, lemma_map_push, decimal,
    decimal_text,
};
use crate::emf_acceleo::template::{
    DeclKind, DeclModel, ParamModel, TemplateDecl, TemplateFile, TemplateParam, Visibility,
};

verus! {

/// An error produced while scanning an MTL file.
#[derive(Debug, Clone, PartialEq, Eq)]
pub struct TemplateParseError {
    /// One-based line.
    pub line: usize,
    /// Message.
    pub message: String,
}

impl TemplateParseError {
    /// The display text: `line <line>: <message>`.
    pub fn to_string(&self) -> (r: String)
        ensures
            r@ == seq!['l', 'i', 'n', 'e', ' '] + decimal(self.line as nat) + seq![':', ' ']
                + self.message@,
    {
        let mut out: Vec<char> = vec!['l', 'i', 'n', 'e', ' '];
        let mut digits = decimal_text(self.line);
        out.append(&mut digits);
        out.push(':');
        out.push(' ');
        let mut m = chars_of(self.message.as_str());
        out.append(&mut m);
        string_of(out.as_slice())
    }
}

/// Number of leading characters of `s` that belong to a name: neither white
/// space nor `(`.
pub open spec fn name_len(s: Seq<char>) -> nat
    decreases s.len(),
{
    if s.len() > 0 && !is_ws(s[0]) && s[0] != '(' {
        1 + name_len(s.drop_first())
    } else {
        0
    }
}

/// The first name of `s` after its leading white space.
pub open spec fn read_word(s: Seq<char>) -> Seq<char> {
    let t = trim_start(s);
    t.subrange(0, name_len(t) as int)
}

/// `s` after its leading white space and, when the first name there is
/// `word`, after that name too.
pub open spec fn skip_word(s: Seq<char>, word: Seq<char>) -> Seq<char> {
    let t = trim_start(s);
    if read_word(t) == word {
        t.subrange(word.len() as int, t.len() as int)
    } else {
        t
    }
}

/// A parameter written `name : type` (or just `name`), if it has a name.
pub open spec fn param_of(p: Seq<char>) -> Option<ParamModel> {
    let t = trim(p);
    if t.len() == 0 {
        None
    } else {
        match find(t, seq![':']) {
            Some(k) => {
                let n = trim(t.subrange(0, k));
                if n.len() == 0 {
                    None
                } else {
                    Some(ParamModel { name: n, ty: trim(t.subrange(k + 1, t.len() as int)) })
                }
            },
            None => Some(ParamModel { name: t, ty: Seq::empty() }),
        }
    }
}

/// The parameters written in the comma-separated pieces `parts`.
pub open spec fn params_of(parts: Seq<Seq<char>>) -> Seq<ParamModel>
    decreases parts.len(),
{
    if parts.len() == 0 {
        Seq::empty()
    } else {
        match param_of(parts.last()) {
            Some(p) => params_of(parts.drop_last()).push(p),
            None => params_of(parts.drop_last()),
        }
    }
}

/// The parameters of a comma-separated parameter list.
pub open spec fn params_spec(s: Seq<char>) -> Seq<ParamModel> {
    params_of(split(s, seq![',']))
}

/// The visibility written at the start of `s`, and what follows it.
pub open spec fn visibility_spec(s: Seq<char>) -> (Visibility, Seq<char>) {
    let v = first_word(s);
    if v == seq!['p', 'u', 'b', 'l', 'i', 'c'] {
        (Visibility::Public, skip_word(s, v))
    } else if v == seq!['p', 'r', 'i', 'v', 'a', 't', 'e'] {
        (Visibility::Private, skip_word(s, v))
    } else if v == seq!['p', 'r', 'o', 't', 'e', 'c', 't', 'e', 'd'] {
        (Visibility::Protected, skip_word(s, v))
    } else {
        (Visibility::Public, s)
    }
}

/// The parameter list at the start of `s` (after white space), if any, and
/// what follows it.
pub open spec fn params_part(s: Seq<char>) -> (Seq<ParamModel>, Seq<char>) {
    let t = trim_start(s);
    if t.len() > 0 && t[0] == '(' {
        match find(t, seq![')']) {
            Some(c) => (params_spec(t.subrange(1, c)), trim_start(t.subrange(c + 1, t.len() as int))),
            None => (Seq::empty(), s),
        }
    } else {
        (Seq::empty(), s)
    }
}

/// Number of occurrences of `c` in `s`.
pub open spec fn count_char(s: Seq<char>, c: char) -> nat
    decreases s.len(),
{
    if s.len() == 0 {
        0
    } else {
        count_char(s.drop_last(), c) + if s.last() == c {
            1nat
        } else {
            0nat
        }
    }
}

/// The text `[/template]`.
pub open spec fn end_template() -> Seq<char> {
    seq!['[', '/', 't', 'e', 'm', 'p', 'l', 'a', 't', 'e', ']']
}

/// The expression of a query: `t` without the `/` that closes the tag, and
/// without the white space before that `/`.
pub open spec fn query_expr(t: Seq<char>) -> Seq<char> {
    if t.len() > 0 && t.last() == '/' {
        trim(t.drop_last())
    } else {
        t
    }
}

/// The declaration that starts `r` (whose first `]` is at `end_open` and
/// whose header starts with the kind word `kind_word`, on line `line`), with
/// the number of characters it spans; `None` for a template without
/// `[/template]`.
#[verifier::opaque]
pub open spec fn decl_spec(r: Seq<char>, end_open: int, kind: DeclKind, kind_word: Seq<char>, line: nat) -> Option<(DeclModel, int)> {
    let header = r.subrange(1, end_open);
    let (vis, rest) = visibility_spec(skip_word(header, kind_word));
    let name = read_word(rest);
    let (params, after) = params_part(skip_word(rest, name));
    let body_and_len: Option<(Seq<char>, int)> = match kind {
        DeclKind::Template => match find(r.subrange(end_open + 1, r.len() as int), end_template()) {
            Some(idx) => Some((r.subrange(end_open + 1, end_open + 1 + idx), end_open + 1 + idx + 11)),
            None => None,
        },
        DeclKind::Query => match find(after, seq!['=']) {
            Some(eq) => Some((query_expr(trim(after.subrange(eq + 1, after.len() as int))), end_open + 1)),
            None => Some((query_expr(trim(after)), end_open + 1)),
        },
    };
    match body_and_len {
        Some((body, consumed)) => Some((
            DeclModel {
                kind,
                name,
                visibility: vis,
                params,
                body,
                line,
            },
            consumed,
        )),
        None => None,
    }
}

/// The text `template`.
pub open spec fn template_word() -> Seq<char> {
    seq!['t', 'e', 'm', 'p', 'l', 'a', 't', 'e']
}

/// The text `query`.
pub open spec fn query_word() -> Seq<char> {
    seq!['q', 'u', 'e', 'r', 'y']
}

/// The declarations of `s`, scanning its tags left to right; `None` when a
/// template has no `[/template]`. Each declaration records the one-based
/// line of its header.
pub open spec fn parse_spec(s: Seq<char>) -> Option<Seq<DeclModel>> {
    parse_spec_from(s, 0)
}

/// The declarations of `s`, where `s` follows `base` line feeds of the
/// whole text.
pub open spec fn parse_spec_from(s: Seq<char>, base: nat) -> Option<Seq<DeclModel>>
    decreases s.len(),
{
    match find(s, seq!['[']) {
        None => Some(Seq::empty()),
        Some(pos) => {
            proof {
                lemma_find(s, seq!['[']);
            }
            let r = s.subrange(pos, s.len() as int);
            match find(r, seq![']']) {
                None => Some(Seq::empty()),
                Some(end) => {
                    proof {
                        lemma_find(r, seq![']']);
                    }
                    let first = first_word(r.subrange(1, end));
                    if first == template_word() || first == query_word() {
                        let kind = if first == template_word() {
                            DeclKind::Template
                        } else {
                            DeclKind::Query
                        };
                        let at_line = base + count_char(s.subrange(0, pos), '\n');
                        match decl_spec(r, end, kind, first, at_line + 1) {
                            None => None,
                            Some((d, consumed)) => {
                                if 0 < consumed <= r.len() {
                                    match parse_spec_from(
                                        r.subrange(consumed, r.len() as int),
                                        at_line + count_char(r.subrange(0, consumed), '\n'),
                                    ) {
                                        Some(ds) => Some(seq![d] + ds),
                                        None => None,
                                    }
                                } else {
                                    None
                                }
                            },
                        }
                    } else {
                        parse_spec_from(
                            r.subrange(end + 1, r.len() as int),
                            base + count_char(s.subrange(0, pos + end + 1), '\n'),
                        )
                    }
                },
            }
        },
    }
}

/// A name is no longer than the text it starts.
pub proof fn lemma_name_len_bound(s: Seq<char>)
    ensures
        name_len(s) <= s.len(),
    decreases s.len(),
{
    if s.len() > 0 && !is_ws(s[0]) && s[0] != '(' {
        lemma_name_len_bound(s.drop_first());
    }
}

/// `name_len` counts exactly the characters before position `k`.
pub proof fn lemma_name_len_at(s: Seq<char>, k: int)
    requires
        0 <= k <= s.len(),
        forall|j: int| 0 <= j < k ==> !is_ws(#[trigger] s[j]) && s[j] != '(',
        k == s.len() || is_ws(s[k]) || s[k] == '(',
    ensures
        name_len(s) == k,
    decreases k,
{
    if k > 0 {
        let t = s.drop_first();
        assert forall|j: int| 0 <= j < k - 1 implies !is_ws(#[trigger] t[j]) && t[j] != '(' by {
            assert(t[j] == s[j + 1]);
        }
        lemma_name_len_at(t, k - 1);
    }
}

/// The first name of `s` after its leading white space (computed).
fn read_name(s: &[char]) -> (r: Vec<char>)
    ensures
        r@ == read_word(s@),
{
    let n = s.len();
    let mut a: usize = 0;
    while a < n && is_whitespace(s[a])
        invariant
            n == s@.len(),
            a <= n,
            forall|j: int| 0 <= j < a ==> is_ws(s@[j]),
        decreases n - a,
    {
        a += 1;
    }
    proof {
        lemma_trim_start_at(s@, a as int);
    }
    let mut b = a;
    while b < n && !is_whitespace(s[b]) && s[b] != '('
        invariant
            n == s@.len(),
            a <= b <= n,
            forall|j: int| a <= j < b ==> !is_ws(#[trigger] s@[j]) && s@[j] != '(',
        decreases n - b,
    {
        b += 1;
    }
    let ghost t = s@.subrange(a as int, n as int);
    proof {
        assert forall|j: int| 0 <= j < b - a implies !is_ws(#[trigger] t[j]) && t[j] != '(' by {
            assert(t[j] == s@[a + j]);
        }
        if b < n {
            assert(t[b - a] == s@[b as int]);
        }
        lemma_name_len_at(t, b - a);
        assert(t.subrange(0, b - a) == s@.subrange(a as int, b as int));
    }
    slice_chars(s, a, b)
}

/// `s` after its leading white space and, when the first name there is
/// `word`, after that name too (computed).
fn skip_name(s: &[char], word: &[char]) -> (r: Vec<char>)
    ensures
        r@ == skip_word(s@, word@),
{
    let t = trim_start_chars(s);
    let w = read_name(t.as_slice());
    if chars_eq(w.as_slice(), word) {
        proof {
            lemma_trim_start_suffix(t@);
            lemma_name_len_bound(trim_start(t@));
        }
        slice_chars(t.as_slice(), word.len(), t.len())
    } else {
        t
    }
}

/// The first white-space separated word of `s` (computed).
fn first_word_of(s: &[char]) -> (r: Vec<char>)
    ensures
        r@ == first_word(s@),
{
    let mut ws = words_from(s, 0);
    assert(s@.subrange(0, s@.len() as int) == s@);
    if ws.len() > 0 {
        assert(ws@.map_values(|v: Vec<char>| v@)[0] == ws@[0]@);
        ws.swap_remove(0)
    } else {
        Vec::new()
    }
}

/// The parameter written in `p`, if it has a name (computed).
fn parse_param(p: &[char]) -> (r: Option<TemplateParam>)
    ensures
        match param_of(p@) {
            Some(m) => r matches Some(x) && x@ == m,
            None => r is None,
        },
{
    let t = trim_chars(p);
    if t.len() == 0 {
        return None;
    }
    let colon: Vec<char> = vec![':'];
    assert(colon@ == seq![':']);
    assert(t@.subrange(0, t@.len() as int) == t@);
    match find_in(t.as_slice(), colon.as_slice(), 0) {
        Some(k) => {
            proof {
                lemma_find(t@, seq![':']);
            }
            let n0 = slice_chars(t.as_slice(), 0, k);
            let n = trim_chars(n0.as_slice());
            if n.len() == 0 {
                return None;
            }
            let ty0 = slice_chars(t.as_slice(), k + 1, t.len());
            let ty = trim_chars(ty0.as_slice());
            Some(TemplateParam { name: string_of(n.as_slice()), ty: string_of(ty.as_slice()) })
        },
        None => {
            let e: Vec<char> = Vec::new();
            Some(TemplateParam { name: string_of(t.as_slice()), ty: string_of(e.as_slice()) })
        },
    }
}

/// The parameters of a comma-separated parameter list (computed).
fn parse_params(s: &[char]) -> (r: Vec<TemplateParam>)
    ensures
        r@.map_values(|p: TemplateParam| p@) == params_spec(s@),
{
    let comma: Vec<char> = vec![','];
    assert(comma@ == seq![',']);
    let parts = split_chars(s, comma.as_slice());
    let ghost ps = parts@.map_values(|v: Vec<char>| v@);
    let mut out: Vec<TemplateParam> = Vec::new();
    let mut i: usize = 0;
    while i < parts.len()
        invariant
            i <= parts@.len(),
            ps == parts@.map_values(|v: Vec<char>| v@),
            ps == split(s@, seq![',']),
            out@.map_values(|p: TemplateParam| p@) == params_of(ps.take(i as int)),
        decreases parts@.len() - i,
    {
        assert(ps.take(i + 1).drop_last() == ps.take(i as int));
        assert(ps.take(i + 1).last() == parts@[i as int]@);
        match parse_param(parts[i].as_slice()) {
            Some(p) => {
                let ghost prev = out@;
                out.push(p);
                proof {
                    lemma_map_push(prev, p, |p: TemplateParam| p@);
                }
            },
            None => {},
        }
        i += 1;
    }
    assert(ps.take(parts@.len() as int) == ps);
    out
}

/// Number of line feeds in `s[..end]` (computed).
fn count_newlines(s: &[char], end: usize) -> (r: usize)
    requires
        end <= s@.len(),
    ensures
        r == count_char(s@.subrange(0, end as int), '\n'),
        r <= end,
{
    let mut cnt: usize = 0;
    let mut i: usize = 0;
    while i < end
        invariant
            i <= end <= s@.len(),
            cnt == count_char(s@.subrange(0, i as int), '\n'),
            cnt <= i,
        decreases end - i,
    {
        assert(s@.subrange(0, i + 1).drop_last() == s@.subrange(0, i as int));
        if s[i] == '\n' {
            cnt += 1;
        }
        i += 1;
    }
    cnt
}

/// Line feeds add up over a concatenation.
proof fn lemma_count_char_concat(a: Seq<char>, b: Seq<char>, c: char)
    ensures
        count_char(a + b, c) == count_char(a, c) + count_char(b, c),
    decreases b.len(),
{
    if b.len() == 0 {
        assert(a + b =~= a);
    } else {
        assert((a + b).drop_last() =~= a + b.drop_last());
        lemma_count_char_concat(a, b.drop_last(), c);
    }
}

/// Line feeds of `s[i..k]` are those of `s[i..j]` and of `s[j..k]`.
proof fn lemma_count_char_split(s: Seq<char>, i: int, j: int, k: int, c: char)
    requires
        0 <= i <= j <= k <= s.len(),
    ensures
        count_char(s.subrange(i, k), c) == count_char(s.subrange(i, j), c) + count_char(
            s.subrange(j, k),
            c,
        ),
{
    assert(s.subrange(i, k) =~= s.subrange(i, j) + s.subrange(j, k));
    lemma_count_char_concat(s.subrange(i, j), s.subrange(j, k), c);
}

/// The expression of a query tag (computed).
fn query_expr_chars(t: &[char]) -> (r: Vec<char>)
    ensures
        r@ == query_expr(t@),
{
    let n = t.len();
    if n > 0 && t[n - 1] == '/' {
        let u = slice_chars(t, 0, n - 1);
        assert(u@ == t@.drop_last());
        trim_chars(u.as_slice())
    } else {
        let r = slice_chars(t, 0, n);
        assert(r@ == t@);
        r
    }
}

/// Parse the declaration that starts `r` (first `]` at `end_open`, header
/// starting with the kind word `kind_word`), with the number of characters
/// it spans; `None` for a template without `[/template]`.
fn parse_decl(r: &[char], end_open: usize, kind: DeclKind, kind_word: &[char], line: usize) -> (res: Option<(TemplateDecl, usize)>)
    requires
        1 <= end_open < r@.len(),
        r@[0] == '[',
    ensures
        match decl_spec(r@, end_open as int, kind, kind_word@, line as nat) {
            Some((d, c)) => res matches Some((x, k)) && x@ == d && k == c && 0 < k <= r@.len(),
            None => res is None,
        },
{
    reveal(decl_spec);
    let n = r.len();
    let header = slice_chars(r, 1, end_open);
    let rest1 = skip_name(header.as_slice(), kind_word);
    let v = first_word_of(rest1.as_slice());
    let public: Vec<char> = vec!['p', 'u', 'b', 'l', 'i', 'c'];
    let private: Vec<char> = vec!['p', 'r', 'i', 'v', 'a', 't', 'e'];
    let protected: Vec<char> = vec!['p', 'r', 'o', 't', 'e', 'c', 't', 'e', 'd'];
    assert(public@ == seq!['p', 'u', 'b', 'l', 'i', 'c']);
    assert(private@ == seq!['p', 'r', 'i', 'v', 'a', 't', 'e']);
    assert(protected@ == seq!['p', 'r', 'o', 't', 'e', 'c', 't', 'e', 'd']);
    let (visibility, rest2) = if chars_eq(v.as_slice(), public.as_slice()) {
        (Visibility::Public, skip_name(rest1.as_slice(), v.as_slice()))
    } else if chars_eq(v.as_slice(), private.as_slice()) {
        (Visibility::Private, skip_name(rest1.as_slice(), v.as_slice()))
    } else if chars_eq(v.as_slice(), protected.as_slice()) {
        (Visibility::Protected, skip_name(rest1.as_slice(), v.as_slice()))
    } else {
        (Visibility::Public, rest1)
    };
    assert((visibility, rest2@) == visibility_spec(skip_word(header@, kind_word@)));
    let name = read_name(rest2.as_slice());
    let rest3 = skip_name(rest2.as_slice(), name.as_slice());
    let t = trim_start_chars(rest3.as_slice());
    let close_paren: Vec<char> = vec![')'];
    assert(close_paren@ == seq![')']);
    let mut params: Vec<TemplateParam> = Vec::new();
    let mut after = rest3;
    if t.len() > 0 && t[0] == '(' {
        assert(t@.subrange(0, t@.len() as int) == t@);
        match find_in(t.as_slice(), close_paren.as_slice(), 0) {
            Some(c) => {
                proof {
                    lemma_find(t@, seq![')']);
                }
                let inside = slice_chars(t.as_slice(), 1, c);
                params = parse_params(inside.as_slice());
                let tail = slice_chars(t.as_slice(), c + 1, t.len());
                after = trim_start_chars(tail.as_slice());
            },
            None => {},
        }
    }
    assert((params@.map_values(|p: TemplateParam| p@), after@) == params_part(rest3@));
    let body: Vec<char>;
    let consumed: usize;
    match kind {
        DeclKind::Template => {
            let marker: Vec<char> = vec!['[', '/', 't', 'e', 'm', 'p', 'l', 'a', 't', 'e', ']'];
            assert(marker@ == end_template());
            match find_in(r, marker.as_slice(), end_open + 1) {
                Some(idx) => {
                    proof {
                        lemma_find(r@.subrange(end_open + 1, n as int), end_template());
                    }
                    body = slice_chars(r, end_open + 1, end_open + 1 + idx);
                    consumed = end_open + 1 + idx + 11;
                },
                None => {
                    return None;
                },
            }
        },
        DeclKind::Query => {
            let eq_sign: Vec<char> = vec!['='];
            assert(eq_sign@ == seq!['=']);
            assert(after@.subrange(0, after@.len() as int) == after@);
            match find_in(after.as_slice(), eq_sign.as_slice(), 0) {
                Some(e) => {
                    proof {
                        lemma_find(after@, seq!['=']);
                    }
                    let al = after.len();
                    assert(e + 1 <= al);
                    let expr = slice_chars(after.as_slice(), e + 1, al);
                    let t = trim_chars(expr.as_slice());
                    body = query_expr_chars(t.as_slice());
                },
                None => {
                    let t = trim_chars(after.as_slice());
                    body = query_expr_chars(t.as_slice());
                },
            }
            consumed = end_open + 1;
        },
    }
    let decl = TemplateDecl {
        kind,
        name: string_of(name.as_slice()),
        visibility,
        params,
        body: string_of(body.as_slice()),
        line,
    };
    Some((decl, consumed))
}

/// Combine the declarations already found with the outcome of the rest.
pub open spec fn then_decls(found: Seq<DeclModel>, rest: Option<Seq<DeclModel>>) -> Option<Seq<DeclModel>> {
    match rest {
        Some(ds) => Some(found + ds),
        None => None,
    }
}

/// Parse template source text into a [`TemplateFile`]: every `[template
/// ...]...[/template]` and `[query .../]` declaration, in order; the one
/// error is a template without its `[/template]`.
pub fn parse_templates(src: &str) -> (r: Result<TemplateFile, TemplateParseError>)
    ensures
        match parse_spec(src@) {
            Some(ds) => r matches Ok(f) && f@ == ds,
            None => r matches Err(e) && e.line == 1 && e.message@ == "missing closing [/template]"@,
        },
{
    let s = chars_of(src);
    let n = s.len();
    let open: Vec<char> = vec!['['];
    let close: Vec<char> = vec![']'];
    let template: Vec<char> = vec!['t', 'e', 'm', 'p', 'l', 'a', 't', 'e'];
    let query: Vec<char> = vec!['q', 'u', 'e', 'r', 'y'];
    assert(open@ == seq!['[']);
    assert(close@ == seq![']']);
    assert(template@ == template_word());
    assert(query@ == query_word());
    let mut file = TemplateFile::default();
    let mut start: usize = 0;
    assert(s@.subrange(0, n as int) == s@);
    assert(then_decls(file@, parse_spec(s@)) == parse_spec(s@)) by {
        assert(file@ + Seq::<DeclModel>::empty() == Seq::<DeclModel>::empty());
        match parse_spec(s@) {
            Some(ds) => {
                assert(file@ + ds =~= ds);
            },
            None => {},
        }
    }
    loop
        invariant
            n == s@.len(),
            s@ == src@,
            start <= n,
            open@ == seq!['['],
            close@ == seq![']'],
            template@ == template_word(),
            query@ == query_word(),
            then_decls(
                file@,
                parse_spec_from(
                    s@.subrange(start as int, n as int),
                    count_char(s@.subrange(0, start as int), '\n'),
                ),
            ) == parse_spec(src@),
        decreases n - start,
    {
        let ghost rest = s@.subrange(start as int, n as int);
        let ghost found = file@;
        let ghost base = count_char(s@.subrange(0, start as int), '\n');
        match find_in(s.as_slice(), open.as_slice(), start) {
            None => {
                assert(found + Seq::<DeclModel>::empty() =~= found);
                return Ok(file);
            },
            Some(pos) => {
                proof {
                    lemma_find(rest, seq!['[']);
                }
                let at = start + pos;
                let ghost r = rest.subrange(pos as int, rest.len() as int);
                assert(r == s@.subrange(at as int, n as int));
                match find_in(s.as_slice(), close.as_slice(), at) {
                    None => {
                        assert(found + Seq::<DeclModel>::empty() =~= found);
                        return Ok(file);
                    },
                    Some(end) => {
                        proof {
                            lemma_find(r, seq![']']);
                        }
                        assert(r[0] == '[') by {
                            assert(rest.subrange(pos as int, pos + 1) == seq!['[']);
                            assert(rest.subrange(pos as int, pos + 1)[0] == r[0]);
                        }
                        assert(end >= 1) by {
                            assert(r.subrange(end as int, end + 1) == seq![']']);
                            assert(r.subrange(end as int, end + 1)[0] == r[end as int]);
                        }
                        assert(at + end <= n);
                        let header = slice_chars(s.as_slice(), at + 1, at + end);
                        assert(header@ == r.subrange(1, end as int));
                        let first = first_word_of(header.as_slice());
                        let is_template = chars_eq(first.as_slice(), template.as_slice());
                        let is_query = chars_eq(first.as_slice(), query.as_slice());
                        if is_template || is_query {
                            let kind = if is_template {
                                DeclKind::Template
                            } else {
                                DeclKind::Query
                            };
                            let rv = slice_chars(s.as_slice(), at, n);
                            let at_line = count_newlines(s.as_slice(), at);
                            proof {
                                lemma_count_char_split(s@, 0, start as int, at as int, '\n');
                                assert(rest.subrange(0, pos as int) == s@.subrange(
                                    start as int,
                                    at as int,
                                ));
                            }
                            match parse_decl(rv.as_slice(), end, kind, first.as_slice(), at_line + 1) {
                                None => {
                                    proof {
                                        reveal_strlit("missing closing [/template]");
                                    }
                                    return Err(
                                        TemplateParseError {
                                            line: 1,
                                            message: "missing closing [/template]".to_owned(),
                                        },
                                    );
                                },
                                Some((decl, consumed)) => {
                                    let ghost d = decl@;
                                    file.push(decl);
                                    proof {
                                        assert(r.subrange(consumed as int, r.len() as int)
                                            == s@.subrange(at + consumed, n as int));
                                        lemma_count_char_split(
                                            s@,
                                            0,
                                            at as int,
                                            at + consumed,
                                            '\n',
                                        );
                                        assert(r.subrange(0, consumed as int) == s@.subrange(
                                            at as int,
                                            at + consumed,
                                        ));
                                        match parse_spec_from(
                                            r.subrange(consumed as int, r.len() as int),
                                            at_line as nat + count_char(r.subrange(0, consumed as int), '\n'),
                                        ) {
                                            Some(ds) => {
                                                assert(found.push(d) + ds =~= found + (seq![d] + ds));
                                            },
                                            None => {},
                                        }
                                    }
                                    start = at + consumed;
                                },
                            }
                        } else {
                            assert(r.subrange(end + 1, r.len() as int) == s@.subrange(
                                at + end + 1,
                                n as int,
                            ));
                            proof {
                                lemma_count_char_split(
                                    s@,
                                    0,
                                    start as int,
                                    at + end + 1,
                                    '\n',
                                );
                                assert(rest.subrange(0, pos + end + 1) == s@.subrange(
                                    start as int,
                                    at + end + 1,
                                ));
                            }
                            start = at + end + 1;
                        }
                    },
                }
            },
        }
    }
}

/// Only the words `private` and `protected` make a declaration non-public: a
/// header whose first word after the kind is anything else (`public`, a name,
/// nothing) is public, and the rest of the header is kept from that word on.
pub proof fn lemma_visibility_default_public(s: Seq<char>)
    ensures
        (visibility_spec(s).0 != Visibility::Public) == (first_word(s) == seq!['p', 'r', 'i', 'v', 'a', 't', 'e']
            || first_word(s) == seq!['p', 'r', 'o', 't', 'e', 'c', 't', 'e', 'd']),
        first_word(s) == seq!['p', 'r', 'i', 'v', 'a', 't', 'e'] ==> visibility_spec(s).0 == Visibility::Private,
        first_word(s) == seq!['p', 'r', 'o', 't', 'e', 'c', 't', 'e', 'd'] ==> visibility_spec(s).0 == Visibility::Protected,
{
}

/// A parsed declaration is public unless the word after its kind word is
/// `private` or `protected`.
pub proof fn lemma_decl_visibility(r: Seq<char>, end_open: int, kind: DeclKind, kind_word: Seq<char>, line: nat)
    ensures
        decl_spec(r, end_open, kind, kind_word, line) matches Some((d, _)) ==> {
            let w = first_word(skip_word(r.subrange(1, end_open), kind_word));
            (d.visibility != Visibility::Public) == (w == seq!['p', 'r', 'i', 'v', 'a', 't', 'e'] || w
                == seq!['p', 'r', 'o', 't', 'e', 'c', 't', 'e', 'd'])
        },
{
    reveal(decl_spec);
    lemma_visibility_default_public(skip_word(r.subrange(1, end_open), kind_word));
}

} // verus!
