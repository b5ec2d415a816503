//! Model-to-text rendering: a template body is copied through with its tags
//! interpreted against a [`ValueContext`]:
//!
//! - `[$name/]` is replaced by the text bound to `name` (nothing if unbound);
//! - `[if $cond]...[else/]...[/if]` keeps the first part when `cond` is bound
//!   to a non-empty text (a condition that is not a `$` reference is true
//!   when non-empty), the `[else/]` part otherwise;
//! - `[for $it : $list]...[/for]` renders its body once per white-space
//!   separated word of `list`, with `it` bound to that word.
//!
//! Anything that is not recognized is copied through verbatim.
use vstd::prelude::*;
use crate::text::{
    chars_eq, chars_of, find, find_in, lemma_find, matches_at, occurs_at, slice_chars, split,
    split_chars, string_of, trim, trim_chars, words, words_from, is_ws, trim_start, trim_end,
};
use crate::emf_acceleo::template::{
    bound_text, entries, find_decl, substitute_spec, strip_spec, strip_comments, substitute,
    DeclKind, DeclModel, TemplateDecl, TemplateFile, ValueContext,
};

verus! {

/// An error raised while rendering a template.
#[derive(Debug, Clone, PartialEq, Eq)]
pub struct M2tError {
    /// Human-readable message.
    pub message: String,
}

impl M2tError {
    /// An error carrying `msg`.
    fn new(msg: String) -> (r: Self)
        ensures
            r.message@ == msg@,
    {
        M2tError { message: msg }
    }

    /// The display text: the message.
    pub fn to_string(&self) -> (r: String)
        ensures
            r@ == self.message@,
    {
        self.message.clone()
    }
}

/// Outcome of rendering a piece of template text: the text produced, an
/// error message, or `Stuck` where rendering does not come back (a
/// `[for ...]` without its `[/for]`).
pub enum Rendered {
    /// Rendered text.
    Text(Seq<char>),
    /// Rendering failed with this message.
    Failed(Seq<char>),
    /// Rendering does not come back.
    Stuck,
}

/// `a`, then `b`: their texts joined, or the first failure.
pub open spec fn then_render(a: Rendered, b: Rendered) -> Rendered {
    match a {
        Rendered::Text(x) => match b {
            Rendered::Text(y) => Rendered::Text(x + y),
            other => other,
        },
        other => other,
    }
}

/// `s` without its leading `c` characters (`str::trim_start_matches`).
pub open spec fn strip_leading(s: Seq<char>, c: char) -> Seq<char>
    decreases s.len(),
{
    if s.len() > 0 && s[0] == c {
        strip_leading(s.drop_first(), c)
    } else {
        s
    }
}

/// `s` without its trailing `c` characters (`str::trim_end_matches`).
pub open spec fn strip_trailing(s: Seq<char>, c: char) -> Seq<char>
    decreases s.len(),
{
    if s.len() > 0 && s.last() == c {
        strip_trailing(s.drop_last(), c)
    } else {
        s
    }
}

/// Whether an `[if ...]` condition holds: a `$name` condition when `name`
/// is bound to a non-empty text, any other condition when non-empty.
pub open spec fn truthy(cond: Seq<char>, ctx: Map<Seq<char>, Seq<char>>) -> bool {
    let c = trim(cond);
    if c.len() > 0 && c[0] == '$' {
        let k = trim(c.drop_first());
        ctx.contains_key(k) && ctx[k].len() > 0
    } else {
        c.len() > 0
    }
}

/// The text `[/if]`.
pub open spec fn end_if() -> Seq<char> {
    seq!['[', '/', 'i', 'f', ']']
}

/// The text `[else`.
pub open spec fn else_tag() -> Seq<char> {
    seq!['[', 'e', 'l', 's', 'e']
}

/// The text `[/for]`.
pub open spec fn end_for() -> Seq<char> {
    seq!['[', '/', 'f', 'o', 'r', ']']
}

/// The text after the `[/if]` that closes the tag ending at `close` in `r`.
pub open spec fn if_rest(r: Seq<char>, close: int) -> Option<Seq<char>> {
    let body_src = r.subrange(close + 1, r.len() as int);
    match find(body_src, end_if()) {
        Some(e) => Some(body_src.subrange(e + 5, body_src.len() as int)),
        None => None,
    }
}

/// The text after the `[/for]` that closes the tag ending at `close` in
/// `r`.
pub open spec fn for_rest(r: Seq<char>, close: int) -> Option<Seq<char>> {
    let body_src = r.subrange(close + 1, r.len() as int);
    match find(body_src, end_for()) {
        Some(e) => Some(body_src.subrange(e + 6, body_src.len() as int)),
        None => None,
    }
}

/// The loop variable and list name of a `[for item : list]` header.
pub open spec fn for_names(header: Seq<char>) -> (Seq<char>, Seq<char>) {
    let parts = split(trim(header), seq![':']);
    let item = strip_leading(trim(parts[0]), '$');
    let list = if parts.len() > 1 {
        strip_leading(trim(parts[1]), '$')
    } else {
        Seq::empty()
    };
    (item, list)
}

/// Rendering of the template text `s` against the bindings `ctx`.
pub open spec fn block_spec(s: Seq<char>, ctx: Map<Seq<char>, Seq<char>>) -> Rendered
    decreases s.len(), 2int,
{
    match find(s, seq!['[']) {
        None => Rendered::Text(s),
        Some(pos) => {
            proof {
                lemma_find(s, seq!['[']);
            }
            let pre = s.subrange(0, pos);
            let r = s.subrange(pos, s.len() as int);
            match find(r, seq![']']) {
                None => Rendered::Text(s),
                Some(close) => {
                    proof {
                        lemma_find(r, seq![']']);
                    }
                    let tag = r.subrange(0, close + 1);
                    let inner = trim(r.subrange(1, close));
                    let after = r.subrange(close + 1, r.len() as int);
                    if matches_at(inner, seq!['i', 'f', ' '], 0) {
                        match if_rest(r, close) {
                            None => then_render(
                                Rendered::Text(pre),
                                if_spec(inner.subrange(3, inner.len() as int), r, close, ctx),
                            ),
                            Some(rest) => {
                                proof {
                                    lemma_find(r.subrange(close + 1, r.len() as int), end_if());
                                }
                                then_render(
                                    Rendered::Text(pre),
                                    then_render(
                                        if_spec(inner.subrange(3, inner.len() as int), r, close, ctx),
                                        block_spec(rest, ctx),
                                    ),
                                )
                            },
                        }
                    } else if matches_at(inner, seq!['f', 'o', 'r', ' '], 0) {
                        match for_rest(r, close) {
                            None => Rendered::Stuck,
                            Some(rest) => {
                                proof {
                                    lemma_find(r.subrange(close + 1, r.len() as int), end_for());
                                }
                                then_render(
                                    Rendered::Text(pre),
                                    then_render(
                                        for_spec(inner.subrange(4, inner.len() as int), r, close, ctx),
                                        block_spec(rest, ctx),
                                    ),
                                )
                            },
                        }
                    } else if inner == seq!['e', 'l', 's', 'e'] || inner == seq!['/', 'i', 'f']
                        || inner == seq!['/', 'f', 'o', 'r'] {
                        then_render(Rendered::Text(pre + tag), block_spec(after, ctx))
                    } else {
                        let t = strip_trailing(inner, '/');
                        let piece = if t.len() > 0 && t[0] == '$' {
                            bound_text(ctx, trim(t.drop_first()))
                        } else {
                            substitute_spec(tag, ctx)
                        };
                        then_render(Rendered::Text(pre + piece), block_spec(after, ctx))
                    }
                },
            }
        },
    }
}

/// Rendering of the branch that an `[if cond]` tag (ending at `close` in
/// `r`) selects.
pub open spec fn if_spec(cond: Seq<char>, r: Seq<char>, close: int, ctx: Map<Seq<char>, Seq<char>>) -> Rendered
    decreases r.len(), 1int,
{
    if 0 <= close < r.len() {
        let body_src = r.subrange(close + 1, r.len() as int);
        match find(body_src, end_if()) {
            None => Rendered::Failed("missing `[/if]`"@),
            Some(endif) => {
                proof {
                    lemma_find(body_src, end_if());
                }
                let region = body_src.subrange(0, endif);
                let (then_end, else_start) = match find(region, else_tag()) {
                    Some(e) => {
                        proof {
                            lemma_find(region, else_tag());
                        }
                        (
                            e,
                            match find(body_src.subrange(e, endif), seq![']']) {
                                Some(m) => {
                                    proof {
                                        lemma_find(body_src.subrange(e, endif), seq![']']);
                                    }
                                    e + m + 1
                                },
                                None => endif,
                            },
                        )
                    },
                    None => (endif, endif),
                };
                if truthy(cond, ctx) {
                    block_spec(body_src.subrange(0, then_end), ctx)
                } else {
                    block_spec(body_src.subrange(else_start, endif), ctx)
                }
            },
        }
    } else {
        Rendered::Stuck
    }
}

/// Rendering of a `[for header]` tag ending at `close` in `r`: its body
/// once per word of the list, nothing when the list is unbound.
pub open spec fn for_spec(header: Seq<char>, r: Seq<char>, close: int, ctx: Map<Seq<char>, Seq<char>>) -> Rendered
    decreases r.len(), 1int,
{
    if 0 <= close < r.len() {
        let body_src = r.subrange(close + 1, r.len() as int);
        match find(body_src, end_for()) {
            None => Rendered::Stuck,
            Some(end) => {
                proof {
                    lemma_find(body_src, end_for());
                }
                let (item, list) = for_names(header);
                if ctx.contains_key(list) {
                    items_spec(body_src.subrange(0, end), ctx, item, words(ctx[list]))
                } else {
                    Rendered::Text(Seq::empty())
                }
            },
        }
    } else {
        Rendered::Stuck
    }
}

/// `body` rendered once per value, with `item` bound to it, joined.
pub open spec fn items_spec(body: Seq<char>, ctx: Map<Seq<char>, Seq<char>>, item: Seq<char>, values: Seq<Seq<char>>) -> Rendered
    decreases body.len(), values.len() + 3,
{
    if values.len() == 0 {
        Rendered::Text(Seq::empty())
    } else {
        then_render(
            block_spec(body, ctx.insert(item, values[0])),
            items_spec(body, ctx, item, values.drop_first()),
        )
    }
}

/// Text joined before a rendering can be joined in two steps.
pub proof fn lemma_then_text(a: Seq<char>, b: Seq<char>, x: Rendered)
    ensures
        then_render(Rendered::Text(a), then_render(Rendered::Text(b), x)) == then_render(
            Rendered::Text(a + b),
            x,
        ),
{
    match x {
        Rendered::Text(y) => {
            assert(a + (b + y) =~= (a + b) + y);
        },
        _ => {},
    }
}

/// `strip_leading` drops exactly the `c` characters before position `k`.
proof fn lemma_strip_leading_at(s: Seq<char>, c: char, k: int)
    requires
        0 <= k <= s.len(),
        forall|j: int| 0 <= j < k ==> s[j] == c,
        k == s.len() || s[k] != c,
    ensures
        strip_leading(s, c) == s.subrange(k, s.len() as int),
    decreases k,
{
    if k == 0 {
        assert(s.subrange(0, s.len() as int) == s);
    } else {
        let t = s.drop_first();
        assert forall|j: int| 0 <= j < k - 1 implies t[j] == c by {
            assert(t[j] == s[j + 1]);
        }
        lemma_strip_leading_at(t, c, k - 1);
        assert(t.subrange(k - 1, t.len() as int) == s.subrange(k, s.len() as int));
    }
}

/// `strip_trailing` drops exactly the `c` characters from position `k` on.
proof fn lemma_strip_trailing_at(s: Seq<char>, c: char, k: int)
    requires
        0 <= k <= s.len(),
        forall|j: int| k <= j < s.len() ==> s[j] == c,
        k == 0 || s[k - 1] != c,
    ensures
        strip_trailing(s, c) == s.subrange(0, k),
    decreases s.len() - k,
{
    if k == s.len() {
        assert(s.subrange(0, k) == s);
    } else {
        lemma_strip_trailing_at(s.drop_last(), c, k);
        assert(s.drop_last().subrange(0, k) == s.subrange(0, k));
    }
}

/// `s` without its leading `c` characters (computed).
fn strip_leading_chars(s: &[char], c: char) -> (r: Vec<char>)
    ensures
        r@ == strip_leading(s@, c),
{
    let mut k: usize = 0;
    while k < s.len() && s[k] == c
        invariant
            k <= s@.len(),
            forall|j: int| 0 <= j < k ==> s@[j] == c,
        decreases s@.len() - k,
    {
        k += 1;
    }
    proof {
        lemma_strip_leading_at(s@, c, k as int);
    }
    slice_chars(s, k, s.len())
}

/// `s` without its trailing `c` characters (computed).
fn strip_trailing_chars(s: &[char], c: char) -> (r: Vec<char>)
    ensures
        r@ == strip_trailing(s@, c),
{
    let mut k: usize = s.len();
    while k > 0 && s[k - 1] == c
        invariant
            k <= s@.len(),
            forall|j: int| k <= j < s@.len() ==> s@[j] == c,
        decreases k,
    {
        k -= 1;
    }
    proof {
        lemma_strip_trailing_at(s@, c, k as int);
    }
    slice_chars(s, 0, k)
}

/// Whether an `[if ...]` condition holds (computed).
fn condition_holds(cond: &[char], ctx: &ValueContext) -> (r: bool)
    ensures
        r == truthy(cond@, ctx@),
{
    let c = trim_chars(cond);
    if c.len() > 0 && c[0] == '$' {
        let k0 = slice_chars(c.as_slice(), 1, c.len());
        assert(k0@ == c@.drop_first());
        let k = trim_chars(k0.as_slice());
        let key = string_of(k.as_slice());
        match ctx.get(key.as_str()) {
            Some(v) => chars_of(v).len() > 0,
            None => false,
        }
    } else {
        c.len() > 0
    }
}

/// Render the branch an `[if cond]` tag (ending at `close` in `r`) selects,
/// returning it with the text after the closing `[/if]`.
#[verifier::spinoff_prover]
#[verifier::rlimit(30)]
fn render_if(cond: &[char], r: &[char], close: usize, ctx: &ValueContext) -> (res: Result<(Vec<char>, Vec<char>), M2tError>)
    requires
        close < r@.len(),
        !(if_spec(cond@, r@, close as int, ctx@) is Stuck),
    ensures
        match if_spec(cond@, r@, close as int, ctx@) {
            Rendered::Text(t) => res matches Ok((piece, rest)) && piece@ == t && if_rest(r@, close as int)
                == Some(rest@),
            Rendered::Failed(m) => res matches Err(e) && e.message@ == m,
            Rendered::Stuck => false,
        },
    decreases r@.len(), 1int,
{
    let n = r.len();
    let ghost body_src = r@.subrange(close + 1, n as int);
    let endif_pat: Vec<char> = vec!['[', '/', 'i', 'f', ']'];
    let else_pat: Vec<char> = vec!['[', 'e', 'l', 's', 'e'];
    let close_pat: Vec<char> = vec![']'];
    assert(endif_pat@ == end_if());
    assert(else_pat@ == else_tag());
    assert(close_pat@ == seq![']']);
    match find_in(r, endif_pat.as_slice(), close + 1) {
        None => {
            proof {
                reveal_strlit("missing `[/if]`");
            }
            Err(M2tError::new("missing `[/if]`".to_owned()))
        },
        Some(endif) => {
            proof {
                lemma_find(body_src, end_if());
            }
            let b0 = close + 1;
            let region = slice_chars(r, b0, b0 + endif);
            assert(region@ == body_src.subrange(0, endif as int));
            let then_end: usize;
            let else_start: usize;
            assert(region@.subrange(0, region@.len() as int) == region@);
            match find_in(region.as_slice(), else_pat.as_slice(), 0) {
                Some(e) => {
                    proof {
                        lemma_find(region@, else_tag());
                    }
                    then_end = e;
                    assert(region@.subrange(e as int, endif as int) == body_src.subrange(
                        e as int,
                        endif as int,
                    ));
                    match find_in(region.as_slice(), close_pat.as_slice(), e) {
                        Some(m) => {
                            proof {
                                lemma_find(body_src.subrange(e as int, endif as int), seq![']']);
                            }
                            else_start = e + m + 1;
                        },
                        None => {
                            else_start = endif;
                        },
                    }
                },
                None => {
                    then_end = endif;
                    else_start = endif;
                },
            }
            let holds = condition_holds(cond, ctx);
            let text = if holds {
                slice_chars(r, b0, b0 + then_end)
            } else {
                slice_chars(r, b0 + else_start, b0 + endif)
            };
            assert(holds ==> text@ == body_src.subrange(0, then_end as int));
            assert(!holds ==> text@ == body_src.subrange(else_start as int, endif as int));
            let rest = slice_chars(r, b0 + endif + 5, n);
            assert(rest@ == body_src.subrange(endif + 5, body_src.len() as int));
            match render_block(text.as_slice(), ctx) {
                Ok(piece) => Ok((piece, rest)),
                Err(e) => Err(e),
            }
        },
    }
}

/// Render a `[for header]` tag ending at `close` in `r`, returning the
/// output with the text after the closing `[/for]`.
fn render_for(header: &[char], r: &[char], close: usize, ctx: &ValueContext) -> (res: Result<(Vec<char>, Vec<char>), M2tError>)
    requires
        close < r@.len(),
        !(for_spec(header@, r@, close as int, ctx@) is Stuck),
    ensures
        match for_spec(header@, r@, close as int, ctx@) {
            Rendered::Text(t) => res matches Ok((piece, rest)) && piece@ == t && for_rest(r@, close as int)
                == Some(rest@),
            Rendered::Failed(m) => res matches Err(e) && e.message@ == m,
            Rendered::Stuck => false,
        },
    decreases r@.len(), 1int,
{
    let n = r.len();
    let ghost body_src = r@.subrange(close + 1, n as int);
    let endfor_pat: Vec<char> = vec!['[', '/', 'f', 'o', 'r', ']'];
    assert(endfor_pat@ == end_for());
    let end = match find_in(r, endfor_pat.as_slice(), close + 1) {
        Some(e) => e,
        None => {
            return Err(M2tError::new(String::new()));
        },
    };
    proof {
        lemma_find(body_src, end_for());
    }
    let b0 = close + 1;
    let body = slice_chars(r, b0, b0 + end);
    let rest = slice_chars(r, b0 + end + 6, n);
    assert(body@ == body_src.subrange(0, end as int));
    assert(rest@ == body_src.subrange(end + 6, body_src.len() as int));
    let colon: Vec<char> = vec![':'];
    assert(colon@ == seq![':']);
    let h = trim_chars(header);
    let parts = split_chars(h.as_slice(), colon.as_slice());
    let ghost ps = parts@.map_values(|v: Vec<char>| v@);
    assert(ps.len() > 0) by {
        assert(split(h@, seq![':']).len() > 0) by {
            crate::text::lemma_split_nonempty(h@, seq![':']);
        }
    }
    assert(ps[0] == parts@[0]@);
    let item0 = trim_chars(parts[0].as_slice());
    let item = strip_leading_chars(item0.as_slice(), '$');
    let list = if parts.len() > 1 {
        assert(ps[1] == parts@[1]@);
        let l0 = trim_chars(parts[1].as_slice());
        strip_leading_chars(l0.as_slice(), '$')
    } else {
        Vec::new()
    };
    assert((item@, list@) == for_names(header@));
    let list_name = string_of(list.as_slice());
    let values_text = match ctx.get(list_name.as_str()) {
        None => {
            return Ok((Vec::new(), rest));
        },
        Some(v) => v,
    };
    let vc = chars_of(values_text);
    let values = words_from(vc.as_slice(), 0);
    assert(vc@.subrange(0, vc@.len() as int) == vc@);
    let ghost vs = values@.map_values(|v: Vec<char>| v@);
    assert(vs == words(ctx@[list@]));
    let item_name = string_of(item.as_slice());
    let mut out: Vec<char> = Vec::new();
    let mut i: usize = 0;
    assert(vs.subrange(0, vs.len() as int) == vs);
    assert(then_render(Rendered::Text(out@), items_spec(body@, ctx@, item@, vs)) == items_spec(
        body@,
        ctx@,
        item@,
        vs,
    )) by {
        match items_spec(body@, ctx@, item@, vs) {
            Rendered::Text(y) => {
                assert(out@ + y =~= y);
            },
            _ => {},
        }
    }
    while i < values.len()
        invariant
            i <= values@.len(),
            vs == values@.map_values(|v: Vec<char>| v@),
            item_name@ == item@,
            for_spec(header@, r@, close as int, ctx@) == items_spec(body@, ctx@, item@, vs),
            !(items_spec(body@, ctx@, item@, vs) is Stuck),
            body@.len() < r@.len(),
            then_render(
                Rendered::Text(out@),
                items_spec(body@, ctx@, item@, vs.subrange(i as int, vs.len() as int)),
            ) == items_spec(body@, ctx@, item@, vs),
        decreases values@.len() - i,
    {
        let ghost tail = vs.subrange(i as int, vs.len() as int);
        assert(tail[0] == values@[i as int]@);
        assert(tail.drop_first() == vs.subrange(i + 1, vs.len() as int));
        let mut child = ctx.clone();
        let value = string_of(values[i].as_slice());
        child.bind(item_name.as_str(), value.as_str());
        assert(child@ == ctx@.insert(item@, tail[0]));
        match render_block(body.as_slice(), &child) {
            Err(e) => {
                return Err(e);
            },
            Ok(mut piece) => {
                let ghost before = out@;
                let ghost p = piece@;
                out.append(&mut piece);
                proof {
                    lemma_then_text(before, p, items_spec(body@, ctx@, item@, tail.drop_first()));
                }
            },
        }
        i += 1;
    }
    proof {
        assert(vs.subrange(i as int, vs.len() as int).len() == 0);
        assert(out@ + Seq::<char>::empty() =~= out@);
    }
    Ok((out, rest))
}

/// Render the first tag of `rest` (with the text before it): the output
/// and the text left after it, or nothing left when `rest` has no complete
/// tag.
fn render_step(rest: &[char], ctx: &ValueContext) -> (res: Result<(Vec<char>, Option<Vec<char>>), M2tError>)
    requires
        !(block_spec(rest@, ctx@) is Stuck),
    ensures
        match res {
            Ok((piece, None)) => block_spec(rest@, ctx@) == Rendered::Text(piece@),
            Ok((piece, Some(rem))) => rem@.len() < rest@.len() && block_spec(rest@, ctx@)
                == then_render(Rendered::Text(piece@), block_spec(rem@, ctx@)),
            Err(e) => block_spec(rest@, ctx@) == Rendered::Failed(e.message@),
        },
    decreases rest@.len(), 2int,
{
    let open: Vec<char> = vec!['['];
    let close_pat: Vec<char> = vec![']'];
    assert(open@ == seq!['[']);
    assert(close_pat@ == seq![']']);
    let ghost rv = rest@;
    let n = rest.len();
    assert(rv.subrange(0, n as int) == rv);
    let pos = match find_in(rest, open.as_slice(), 0) {
        None => {
            return Ok((slice_chars(rest, 0, n), None));
        },
        Some(p) => p,
    };
    proof {
        lemma_find(rv, seq!['[']);
    }
    let pre = slice_chars(rest, 0, pos);
    let r = slice_chars(rest, pos, n);
    let rn = r.len();
    assert(r@.subrange(0, rn as int) == r@);
    let close = match find_in(r.as_slice(), close_pat.as_slice(), 0) {
        None => {
            return Ok((slice_chars(rest, 0, n), None));
        },
        Some(c) => c,
    };
    proof {
        lemma_find(r@, seq![']']);
        assert(r@[0] == '[') by {
            assert(rv.subrange(pos as int, pos + 1)[0] == r@[0]);
        }
        assert(r@.subrange(close as int, close + 1)[0] == r@[close as int]);
    }
    let inner0 = slice_chars(r.as_slice(), 1, close);
    let inner = trim_chars(inner0.as_slice());
    let tag = slice_chars(r.as_slice(), 0, close + 1);
    let after = slice_chars(r.as_slice(), close + 1, rn);
    let if_kw: Vec<char> = vec!['i', 'f', ' '];
    let for_kw: Vec<char> = vec!['f', 'o', 'r', ' '];
    assert(if_kw@ == seq!['i', 'f', ' ']);
    assert(for_kw@ == seq!['f', 'o', 'r', ' ']);
    if occurs_at(inner.as_slice(), if_kw.as_slice(), 0) {
        let cond = slice_chars(inner.as_slice(), 3, inner.len());
        let ghost ifr = if_spec(cond@, r@, close as int, ctx@);
        match render_if(cond.as_slice(), r.as_slice(), close, ctx) {
            Err(e) => Err(e),
            Ok((piece, remaining)) => {
                proof {
                    lemma_find(r@.subrange(close + 1, rn as int), end_if());
                    lemma_then_text(pre@, piece@, block_spec(remaining@, ctx@));
                }
                let mut out = pre;
                let mut p = piece;
                out.append(&mut p);
                Ok((out, Some(remaining)))
            },
        }
    } else if occurs_at(inner.as_slice(), for_kw.as_slice(), 0) {
        let header = slice_chars(inner.as_slice(), 4, inner.len());
        match render_for(header.as_slice(), r.as_slice(), close, ctx) {
            Err(e) => Err(e),
            Ok((piece, remaining)) => {
                proof {
                    lemma_find(r@.subrange(close + 1, rn as int), end_for());
                    lemma_then_text(pre@, piece@, block_spec(remaining@, ctx@));
                }
                let mut out = pre;
                let mut p = piece;
                out.append(&mut p);
                Ok((out, Some(remaining)))
            },
        }
    } else {
        let else_kw: Vec<char> = vec!['e', 'l', 's', 'e'];
        let endif_kw: Vec<char> = vec!['/', 'i', 'f'];
        let endfor_kw: Vec<char> = vec!['/', 'f', 'o', 'r'];
        assert(else_kw@ == seq!['e', 'l', 's', 'e']);
        assert(endif_kw@ == seq!['/', 'i', 'f']);
        assert(endfor_kw@ == seq!['/', 'f', 'o', 'r']);
        let mut piece: Vec<char> = if chars_eq(inner.as_slice(), else_kw.as_slice()) || chars_eq(
            inner.as_slice(),
            endif_kw.as_slice(),
        ) || chars_eq(inner.as_slice(), endfor_kw.as_slice()) {
            tag
        } else {
            let t = strip_trailing_chars(inner.as_slice(), '/');
            if t.len() > 0 && t[0] == '$' {
                let k0 = slice_chars(t.as_slice(), 1, t.len());
                assert(k0@ == t@.drop_first());
                let k = trim_chars(k0.as_slice());
                let key = string_of(k.as_slice());
                match ctx.get(key.as_str()) {
                    Some(v) => chars_of(v),
                    None => Vec::new(),
                }
            } else {
                let tag_text = string_of(tag.as_slice());
                let sub = substitute(tag_text.as_str(), ctx);
                chars_of(sub.as_str())
            }
        };
        let mut out = pre;
        out.append(&mut piece);
        Ok((out, Some(after)))
    }
}

/// Render the template text `s` against `ctx`.
fn render_block(s: &[char], ctx: &ValueContext) -> (res: Result<Vec<char>, M2tError>)
    requires
        !(block_spec(s@, ctx@) is Stuck),
    ensures
        match block_spec(s@, ctx@) {
            Rendered::Text(t) => res matches Ok(v) && v@ == t,
            Rendered::Failed(m) => res matches Err(e) && e.message@ == m,
            Rendered::Stuck => false,
        },
    decreases s@.len(), 3int,
{
    let mut out: Vec<char> = Vec::new();
    let mut rest = slice_chars(s, 0, s.len());
    assert(rest@ == s@);
    assert(then_render(Rendered::Text(out@), block_spec(s@, ctx@)) == block_spec(s@, ctx@)) by {
        match block_spec(s@, ctx@) {
            Rendered::Text(y) => {
                assert(out@ + y =~= y);
            },
            _ => {},
        }
    }
    loop
        invariant
            rest@.len() <= s@.len(),
            !(block_spec(s@, ctx@) is Stuck),
            then_render(Rendered::Text(out@), block_spec(rest@, ctx@)) == block_spec(s@, ctx@),
        decreases rest@.len(),
    {
        let ghost before = out@;
        match render_step(rest.as_slice(), ctx) {
            Err(e) => {
                return Err(e);
            },
            Ok((mut piece, None)) => {
                out.append(&mut piece);
                return Ok(out);
            },
            Ok((mut piece, Some(remaining))) => {
                proof {
                    lemma_then_text(before, piece@, block_spec(remaining@, ctx@));
                }
                out.append(&mut piece);
                rest = remaining;
            },
        }
    }
}

/// Rendering of a declaration: its body, comments stripped, rendered.
pub open spec fn template_spec(d: DeclModel, ctx: Map<Seq<char>, Seq<char>>) -> Rendered {
    block_spec(strip_spec(d.body), ctx)
}

/// Rendering of a file: its first entry point (public, without
/// parameters), or a failure when there is none.
pub open spec fn render_spec(ds: Seq<DeclModel>, ctx: Map<Seq<char>, Seq<char>>) -> Rendered {
    let es = entries(ds);
    if es.len() == 0 {
        Rendered::Failed("no public entry-point template found"@)
    } else {
        template_spec(es[0], ctx)
    }
}

/// Rendering of the declaration named `name`: it must exist and be a
/// template.
pub open spec fn render_named_spec(ds: Seq<DeclModel>, name: Seq<char>, ctx: Map<Seq<char>, Seq<char>>) -> Rendered {
    match find_decl(ds, name) {
        None => Rendered::Failed("unknown template `"@ + name + seq!['`']),
        Some(i) => if ds[i].kind != DeclKind::Template {
            Rendered::Failed(seq!['`'] + name + "` is not a template"@)
        } else {
            template_spec(ds[i], ctx)
        },
    }
}

/// `res` is the outcome `x` describes.
pub open spec fn rendered_as(res: Result<String, M2tError>, x: Rendered) -> bool {
    match x {
        Rendered::Text(t) => res matches Ok(v) && v@ == t,
        Rendered::Failed(m) => res matches Err(e) && e.message@ == m,
        Rendered::Stuck => false,
    }
}

/// Render one declaration's body.
fn render_template(decl: &TemplateDecl, ctx: &ValueContext) -> (res: Result<String, M2tError>)
    requires
        !(template_spec(decl@, ctx@) is Stuck),
    ensures
        rendered_as(res, template_spec(decl@, ctx@)),
{
    let body = strip_comments(decl.body.as_str());
    let cs = chars_of(body.as_str());
    match render_block(cs.as_slice(), ctx) {
        Ok(v) => Ok(string_of(v.as_slice())),
        Err(e) => Err(e),
    }
}

/// Render a template file with the given context, using its first public,
/// parameterless template as the root.
pub fn render(file: &TemplateFile, ctx: &ValueContext) -> (res: Result<String, M2tError>)
    requires
        !(render_spec(file@, ctx@) is Stuck),
    ensures
        rendered_as(res, render_spec(file@, ctx@)),
{
    let es = file.entry_points();
    if es.len() == 0 {
        proof {
            reveal_strlit("no public entry-point template found");
        }
        return Err(M2tError::new("no public entry-point template found".to_owned()));
    }
    assert(es@.map_values(|d: &TemplateDecl| d@)[0] == es@[0]@);
    render_template(es[0], ctx)
}

/// Render the template named `name`.
pub fn render_named(file: &TemplateFile, name: &str, ctx: &ValueContext) -> (res: Result<String, M2tError>)
    requires
        !(render_named_spec(file@, name@, ctx@) is Stuck),
    ensures
        rendered_as(res, render_named_spec(file@, name@, ctx@)),
{
    match file.get(name) {
        None => {
            let mut m = chars_of("unknown template `");
            let mut nm = chars_of(name);
            m.append(&mut nm);
            m.push('`');
            assert(m@ =~= "unknown template `"@ + name@ + seq!['`']);
            Err(M2tError::new(string_of(m.as_slice())))
        },
        Some(decl) => {
            match decl.kind {
                DeclKind::Template => render_template(decl, ctx),
                DeclKind::Query => {
                    let mut m: Vec<char> = vec!['`'];
                    let mut nm = chars_of(name);
                    m.append(&mut nm);
                    let mut tail = chars_of("` is not a template");
                    m.append(&mut tail);
                    assert(m@ =~= seq!['`'] + name@ + "` is not a template"@);
                    Err(M2tError::new(string_of(m.as_slice())))
                },
            }
        },
    }
}

/// A template body without tags renders as itself.
pub proof fn lemma_plain_text_renders(s: Seq<char>, ctx: Map<Seq<char>, Seq<char>>)
    requires
        !s.contains('['),
    ensures
        block_spec(s, ctx) == Rendered::Text(s),
{
    lemma_find(s, seq!['[']);
    if find(s, seq!['[']) is Some {
        let p = find(s, seq!['['])->0;
        assert(s.subrange(p, p + 1)[0] == s[p]);
    }
}

/// Text with no white space is its own trim.
proof fn lemma_trim_no_ws(s: Seq<char>)
    requires
        forall|i: int| 0 <= i < s.len() ==> !is_ws(#[trigger] s[i]),
    ensures
        trim(s) == s,
{
    assert(trim_start(s) == s);
    assert(trim_end(s) == s);
}

/// A `$name` condition (a name without white space) holds exactly when the
/// name is bound to a non-empty text: an unbound or empty variable selects
/// the `[else]` branch.
pub proof fn lemma_var_condition(name: Seq<char>, ctx: Map<Seq<char>, Seq<char>>)
    requires
        forall|i: int| 0 <= i < name.len() ==> !is_ws(#[trigger] name[i]),
    ensures
        truthy(seq!['$'] + name, ctx) == (ctx.contains_key(name) && ctx[name].len() > 0),
        !ctx.contains_key(name) ==> !truthy(seq!['$'] + name, ctx),
{
    let c = seq!['$'] + name;
    assert forall|i: int| 0 <= i < c.len() implies !is_ws(#[trigger] c[i]) by {
        if i > 0 {
            assert(c[i] == name[i - 1]);
        }
    }
    lemma_trim_no_ws(c);
    lemma_trim_no_ws(name);
    assert(c.drop_first() =~= name);
}

} // verus!
