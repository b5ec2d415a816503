//! Matching the children of two matched objects, one containment level at a
//! time: a child that carries an identifier is matched with the child of the
//! other side that has the same class and identifier; a child without one is
//! matched greedily with the first still unmatched child of its class bucket
//! (the other side's children of the same class that carry no identifier),
//! in the order of preference the caller gives (best similarity first, the
//! child at the same position first among equals). The origin pass of a
//! three-way match uses the same greedy choice over class buckets, without
//! identifiers. `match_trees` descends from two roots, matching the children
//! of each matched pair in turn.
use vstd::prelude::*;
use crate::emf_common::uri::concat;
use crate::text::{chars_eq, chars_of};

verus! {

/// The characters of each text.
pub open spec fn texts(v: Seq<String>) -> Seq<Seq<char>> {
    v.map_values(|s: String| s@)
}

/// The characters of each optional text.
pub open spec fn opt_texts(v: Seq<Option<String>>) -> Seq<Option<Seq<char>>> {
    v.map_values(
        |o: Option<String>|
            match o {
                Some(s) => Some(s@),
                None => None,
            },
    )
}

/// Each list of positions.
pub open spec fn position_lists(v: Seq<Vec<usize>>) -> Seq<Seq<usize>> {
    v.map_values(|c: Vec<usize>| c@)
}

/// The key an identified child is looked up by: its class name, the
/// character U+0001, and its identifier.
pub open spec fn id_key(class: Seq<char>, id: Seq<char>) -> Seq<char> {
    class + seq!['\u{1}'] + id
}

/// The last position below `n` of the other side whose identified child has
/// the key `key` (a later child with the same key replaces an earlier one).
pub open spec fn id_slot(
    classes: Seq<Seq<char>>,
    ids: Seq<Option<Seq<char>>>,
    key: Seq<char>,
    n: int,
) -> Option<int>
    decreases n,
{
    if n <= 0 {
        None
    } else if ids[n - 1] matches Some(x) && id_key(classes[n - 1], x) == key {
        Some(n - 1)
    } else {
        id_slot(classes, ids, key, n - 1)
    }
}

/// The first position of `c` that is a child of the other side, carries no
/// identifier, has the class `class` and is not matched yet.
pub open spec fn first_free(
    c: Seq<usize>,
    classes: Seq<Seq<char>>,
    ids: Seq<Option<Seq<char>>>,
    class: Seq<char>,
    used: Seq<bool>,
) -> Option<int>
    decreases c.len(),
{
    if c.len() == 0 {
        None
    } else {
        let j = c[0] as int;
        if j < classes.len() && ids[j] is None && classes[j] == class && !used[j] {
            Some(j)
        } else {
            first_free(c.drop_first(), classes, ids, class, used)
        }
    }
}

/// The pairs found so far and which children of the other side are matched.
pub type MatchState = (Seq<(usize, usize)>, Seq<bool>);

/// The state after matching `st` with `j` for the child `li`.
pub open spec fn take_pair(st: MatchState, li: int, j: int) -> MatchState {
    (st.0.push((li as usize, j as usize)), st.1.update(j, true))
}

/// The state after the child `li` of the left side is matched: by its
/// identifier when it has one (no match when the identified child is taken
/// or absent), else with the first free child of its bucket in its order of
/// preference (no match when there is none).
pub open spec fn match_step(
    lc: Seq<Seq<char>>,
    rc: Seq<Seq<char>>,
    lid: Seq<Option<Seq<char>>>,
    rid: Seq<Option<Seq<char>>>,
    cands: Seq<Seq<usize>>,
    st: MatchState,
    li: int,
) -> MatchState {
    match lid[li] {
        Some(id) => match id_slot(rc, rid, id_key(lc[li], id), rc.len() as int) {
            Some(j) => if !st.1[j] {
                take_pair(st, li, j)
            } else {
                st
            },
            None => st,
        },
        None => match first_free(cands[li], rc, rid, lc[li], st.1) {
            Some(j) => take_pair(st, li, j),
            None => st,
        },
    }
}

/// The state after the first `k` children of the left side are matched, in
/// order.
pub open spec fn match_upto(
    lc: Seq<Seq<char>>,
    rc: Seq<Seq<char>>,
    lid: Seq<Option<Seq<char>>>,
    rid: Seq<Option<Seq<char>>>,
    cands: Seq<Seq<usize>>,
    k: nat,
) -> MatchState
    decreases k,
{
    if k == 0 {
        (Seq::empty(), Seq::new(rc.len(), |j: int| false))
    } else {
        match_step(lc, rc, lid, rid, cands, match_upto(lc, rc, lid, rid, cands, (k - 1) as nat), k - 1)
    }
}

/// The matched pairs (left position, right position), in the order of the
/// left children.
pub open spec fn match_children_spec(
    lc: Seq<Seq<char>>,
    rc: Seq<Seq<char>>,
    lid: Seq<Option<Seq<char>>>,
    rid: Seq<Option<Seq<char>>>,
    cands: Seq<Seq<usize>>,
) -> Seq<(usize, usize)> {
    match_upto(lc, rc, lid, rid, cands, lc.len()).0
}

/// The key of an identified child (computed).
fn id_key_chars(class: &String, id: &String) -> (r: Vec<char>)
    ensures
        r@ == id_key(class@, id@),
{
    let c = chars_of(class.as_str());
    let sep: Vec<char> = vec!['\u{1}'];
    let i = chars_of(id.as_str());
    let a = concat(c.as_slice(), sep.as_slice());
    concat(a.as_slice(), i.as_slice())
}

/// The position `id_slot` names (computed).
fn find_id_slot(rc: &Vec<String>, rid: &Vec<Option<String>>, key: &Vec<char>) -> (r: Option<usize>)
    requires
        rc@.len() == rid@.len(),
    ensures
        r matches Some(j) ==> j < rc@.len(),
        match r {
            Some(j) => id_slot(texts(rc@), opt_texts(rid@), key@, rc@.len() as int) == Some(j as int),
            None => id_slot(texts(rc@), opt_texts(rid@), key@, rc@.len() as int) is None,
        },
{
    let ghost cls = texts(rc@);
    let ghost ids = opt_texts(rid@);
    let n = rc.len();
    let mut j = n;
    while j > 0
        invariant
            j <= n == rc@.len() == rid@.len(),
            cls == texts(rc@),
            ids == opt_texts(rid@),
            id_slot(cls, ids, key@, n as int) == id_slot(cls, ids, key@, j as int),
        decreases j,
    {
        j -= 1;
        match &rid[j] {
            Some(x) => {
                let k = id_key_chars(&rc[j], x);
                if chars_eq(k.as_slice(), key.as_slice()) {
                    return Some(j);
                }
            },
            None => {},
        }
    }
    None
}

/// The position `first_free` names (computed).
fn find_first_free(
    c: &Vec<usize>,
    rc: &Vec<String>,
    rid: &Vec<Option<String>>,
    class: &String,
    used: &Vec<bool>,
) -> (r: Option<usize>)
    requires
        rc@.len() == rid@.len() == used@.len(),
    ensures
        r matches Some(j) ==> j < rc@.len(),
        match r {
            Some(j) => first_free(c@, texts(rc@), opt_texts(rid@), class@, used@) == Some(j as int),
            None => first_free(c@, texts(rc@), opt_texts(rid@), class@, used@) is None,
        },
{
    let ghost cls = texts(rc@);
    let ghost ids = opt_texts(rid@);
    let n = rc.len();
    let want = chars_of(class.as_str());
    let mut k: usize = 0;
    assert(c@.skip(0) =~= c@);
    while k < c.len()
        invariant
            k <= c@.len(),
            n == rc@.len() == rid@.len() == used@.len(),
            cls == texts(rc@),
            ids == opt_texts(rid@),
            want@ == class@,
            first_free(c@, cls, ids, class@, used@) == first_free(c@.skip(k as int), cls, ids, class@, used@),
        decreases c@.len() - k,
    {
        proof {
            assert(c@.skip(k as int).drop_first() =~= c@.skip(k + 1));
            assert(c@.skip(k as int)[0] == c@[k as int]);
        }
        let j = c[k];
        if j < n && rid[j].is_none() && !used[j] {
            let have = chars_of(rc[j].as_str());
            if chars_eq(have.as_slice(), want.as_slice()) {
                return Some(j);
            }
        }
        k += 1;
    }
    proof {
        assert(c@.skip(k as int).len() == 0);
    }
    None
}

/// The pairs `match_children` finds, with the flags of the matched right
/// children.
fn match_children_state(
    left_classes: &Vec<String>,
    right_classes: &Vec<String>,
    left_ids: &Vec<Option<String>>,
    right_ids: &Vec<Option<String>>,
    candidates: &Vec<Vec<usize>>,
) -> (res: (Vec<(usize, usize)>, Vec<bool>))
    requires
        left_ids@.len() == left_classes@.len(),
        candidates@.len() == left_classes@.len(),
        right_ids@.len() == right_classes@.len(),
    ensures
        (res.0@, res.1@) == match_upto(
            texts(left_classes@),
            texts(right_classes@),
            opt_texts(left_ids@),
            opt_texts(right_ids@),
            position_lists(candidates@),
            left_classes@.len(),
        ),
{
    let ghost lc = texts(left_classes@);
    let ghost rc = texts(right_classes@);
    let ghost lid = opt_texts(left_ids@);
    let ghost rid = opt_texts(right_ids@);
    let ghost cands = position_lists(candidates@);
    let n = right_classes.len();
    let mut used: Vec<bool> = Vec::new();
    while used.len() < n
        invariant
            used@.len() <= n,
            forall|j: int| 0 <= j < used@.len() ==> !used@[j],
        decreases n - used@.len(),
    {
        used.push(false);
    }
    assert(used@ =~= Seq::new(rc.len(), |j: int| false));
    let mut pairs: Vec<(usize, usize)> = Vec::new();
    let m = left_classes.len();
    let mut li: usize = 0;
    while li < m
        invariant
            li <= m == left_classes@.len() == left_ids@.len() == candidates@.len(),
            n == right_classes@.len() == right_ids@.len() == used@.len(),
            lc == texts(left_classes@),
            rc == texts(right_classes@),
            lid == opt_texts(left_ids@),
            rid == opt_texts(right_ids@),
            cands == position_lists(candidates@),
            (pairs@, used@) == match_upto(lc, rc, lid, rid, cands, li as nat),
        decreases m - li,
    {
        let ghost st = (pairs@, used@);
        match &left_ids[li] {
            Some(id) => {
                let key = id_key_chars(&left_classes[li], id);
                match find_id_slot(right_classes, right_ids, &key) {
                    Some(j) => {
                        if !used[j] {
                            used.set(j, true);
                            pairs.push((li, j));
                        }
                    },
                    None => {},
                }
            },
            None => {
                match find_first_free(&candidates[li], right_classes, right_ids, &left_classes[li], &used) {
                    Some(j) => {
                        used.set(j, true);
                        pairs.push((li, j));
                    },
                    None => {},
                }
            },
        }
        proof {
            assert((pairs@, used@) == match_step(lc, rc, lid, rid, cands, st, li as int));
        }
        li += 1;
    }
    (pairs, used)
}


/// Matches the children of two matched objects. `left_classes` and
/// `right_classes` are the class names of the children on each side,
/// `left_ids` and `right_ids` their identifiers (`None`: no identifier, or
/// identifier matching disabled), and `candidates[i]` the positions of the
/// right children in the order of preference for the left child `i`. The
/// result holds each matched pair (left position, right position), in the
/// order of the left children; the children in no pair are unmatched.
pub fn match_children(
    left_classes: &Vec<String>,
    right_classes: &Vec<String>,
    left_ids: &Vec<Option<String>>,
    right_ids: &Vec<Option<String>>,
    candidates: &Vec<Vec<usize>>,
) -> (pairs: Vec<(usize, usize)>)
    requires
        left_ids@.len() == left_classes@.len(),
        candidates@.len() == left_classes@.len(),
        right_ids@.len() == right_classes@.len(),
    ensures
        pairs@ == match_children_spec(
            texts(left_classes@),
            texts(right_classes@),
            opt_texts(left_ids@),
            opt_texts(right_ids@),
            position_lists(candidates@),
        ),
{
    match_children_state(left_classes, right_classes, left_ids, right_ids, candidates).0
}

/// No identifiers, `n` times.
pub open spec fn no_ids(n: nat) -> Seq<Option<Seq<char>>> {
    Seq::new(n, |i: int| None)
}

/// Matches the children of a left object with those of its origin object for
/// a three-way comparison: each left child, in order, takes the first still
/// unmatched origin child of its class in its order of preference
/// (`candidates[i]`, positions of the origin children). The result holds each
/// matched pair (left position, origin position), in the order of the left
/// children.
pub fn match_origin_children(
    left_classes: &Vec<String>,
    origin_classes: &Vec<String>,
    candidates: &Vec<Vec<usize>>,
) -> (pairs: Vec<(usize, usize)>)
    requires
        candidates@.len() == left_classes@.len(),
    ensures
        pairs@ == match_children_spec(
            texts(left_classes@),
            texts(origin_classes@),
            no_ids(left_classes@.len()),
            no_ids(origin_classes@.len()),
            position_lists(candidates@),
        ),
{
    let mut lids: Vec<Option<String>> = Vec::new();
    while lids.len() < left_classes.len()
        invariant
            lids@.len() <= left_classes@.len(),
            forall|j: int| 0 <= j < lids@.len() ==> lids@[j] is None,
        decreases left_classes@.len() - lids@.len(),
    {
        lids.push(None);
    }
    let mut oids: Vec<Option<String>> = Vec::new();
    while oids.len() < origin_classes.len()
        invariant
            oids@.len() <= origin_classes@.len(),
            forall|j: int| 0 <= j < oids@.len() ==> oids@[j] is None,
        decreases origin_classes@.len() - oids@.len(),
    {
        oids.push(None);
    }
    assert(opt_texts(lids@) =~= no_ids(left_classes@.len()));
    assert(opt_texts(oids@) =~= no_ids(origin_classes@.len()));
    match_children(left_classes, origin_classes, &lids, &oids, candidates)
}

/// `id_slot` names a position below `n`.
proof fn lemma_id_slot_bound(classes: Seq<Seq<char>>, ids: Seq<Option<Seq<char>>>, key: Seq<char>, n: int)
    ensures
        id_slot(classes, ids, key, n) matches Some(j) ==> 0 <= j < n,
    decreases n,
{
    if n > 0 {
        lemma_id_slot_bound(classes, ids, key, n - 1);
    }
}

/// `first_free` names a position of the other side.
proof fn lemma_first_free_bound(
    c: Seq<usize>,
    classes: Seq<Seq<char>>,
    ids: Seq<Option<Seq<char>>>,
    class: Seq<char>,
    used: Seq<bool>,
)
    ensures
        first_free(c, classes, ids, class, used) matches Some(j) ==> 0 <= j < classes.len(),
    decreases c.len(),
{
    if c.len() > 0 {
        lemma_first_free_bound(c.drop_first(), classes, ids, class, used);
    }
}

/// Every pair found among the first `k` left children names one of them and
/// a child of the other side; there is one flag per child of the other side.
proof fn lemma_match_upto_bounds(
    lc: Seq<Seq<char>>,
    rc: Seq<Seq<char>>,
    lid: Seq<Option<Seq<char>>>,
    rid: Seq<Option<Seq<char>>>,
    cands: Seq<Seq<usize>>,
    k: nat,
)
    requires
        k <= lc.len(),
        rc.len() <= usize::MAX,
        lc.len() <= usize::MAX,
    ensures
        match_upto(lc, rc, lid, rid, cands, k).1.len() == rc.len(),
        forall|p: int|
            0 <= p < match_upto(lc, rc, lid, rid, cands, k).0.len() ==> {
                let e = #[trigger] match_upto(lc, rc, lid, rid, cands, k).0[p];
                e.0 < k && e.1 < rc.len()
            },
    decreases k,
{
    if k > 0 {
        let li = k - 1;
        lemma_match_upto_bounds(lc, rc, lid, rid, cands, (k - 1) as nat);
        match lid[li] {
            Some(id) => lemma_id_slot_bound(rc, rid, id_key(lc[li], id), rc.len() as int),
            None => lemma_first_free_bound(
                cands[li],
                rc,
                rid,
                lc[li],
                match_upto(lc, rc, lid, rid, cands, (k - 1) as nat).1,
            ),
        }
    }
}

/// One side of a comparison as the tree matching reads it: per object, its
/// class name, its identifier (if any) and the positions of its children.
pub struct MatchSide {
    pub classes: Vec<String>,
    pub ids: Vec<Option<String>>,
    pub children: Vec<Vec<usize>>,
}

/// A side as text.
pub struct SideView {
    pub classes: Seq<Seq<char>>,
    pub ids: Seq<Option<Seq<char>>>,
    pub children: Seq<Seq<usize>>,
}

impl MatchSide {
    /// The side as text.
    pub open spec fn side_view(&self) -> SideView {
        SideView {
            classes: texts(self.classes@),
            ids: opt_texts(self.ids@),
            children: position_lists(self.children@),
        }
    }

    /// One class name and one identifier per object, and every child is an
    /// object of the side.
    pub open spec fn wf(&self) -> bool {
        &&& self.ids@.len() == self.classes@.len()
        &&& self.children@.len() == self.classes@.len()
        &&& forall|o: int, i: int|
            0 <= o < self.children@.len() && 0 <= i < self.children@[o]@.len()
                ==> #[trigger] self.children@[o]@[i] < self.classes@.len()
    }
}

/// The entries of `cls` at the positions `kids`.
pub open spec fn pick_texts(kids: Seq<usize>, cls: Seq<Seq<char>>) -> Seq<Seq<char>> {
    Seq::new(kids.len(), |i: int| cls[kids[i] as int])
}

/// The entries of `ids` at the positions `kids`.
pub open spec fn pick_ids(kids: Seq<usize>, ids: Seq<Option<Seq<char>>>) -> Seq<Option<Seq<char>>> {
    Seq::new(kids.len(), |i: int| ids[kids[i] as int])
}

/// The first position of `o` in `rk`.
pub open spec fn pos_in(rk: Seq<usize>, o: usize) -> Option<int>
    decreases rk.len(),
{
    if rk.len() == 0 {
        None
    } else {
        match pos_in(rk.drop_last(), o) {
            Some(i) => Some(i),
            None => if rk.last() == o {
                Some(rk.len() - 1)
            } else {
                None
            },
        }
    }
}

/// The positions in `rk` of the objects of `pref` that `rk` holds, in the
/// order of `pref`.
pub open spec fn local_cands(pref: Seq<usize>, rk: Seq<usize>) -> Seq<usize>
    decreases pref.len(),
{
    if pref.len() == 0 {
        Seq::empty()
    } else {
        local_cands(pref.drop_last(), rk) + match pos_in(rk, pref.last()) {
            Some(i) => seq![i as usize],
            None => Seq::empty(),
        }
    }
}

/// The state after matching the children of `l` (left) with those of `r`
/// (right), each left child preferring the right children in the order of
/// its preference list.
pub open spec fn level_state(left: SideView, right: SideView, prefs: Seq<Seq<usize>>, l: usize, r: usize) -> MatchState {
    let lk = left.children[l as int];
    let rk = right.children[r as int];
    match_upto(
        pick_texts(lk, left.classes),
        pick_texts(rk, right.classes),
        pick_ids(lk, left.ids),
        pick_ids(rk, right.ids),
        Seq::new(lk.len(), |i: int| local_cands(prefs[lk[i] as int], rk)),
        lk.len(),
    )
}

/// The right position paired with the left position `li` in `pairs`.
pub open spec fn partner(pairs: Seq<(usize, usize)>, li: usize) -> Option<usize>
    decreases pairs.len(),
{
    if pairs.len() == 0 {
        None
    } else {
        match partner(pairs.drop_last(), li) {
            Some(j) => Some(j),
            None => if pairs.last().0 == li {
                Some(pairs.last().1)
            } else {
                None
            },
        }
    }
}

/// A match entry: the left object and the right object (`None`: absent on
/// that side).
pub type MatchEntry = (Option<usize>, Option<usize>);

/// The entries for the unmatched right children among the first `k`.
pub open spec fn unmatched_right(rk: Seq<usize>, used: Seq<bool>, k: nat) -> Seq<MatchEntry>
    decreases k,
{
    if k == 0 {
        Seq::empty()
    } else {
        unmatched_right(rk, used, (k - 1) as nat) + if !used[k - 1] {
            seq![(None, Some(rk[k - 1]))]
        } else {
            Seq::empty()
        }
    }
}

/// The entries of matching `l` with `r`, descending at most `fuel` levels:
/// the pair itself, then for each left child in order the entries of its
/// match (or the child alone when it has none), then each unmatched right
/// child alone.
pub open spec fn tree_entries(left: SideView, right: SideView, prefs: Seq<Seq<usize>>, fuel: nat, l: usize, r: usize) -> Seq<MatchEntry>
    decreases fuel, left.children[l as int].len() + 1,
{
    seq![(Some(l), Some(r))] + if fuel == 0 {
        Seq::empty()
    } else {
        children_entries(left, right, prefs, fuel, l, r, left.children[l as int].len())
            + unmatched_right(
            right.children[r as int],
            level_state(left, right, prefs, l, r).1,
            right.children[r as int].len(),
        )
    }
}

/// The entries for the first `k` left children of `l` matched against the
/// children of `r`.
pub open spec fn children_entries(left: SideView, right: SideView, prefs: Seq<Seq<usize>>, fuel: nat, l: usize, r: usize, k: nat) -> Seq<MatchEntry>
    decreases fuel, k,
{
    if k == 0 || fuel == 0 {
        Seq::empty()
    } else {
        let lk = left.children[l as int];
        children_entries(left, right, prefs, fuel, l, r, (k - 1) as nat) + match partner(
            level_state(left, right, prefs, l, r).0,
            (k - 1) as usize,
        ) {
            Some(j) => tree_entries(left, right, prefs, (fuel - 1) as nat, lk[k - 1], right.children[r as int][j as int]),
            None => seq![(Some(lk[k - 1]), None)],
        }
    }
}

/// The entries of matching the roots `lr` and `rr`: a pair is matched with
/// its children as `tree_entries` says, descending as many levels as the
/// left side has objects; a root alone is one entry.
pub open spec fn match_trees_spec(left: SideView, right: SideView, prefs: Seq<Seq<usize>>, lr: Option<usize>, rr: Option<usize>) -> Seq<MatchEntry> {
    match (lr, rr) {
        (Some(l), Some(r)) => tree_entries(left, right, prefs, left.classes.len(), l, r),
        (Some(l), None) => seq![(Some(l), None)],
        (None, Some(r)) => seq![(None, Some(r))],
        (None, None) => Seq::empty(),
    }
}

/// A first position found in a prefix is the first position in the whole.
proof fn lemma_pos_in_prefix(s: Seq<usize>, m: int, o: usize)
    requires
        0 <= m <= s.len(),
        pos_in(s.take(m), o) is Some,
    ensures
        pos_in(s, o) == pos_in(s.take(m), o),
    decreases s.len(),
{
    if m == s.len() {
        assert(s.take(m) =~= s);
    } else {
        assert(s.drop_last().take(m) =~= s.take(m));
        lemma_pos_in_prefix(s.drop_last(), m, o);
    }
}

/// A partner found in a prefix is the partner in the whole.
proof fn lemma_partner_prefix(s: Seq<(usize, usize)>, m: int, li: usize)
    requires
        0 <= m <= s.len(),
        partner(s.take(m), li) is Some,
    ensures
        partner(s, li) == partner(s.take(m), li),
    decreases s.len(),
{
    if m == s.len() {
        assert(s.take(m) =~= s);
    } else {
        assert(s.drop_last().take(m) =~= s.take(m));
        lemma_partner_prefix(s.drop_last(), m, li);
    }
}

/// The position `pos_in` names (computed).
fn find_pos(rk: &Vec<usize>, o: usize) -> (r: Option<usize>)
    ensures
        r == (match pos_in(rk@, o) {
            Some(i) => Some(i as usize),
            None => None::<usize>,
        }),
        r matches Some(i) ==> i < rk@.len(),
{
    let mut i: usize = 0;
    while i < rk.len()
        invariant
            i <= rk@.len(),
            pos_in(rk@.take(i as int), o) is None,
        decreases rk@.len() - i,
    {
        assert(rk@.take(i + 1).drop_last() =~= rk@.take(i as int));
        if rk[i] == o {
            proof {
                lemma_pos_in_prefix(rk@, i + 1, o);
            }
            return Some(i);
        }
        i += 1;
    }
    assert(rk@.take(i as int) =~= rk@);
    None
}

/// The positions `local_cands` names (computed).
fn local_candidates(pref: &Vec<usize>, rk: &Vec<usize>) -> (r: Vec<usize>)
    ensures
        r@ == local_cands(pref@, rk@),
{
    let mut out: Vec<usize> = Vec::new();
    let mut i: usize = 0;
    while i < pref.len()
        invariant
            i <= pref@.len(),
            out@ == local_cands(pref@.take(i as int), rk@),
        decreases pref@.len() - i,
    {
        assert(pref@.take(i + 1).drop_last() =~= pref@.take(i as int));
        assert(pref@.take(i + 1).last() == pref@[i as int]);
        match find_pos(rk, pref[i]) {
            Some(p) => {
                out.push(p);
            },
            None => {},
        }
        proof {
            assert(out@ =~= local_cands(pref@.take(i + 1), rk@));
        }
        i += 1;
    }
    assert(pref@.take(i as int) =~= pref@);
    out
}

/// The partner `partner` names (computed).
fn find_partner(pairs: &Vec<(usize, usize)>, li: usize) -> (r: Option<usize>)
    ensures
        r == partner(pairs@, li),
{
    let mut i: usize = 0;
    while i < pairs.len()
        invariant
            i <= pairs@.len(),
            partner(pairs@.take(i as int), li) is None,
        decreases pairs@.len() - i,
    {
        assert(pairs@.take(i + 1).drop_last() =~= pairs@.take(i as int));
        if pairs[i].0 == li {
            proof {
                lemma_partner_prefix(pairs@, i + 1, li);
            }
            return Some(pairs[i].1);
        }
        i += 1;
    }
    assert(pairs@.take(i as int) =~= pairs@);
    None
}

/// The class names of the objects at `kids` (computed).
fn pick_classes(kids: &Vec<usize>, classes: &Vec<String>) -> (r: Vec<String>)
    requires
        forall|i: int| 0 <= i < kids@.len() ==> #[trigger] kids@[i] < classes@.len(),
    ensures
        texts(r@) == pick_texts(kids@, texts(classes@)),
{
    let mut out: Vec<String> = Vec::new();
    let mut i: usize = 0;
    while i < kids.len()
        invariant
            i <= kids@.len(),
            out@.len() == i,
            forall|i: int| 0 <= i < kids@.len() ==> #[trigger] kids@[i] < classes@.len(),
            forall|k: int| 0 <= k < i ==> #[trigger] out@[k]@ == classes@[kids@[k] as int]@,
        decreases kids@.len() - i,
    {
        let c = classes[kids[i]].clone();
        out.push(c);
        i += 1;
    }
    assert(texts(out@) =~= pick_texts(kids@, texts(classes@)));
    out
}

/// The identifiers of the objects at `kids` (computed).
fn pick_identifiers(kids: &Vec<usize>, ids: &Vec<Option<String>>) -> (r: Vec<Option<String>>)
    requires
        forall|i: int| 0 <= i < kids@.len() ==> #[trigger] kids@[i] < ids@.len(),
    ensures
        opt_texts(r@) == pick_ids(kids@, opt_texts(ids@)),
{
    let mut out: Vec<Option<String>> = Vec::new();
    let mut i: usize = 0;
    while i < kids.len()
        invariant
            i <= kids@.len(),
            out@.len() == i,
            forall|i: int| 0 <= i < kids@.len() ==> #[trigger] kids@[i] < ids@.len(),
            forall|k: int| 0 <= k < i ==> #[trigger] opt_texts(out@)[k] == opt_texts(ids@)[kids@[k] as int],
        decreases kids@.len() - i,
    {
        let v = match &ids[kids[i]] {
            Some(x) => Some(x.clone()),
            None => None,
        };
        let ghost prev = out@;
        out.push(v);
        proof {
            assert forall|k: int| 0 <= k < i + 1 implies #[trigger] opt_texts(out@)[k] == opt_texts(ids@)[kids@[k] as int] by {
                if k < i {
                    assert(out@[k] == prev[k]);
                    assert(opt_texts(prev)[k] == opt_texts(ids@)[kids@[k] as int]);
                }
            }
        }
        i += 1;
    }
    assert(opt_texts(out@) =~= pick_ids(kids@, opt_texts(ids@)));
    out
}

/// Appends the entries of matching `l` with `r` (see `tree_entries`).
#[verifier::spinoff_prover]
fn push_tree_entries(
    left: &MatchSide,
    right: &MatchSide,
    prefs: &Vec<Vec<usize>>,
    fuel: usize,
    l: usize,
    r: usize,
    out: &mut Vec<MatchEntry>,
)
    requires
        left.wf(),
        right.wf(),
        prefs@.len() == left.classes@.len(),
        l < left.classes@.len(),
        r < right.classes@.len(),
    ensures
        final(out)@ == old(out)@ + tree_entries(
            left.side_view(),
            right.side_view(),
            position_lists(prefs@),
            fuel as nat,
            l,
            r,
        ),
    decreases fuel,
{
    let ghost lv = left.side_view();
    let ghost rv = right.side_view();
    let ghost pv = position_lists(prefs@);
    let ghost base = out@;
    out.push((Some(l), Some(r)));
    if fuel == 0 {
        assert(out@ =~= base + tree_entries(lv, rv, pv, fuel as nat, l, r));
        return;
    }
    let lk = &left.children[l];
    let rk = &right.children[r];
    assert(lk@ == lv.children[l as int]);
    assert(rk@ == rv.children[r as int]);
    assert forall|i: int| 0 <= i < lk@.len() implies #[trigger] lk@[i] < left.classes@.len() by {
        assert(left.children@[l as int]@[i] < left.classes@.len());
    }
    assert forall|i: int| 0 <= i < rk@.len() implies #[trigger] rk@[i] < right.classes@.len() by {
        assert(right.children@[r as int]@[i] < right.classes@.len());
    }
    let lcls = pick_classes(lk, &left.classes);
    let rcls = pick_classes(rk, &right.classes);
    let lids = pick_identifiers(lk, &left.ids);
    let rids = pick_identifiers(rk, &right.ids);
    let mut cands: Vec<Vec<usize>> = Vec::new();
    let mut i: usize = 0;
    while i < lk.len()
        invariant
            i <= lk@.len(),
            cands@.len() == i,
            lk@ == lv.children[l as int],
            rk@ == rv.children[r as int],
            prefs@.len() == left.classes@.len(),
            pv == position_lists(prefs@),
            forall|i: int| 0 <= i < lk@.len() ==> #[trigger] lk@[i] < left.classes@.len(),
            forall|k: int|
                0 <= k < i ==> #[trigger] cands@[k]@ == local_cands(pv[lk@[k] as int], rk@),
        decreases lk@.len() - i,
    {
        let c = local_candidates(&prefs[lk[i]], rk);
        cands.push(c);
        i += 1;
    }
    assert(position_lists(cands@) =~= Seq::new(
        lk@.len(),
        |i: int| local_cands(pv[lk@[i] as int], rk@),
    ));
    assert(texts(lcls@).len() == lcls@.len());
    assert(texts(rcls@).len() == rcls@.len());
    assert(opt_texts(lids@).len() == lids@.len());
    assert(opt_texts(rids@).len() == rids@.len());
    assert(lcls@.len() == lk@.len() && lids@.len() == lk@.len());
    assert(rcls@.len() == rk@.len() && rids@.len() == rk@.len());
    let (pairs, used) = match_children_state(&lcls, &rcls, &lids, &rids, &cands);
    let ln = lcls.len();
    let rn = rcls.len();
    assert(texts(lcls@).len() == ln && texts(rcls@).len() == rn);
    assert((pairs@, used@) == level_state(lv, rv, pv, l, r));
    proof {
        lemma_match_upto_bounds(
            texts(lcls@),
            texts(rcls@),
            opt_texts(lids@),
            opt_texts(rids@),
            position_lists(cands@),
            lk@.len(),
        );
        let st = match_upto(
            texts(lcls@),
            texts(rcls@),
            opt_texts(lids@),
            opt_texts(rids@),
            position_lists(cands@),
            lk@.len(),
        );
        assert(pairs@ == st.0);
        assert forall|p: int| 0 <= p < pairs@.len() implies (#[trigger] pairs@[p]).1 < rk@.len() by {
            assert(st.0[p] == pairs@[p]);
        }
        lemma_partner_bound(pairs@, rk@.len());
    }
    let ghost mid0 = out@;
    let mut k: usize = 0;
    while k < lk.len()
        invariant
            k <= lk@.len(),
            0 < fuel,
            left.wf(),
            right.wf(),
            prefs@.len() == left.classes@.len(),
            lv == left.side_view(),
            rv == right.side_view(),
            pv == position_lists(prefs@),
            lk@ == lv.children[l as int],
            rk@ == rv.children[r as int],
            (pairs@, used@) == level_state(lv, rv, pv, l, r),
            forall|i: int| 0 <= i < lk@.len() ==> #[trigger] lk@[i] < left.classes@.len(),
            forall|i: int| 0 <= i < rk@.len() ==> #[trigger] rk@[i] < right.classes@.len(),
            forall|li: usize| (#[trigger] partner(pairs@, li)) is Some ==> partner(pairs@, li).unwrap() < rk@.len(),
            out@ == mid0 + children_entries(lv, rv, pv, fuel as nat, l, r, k as nat),
        decreases lk@.len() - k,
    {
        let ghost before = out@;
        match find_partner(&pairs, k) {
            Some(j) => {
                push_tree_entries(left, right, prefs, fuel - 1, lk[k], rk[j], out);
            },
            None => {
                out.push((Some(lk[k]), None));
            },
        }
        proof {
            assert(out@ =~= mid0 + children_entries(lv, rv, pv, fuel as nat, l, r, (k + 1) as nat));
        }
        k += 1;
    }
    let ghost mid1 = out@;
    let mut j: usize = 0;
    while j < rk.len()
        invariant
            j <= rk@.len() == used@.len(),
            out@ == mid1 + unmatched_right(rk@, used@, j as nat),
        decreases rk@.len() - j,
    {
        if !used[j] {
            out.push((None, Some(rk[j])));
        }
        proof {
            assert(out@ =~= mid1 + unmatched_right(rk@, used@, (j + 1) as nat));
        }
        j += 1;
    }
    assert(out@ =~= base + tree_entries(lv, rv, pv, fuel as nat, l, r));
}

/// Every partner in `pairs` is below `n` when every pair's right position is.
proof fn lemma_partner_bound(pairs: Seq<(usize, usize)>, n: nat)
    requires
        forall|p: int| 0 <= p < pairs.len() ==> (#[trigger] pairs[p]).1 < n,
    ensures
        forall|li: usize| (#[trigger] partner(pairs, li)) is Some ==> partner(pairs, li).unwrap() < n,
    decreases pairs.len(),
{
    if pairs.len() > 0 {
        let p0 = pairs.drop_last();
        assert forall|p: int| 0 <= p < p0.len() implies (#[trigger] p0[p]).1 < n by {
            assert(p0[p] == pairs[p]);
        }
        lemma_partner_bound(p0, n);
        assert forall|li: usize| (#[trigger] partner(pairs, li)) is Some implies partner(pairs, li).unwrap() < n by {
            assert(pairs.last() == pairs[pairs.len() - 1]);
            if partner(p0, li) is Some {
                assert(partner(p0, li).unwrap() < n);
            }
        }
    }
}

/// Matches two containment trees from their roots (`None`: absent on that
/// side), as the default match engine does: the roots form the first entry;
/// when both are present, each left child in turn is matched against the
/// children of the right root (by identifier, else greedily in its order of
/// preference within its class bucket, see `match_children`) and its match
/// is descended into (a left child without a match is an entry alone), and
/// the right children left unmatched follow as entries alone. `preferences[o]`
/// lists the right objects in the order of preference of the left object `o`
/// (best similarity first, among equals the one at the same position within
/// its parent first, then by position). The descent stops after as many
/// levels as the left side has objects, which no tree exceeds.
pub fn match_trees(
    left: &MatchSide,
    right: &MatchSide,
    preferences: &Vec<Vec<usize>>,
    left_root: Option<usize>,
    right_root: Option<usize>,
) -> (entries: Vec<MatchEntry>)
    requires
        left.wf(),
        right.wf(),
        preferences@.len() == left.classes@.len(),
        left_root matches Some(l) ==> l < left.classes@.len(),
        right_root matches Some(r) ==> r < right.classes@.len(),
    ensures
        entries@ == match_trees_spec(
            left.side_view(),
            right.side_view(),
            position_lists(preferences@),
            left_root,
            right_root,
        ),
{
    let mut out: Vec<MatchEntry> = Vec::new();
    match (left_root, right_root) {
        (Some(l), Some(r)) => {
            push_tree_entries(left, right, preferences, left.classes.len(), l, r, &mut out);
            assert(out@ =~= match_trees_spec(
                left.side_view(),
                right.side_view(),
                position_lists(preferences@),
                left_root,
                right_root,
            ));
        },
        (Some(l), None) => {
            out.push((Some(l), None));
            assert(out@ =~= seq![(Some(l), None::<usize>)]);
        },
        (None, Some(r)) => {
            out.push((None, Some(r)));
            assert(out@ =~= seq![(None::<usize>, Some(r))]);
        },
        (None, None) => {},
    }
    out
}

/// The identifier of an object as the match engine resolves it: a manually
/// registered identifier first (present when not empty), else the one the
/// identifier provider gives when it is not empty, else, when identifier
/// attributes are used, the object's identifier attribute when it is not
/// empty; else no identifier.
pub open spec fn resolve_id_spec(
    manual: Option<Seq<char>>,
    provided: Option<Seq<char>>,
    use_id_attribute: bool,
    attribute: Seq<char>,
) -> (Seq<char>, bool) {
    match manual {
        Some(id) => (id, id.len() > 0),
        None => match provided {
            Some(p) if p.len() > 0 => (p, true),
            _ => if use_id_attribute && attribute.len() > 0 {
                (attribute, true)
            } else {
                (Seq::empty(), false)
            },
        },
    }
}

/// Resolves an object's identifier from what is known of it: `manual`, the
/// identifier registered for it (if any); `provided`, what the identifier
/// provider answers (`None`: there is no provider); `attribute`, the value of
/// its identifier attribute (empty: none). Returns the identifier and whether
/// it has one.
pub fn resolve_id(
    manual: Option<&str>,
    provided: Option<&str>,
    use_id_attribute: bool,
    attribute: &str,
) -> (r: (String, bool))
    ensures
        (r.0@, r.1) == resolve_id_spec(
            match manual {
                Some(m) => Some(m@),
                None => None,
            },
            match provided {
                Some(p) => Some(p@),
                None => None,
            },
            use_id_attribute,
            attribute@,
        ),
{
    match manual {
        Some(id) => {
            let present = chars_of(id).len() > 0;
            (id.to_owned(), present)
        },
        None => {
            match provided {
                Some(p) => {
                    if chars_of(p).len() > 0 {
                        return (p.to_owned(), true);
                    }
                },
                None => {},
            }
            if use_id_attribute && chars_of(attribute).len() > 0 {
                (attribute.to_owned(), true)
            } else {
                (String::new(), false)
            }
        },
    }
}

/// Some entry after position `e` of `es` lists the left object `c`.
pub open spec fn listed_after(es: Seq<MatchEntry>, e: int, c: usize) -> bool {
    exists|f: int| e < f < es.len() && (#[trigger] es[f]).0 == Some(c)
}

/// Some entry of `es` lists the left object `c`.
pub open spec fn listed_in(es: Seq<MatchEntry>, c: usize) -> bool {
    exists|f: int| 0 <= f < es.len() && (#[trigger] es[f]).0 == Some(c)
}

/// If entry `e` of `es` pairs a left object with a right one, its left
/// child at position `i` is listed by a later entry.
pub open spec fn child_listed(es: Seq<MatchEntry>, kids: Seq<Seq<usize>>, e: int, i: int) -> bool {
    (0 <= e < es.len() && es[e].0 is Some && es[e].1 is Some && 0 <= i < kids[es[e].0.unwrap() as int].len())
        ==> listed_after(es, e, kids[es[e].0.unwrap() as int][i])
}

/// Every child of every matched left object is listed by a later entry.
pub open spec fn lists_children(es: Seq<MatchEntry>, kids: Seq<Seq<usize>>) -> bool {
    forall|e: int, i: int| #[trigger] child_listed(es, kids, e, i)
}

/// The left side is a containment forest of bounded depth: `level` gives
/// each object a level below the number of objects, every child has a
/// higher level than its parent, and every child is an object of the side.
pub open spec fn levels_ok(left: SideView, level: Seq<nat>) -> bool {
    &&& level.len() == left.classes.len()
    &&& left.children.len() == left.classes.len()
    &&& forall|o: int| 0 <= o < level.len() ==> #[trigger] level[o] < level.len()
    &&& forall|o: int, i: int|
        0 <= o < left.children.len() && 0 <= i < left.children[o].len() ==> {
            &&& (#[trigger] left.children[o][i]) < left.classes.len()
            &&& level[left.children[o][i] as int] > level[o]
        }
}

/// Entries that pair nothing on the left ask for nothing.
proof fn lemma_lists_children_no_pairs(es: Seq<MatchEntry>, kids: Seq<Seq<usize>>)
    requires
        forall|e: int| 0 <= e < es.len() ==> !((#[trigger] es[e]).0 is Some && es[e].1 is Some),
    ensures
        lists_children(es, kids),
{
}

/// Listing children survives concatenation.
proof fn lemma_lists_children_concat(a: Seq<MatchEntry>, b: Seq<MatchEntry>, kids: Seq<Seq<usize>>)
    requires
        lists_children(a, kids),
        lists_children(b, kids),
    ensures
        lists_children(a + b, kids),
{
    let ab = a + b;
    assert forall|e: int, i: int| #[trigger] child_listed(ab, kids, e, i) by {
        if 0 <= e < ab.len() && ab[e].0 is Some && ab[e].1 is Some && 0 <= i < kids[ab[e].0.unwrap() as int].len() {
            let c = kids[ab[e].0.unwrap() as int][i];
            if e < a.len() {
                assert(ab[e] == a[e]);
                assert(child_listed(a, kids, e, i));
                let f = choose|f: int| e < f < a.len() && (#[trigger] a[f]).0 == Some(c);
                assert(ab[f] == a[f]);
            } else {
                let e2 = e - a.len();
                assert(ab[e] == b[e2]);
                assert(child_listed(b, kids, e2, i));
                let f = choose|f: int| e2 < f < b.len() && (#[trigger] b[f]).0 == Some(c);
                assert(ab[f + a.len()] == b[f]);
            }
        }
    }
}

/// The unmatched right children pair nothing on the left.
proof fn lemma_unmatched_right_no_pairs(rk: Seq<usize>, used: Seq<bool>, k: nat)
    ensures
        forall|e: int|
            0 <= e < unmatched_right(rk, used, k).len() ==> (#[trigger] unmatched_right(rk, used, k)[e]).0
                is None,
    decreases k,
{
    if k > 0 {
        lemma_unmatched_right_no_pairs(rk, used, (k - 1) as nat);
    }
}

/// The entries of matching `l` with `r` list every child of every matched
/// left object, as long as `fuel` reaches below the deepest level under `l`.
proof fn lemma_tree_entries_list_children(
    left: SideView,
    right: SideView,
    prefs: Seq<Seq<usize>>,
    level: Seq<nat>,
    fuel: nat,
    l: usize,
    r: usize,
)
    requires
        levels_ok(left, level),
        l < left.classes.len(),
        fuel + level[l as int] >= level.len(),
    ensures
        lists_children(tree_entries(left, right, prefs, fuel, l, r), left.children),
        tree_entries(left, right, prefs, fuel, l, r)[0] == (Some(l), Some(r)),
    decreases fuel, left.children[l as int].len() + 1,
{
    let lk = left.children[l as int];
    let rk = right.children[r as int];
    let es = tree_entries(left, right, prefs, fuel, l, r);
    assert(fuel > 0);
    lemma_children_entries_list(left, right, prefs, level, fuel, l, r, lk.len());
    let ce = children_entries(left, right, prefs, fuel, l, r, lk.len());
    let u = unmatched_right(rk, level_state(left, right, prefs, l, r).1, rk.len());
    lemma_unmatched_right_no_pairs(rk, level_state(left, right, prefs, l, r).1, rk.len());
    lemma_lists_children_no_pairs(u, left.children);
    lemma_lists_children_concat(ce, u, left.children);
    let rest = ce + u;
    assert(es == seq![(Some(l), Some(r))] + rest);
    assert forall|e: int, i: int| #[trigger] child_listed(es, left.children, e, i) by {
        if 0 <= e < es.len() && es[e].0 is Some && es[e].1 is Some && 0 <= i < left.children[es[e].0.unwrap() as int].len() {
            if e == 0 {
                let c = lk[i];
                assert(listed_in(ce, c));
                let f = choose|f: int| 0 <= f < ce.len() && (#[trigger] ce[f]).0 == Some(c);
                assert(es[f + 1] == ce[f]);
            } else {
                let e2 = e - 1;
                assert(es[e] == rest[e2]);
                assert(child_listed(rest, left.children, e2, i));
                let c = left.children[es[e].0.unwrap() as int][i];
                let f = choose|f: int| e2 < f < rest.len() && (#[trigger] rest[f]).0 == Some(c);
                assert(es[f + 1] == rest[f]);
            }
        }
    }
}

/// The entries for the first `k` left children of `l` list each of them and
/// every child of every matched left object among them.
proof fn lemma_children_entries_list(
    left: SideView,
    right: SideView,
    prefs: Seq<Seq<usize>>,
    level: Seq<nat>,
    fuel: nat,
    l: usize,
    r: usize,
    k: nat,
)
    requires
        levels_ok(left, level),
        l < left.classes.len(),
        fuel > 0,
        fuel + level[l as int] >= level.len(),
        k <= left.children[l as int].len(),
    ensures
        lists_children(children_entries(left, right, prefs, fuel, l, r, k), left.children),
        forall|i: int|
            0 <= i < k ==> #[trigger] listed_in(
                children_entries(left, right, prefs, fuel, l, r, k),
                left.children[l as int][i],
            ),
    decreases fuel, k,
{
    let lk = left.children[l as int];
    let ce = children_entries(left, right, prefs, fuel, l, r, k);
    if k == 0 {
        lemma_lists_children_no_pairs(ce, left.children);
    } else {
        lemma_children_entries_list(left, right, prefs, level, fuel, l, r, (k - 1) as nat);
        let prev = children_entries(left, right, prefs, fuel, l, r, (k - 1) as nat);
        let c = lk[k - 1];
        assert(c < left.classes.len() && level[c as int] > level[l as int]);
        let item = match partner(level_state(left, right, prefs, l, r).0, (k - 1) as usize) {
            Some(j) => tree_entries(left, right, prefs, (fuel - 1) as nat, c, right.children[r as int][j as int]),
            None => seq![(Some(c), None::<usize>)],
        };
        match partner(level_state(left, right, prefs, l, r).0, (k - 1) as usize) {
            Some(j) => {
                lemma_tree_entries_list_children(
                    left,
                    right,
                    prefs,
                    level,
                    (fuel - 1) as nat,
                    c,
                    right.children[r as int][j as int],
                );
            },
            None => {
                lemma_lists_children_no_pairs(item, left.children);
            },
        }
        assert(ce == prev + item);
        assert(item[0].0 == Some(c));
        lemma_lists_children_concat(prev, item, left.children);
        assert forall|i: int| 0 <= i < k implies #[trigger] listed_in(ce, lk[i]) by {
            if i < k - 1 {
                assert(listed_in(prev, lk[i]));
                let f = choose|f: int| 0 <= f < prev.len() && (#[trigger] prev[f]).0 == Some(lk[i]);
                assert(ce[f] == prev[f]);
            } else {
                assert(ce[prev.len() as int] == item[0]);
            }
        }
    }
}

/// Matching two trees from their roots lists every object of the left tree
/// reachable from its root: each child of each matched left object appears
/// in a later entry (matched or alone), whatever the depth of the tree.
pub proof fn lemma_match_trees_lists_children(
    left: SideView,
    right: SideView,
    prefs: Seq<Seq<usize>>,
    level: Seq<nat>,
    l: usize,
    r: usize,
)
    requires
        levels_ok(left, level),
        l < left.classes.len(),
    ensures
        lists_children(match_trees_spec(left, right, prefs, Some(l), Some(r)), left.children),
        match_trees_spec(left, right, prefs, Some(l), Some(r))[0] == (Some(l), Some(r)),
{
    lemma_tree_entries_list_children(left, right, prefs, level, left.classes.len(), l, r);
}

} // verus!
