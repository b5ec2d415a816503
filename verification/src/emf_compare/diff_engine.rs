//! The difference pass over a comparison's matches: per-feature changes for
//! matches whose sides differ, whole-object additions and deletions for
//! matches with one side absent, and moves in ordered many-valued
//! references. Objects are named by their keys; the left-to-right
//! correspondence of matched objects is a list of `(left key, right key)`
//! pairs filled in match order, a later pair for the same left key replacing
//! an earlier one. In move detection, elements that keep their relative
//! order (a longest common subsequence of the two lists) are anchored; every
//! other element present on both sides has moved.
use vstd::prelude::*;
use vstd::std_specs::cmp::PartialEqSpec;
use crate::emf_compare::comparison::{push_unique, Comparison, Match, MatchKind};
use crate::emf_compare::diff::{Diff, DiffKind, DiffModel, DiffType, DifferenceSource, DifferenceState};
use crate::emf_compare::support::{
    copy_value, features_of, is_proxy, object_list, object_list_of, proxy_of, single_object, single_object_of,
    value_copy, value_eq_spec, value_equal, value_of, value_ref, CompareValue, FeatureFacts, ObjectFacts,
};

verus! {

/// The longest list for which anchors are found through a longest common
/// subsequence; longer lists anchor nothing and only report elements whose
/// position changed.
pub const LCS_MAX_N: usize = 2048;

/// The value paired last with `k` in `pairs`.
pub open spec fn lookup(pairs: Seq<(usize, usize)>, k: usize) -> Option<usize>
    decreases pairs.len(),
{
    if pairs.len() == 0 {
        None
    } else if pairs.last().0 == k {
        Some(pairs.last().1)
    } else {
        lookup(pairs.drop_last(), k)
    }
}

/// The value paired last with `k` in `pairs` (computed).
pub fn lookup_pair(pairs: &Vec<(usize, usize)>, k: usize) -> (r: Option<usize>)
    ensures
        r == lookup(pairs@, k),
{
    let mut i: usize = pairs.len();
    assert(pairs@.subrange(0, pairs@.len() as int) =~= pairs@);
    while i > 0
        invariant
            i <= pairs@.len(),
            lookup(pairs@, k) == lookup(pairs@.subrange(0, i as int), k),
        decreases i,
    {
        let ghost s = pairs@.subrange(0, i as int);
        assert(s.drop_last() =~= pairs@.subrange(0, i - 1));
        assert(s.last() == pairs@[i - 1]);
        if pairs[i - 1].0 == k {
            return Some(pairs[i - 1].1);
        }
        i -= 1;
    }
    None
}

/// The last position of `x` in `r`.
pub open spec fn last_index(r: Seq<usize>, x: usize) -> Option<int>
    decreases r.len(),
{
    if r.len() == 0 {
        None
    } else if r.last() == x {
        Some(r.len() - 1)
    } else {
        last_index(r.drop_last(), x)
    }
}

/// A position found by `last_index` lies in `r` and holds `x`.
proof fn lemma_last_index(r: Seq<usize>, x: usize)
    ensures
        last_index(r, x) matches Some(j) ==> 0 <= j < r.len() && r[j] == x,
    decreases r.len(),
{
    if r.len() > 0 && r.last() != x {
        lemma_last_index(r.drop_last(), x);
    }
}

/// The last position of `x` in `r` (computed).
fn last_index_of(r: &Vec<usize>, x: usize) -> (res: Option<usize>)
    ensures
        match last_index(r@, x) {
            Some(j) => res == Some(j as usize),
            None => res is None,
        },
{
    let mut i: usize = r.len();
    assert(r@.subrange(0, r@.len() as int) =~= r@);
    while i > 0
        invariant
            i <= r@.len(),
            last_index(r@, x) == last_index(r@.subrange(0, i as int), x),
        decreases i,
    {
        let ghost s = r@.subrange(0, i as int);
        assert(s.drop_last() =~= r@.subrange(0, i - 1));
        if r[i - 1] == x {
            return Some(i - 1);
        }
        i -= 1;
    }
    None
}

/// The left element at `i` is matched to the right element at `j`.
pub open spec fn matched_at(l: Seq<usize>, r: Seq<usize>, ltr: Seq<(usize, usize)>, i: int, j: int) -> bool {
    lookup(ltr, l[i]) == Some(r[j])
}

/// Length of a longest common subsequence of the first `i` left and the
/// first `j` right elements, elements being common when matched.
pub open spec fn lcs_len(l: Seq<usize>, r: Seq<usize>, ltr: Seq<(usize, usize)>, i: nat, j: nat) -> nat
    decreases i + j,
{
    if i == 0 || j == 0 {
        0
    } else if matched_at(l, r, ltr, i - 1, j - 1) {
        lcs_len(l, r, ltr, (i - 1) as nat, (j - 1) as nat) + 1
    } else {
        let a = lcs_len(l, r, ltr, (i - 1) as nat, j);
        let b = lcs_len(l, r, ltr, i, (j - 1) as nat);
        if a >= b {
            a
        } else {
            b
        }
    }
}

/// The left positions a trace back from `(i, j)` through the subsequence
/// table anchors: a matched pair is taken, otherwise the step goes up when
/// that keeps at least as long a subsequence, left else.
pub open spec fn anchors(l: Seq<usize>, r: Seq<usize>, ltr: Seq<(usize, usize)>, i: nat, j: nat) -> Set<int>
    decreases i + j,
{
    if i == 0 || j == 0 {
        Set::empty()
    } else if matched_at(l, r, ltr, i - 1, j - 1) {
        anchors(l, r, ltr, (i - 1) as nat, (j - 1) as nat).insert(i - 1)
    } else if lcs_len(l, r, ltr, (i - 1) as nat, j) >= lcs_len(l, r, ltr, i, (j - 1) as nat) {
        anchors(l, r, ltr, (i - 1) as nat, j)
    } else {
        anchors(l, r, ltr, i, (j - 1) as nat)
    }
}

/// The anchored left positions of lists of equal length.
pub open spec fn anchored_set(l: Seq<usize>, r: Seq<usize>, ltr: Seq<(usize, usize)>) -> Set<int> {
    if l.len() <= LCS_MAX_N {
        anchors(l, r, ltr, l.len(), r.len())
    } else {
        Set::empty()
    }
}

/// One detected move: the element at `old_index` on the left (key `left`)
/// sits at `new_index` on the right (key `right`, its matched partner).
#[derive(Debug, Clone, Copy, PartialEq, Eq)]
pub struct MoveEntry {
    /// Position on the left.
    pub old_index: usize,
    /// Position on the right.
    pub new_index: usize,
    /// The left element.
    pub left: usize,
    /// Its right partner.
    pub right: usize,
}

/// The move reported for the left position `k`, if any: an element that is
/// not anchored and whose partner is in the right list (at its last
/// position); beyond the subsequence limit only when that position differs
/// (as 32-bit positions).
pub open spec fn move_at(l: Seq<usize>, r: Seq<usize>, ltr: Seq<(usize, usize)>, k: int) -> Option<MoveEntry> {
    if anchored_set(l, r, ltr).contains(k) {
        None
    } else {
        match lookup(ltr, l[k]) {
            None => None,
            Some(m) => match last_index(r, m) {
                None => None,
                Some(j) => if l.len() <= LCS_MAX_N || (k as i32) != (j as i32) {
                    Some(MoveEntry { old_index: k as usize, new_index: j as usize, left: l[k], right: m })
                } else {
                    None
                },
            },
        }
    }
}

/// The moves reported for the left positions below `k`, in order.
pub open spec fn moves_upto(l: Seq<usize>, r: Seq<usize>, ltr: Seq<(usize, usize)>, k: nat) -> Seq<MoveEntry>
    decreases k,
{
    if k == 0 {
        Seq::empty()
    } else {
        let prev = moves_upto(l, r, ltr, (k - 1) as nat);
        match move_at(l, r, ltr, k - 1) {
            Some(e) => prev.push(e),
            None => prev,
        }
    }
}

/// The moves between an ordered left list and right list: none unless both
/// have the same, non-zero length.
pub open spec fn moves(l: Seq<usize>, r: Seq<usize>, ltr: Seq<(usize, usize)>) -> Seq<MoveEntry> {
    if l.len() != r.len() || l.len() == 0 {
        Seq::empty()
    } else {
        moves_upto(l, r, ltr, l.len())
    }
}

/// A common subsequence is no longer than either prefix.
proof fn lemma_lcs_bound(l: Seq<usize>, r: Seq<usize>, ltr: Seq<(usize, usize)>, i: nat, j: nat)
    ensures
        lcs_len(l, r, ltr, i, j) <= i,
        lcs_len(l, r, ltr, i, j) <= j,
    decreases i + j,
{
    if i > 0 && j > 0 {
        lemma_lcs_bound(l, r, ltr, (i - 1) as nat, (j - 1) as nat);
        lemma_lcs_bound(l, r, ltr, (i - 1) as nat, j);
        lemma_lcs_bound(l, r, ltr, i, (j - 1) as nat);
    }
}

/// The trace back anchors as many left positions as a longest common
/// subsequence has elements, all among the first `i`: the moves reported
/// are as few as the elements that cannot keep their relative order.
pub proof fn lemma_anchors_count(l: Seq<usize>, r: Seq<usize>, ltr: Seq<(usize, usize)>, i: nat, j: nat)
    ensures
        anchors(l, r, ltr, i, j).finite(),
        anchors(l, r, ltr, i, j).len() == lcs_len(l, r, ltr, i, j),
        forall|k: int| #[trigger] anchors(l, r, ltr, i, j).contains(k) ==> 0 <= k < i,
    decreases i + j,
{
    if i > 0 && j > 0 {
        if matched_at(l, r, ltr, i - 1, j - 1) {
            lemma_anchors_count(l, r, ltr, (i - 1) as nat, (j - 1) as nat);
            assert(!anchors(l, r, ltr, (i - 1) as nat, (j - 1) as nat).contains(i - 1));
        } else if lcs_len(l, r, ltr, (i - 1) as nat, j) >= lcs_len(l, r, ltr, i, (j - 1) as nat) {
            lemma_anchors_count(l, r, ltr, (i - 1) as nat, j);
        } else {
            lemma_anchors_count(l, r, ltr, i, (j - 1) as nat);
        }
    }
}

/// `mapped` holds, for each left element, its partner.
pub open spec fn partners(mapped: Seq<Option<usize>>, l: Seq<usize>, ltr: Seq<(usize, usize)>) -> bool {
    &&& mapped.len() == l.len()
    &&& forall|k: int| 0 <= k < l.len() ==> #[trigger] mapped[k] == lookup(ltr, l[k])
}

/// Whether the left element at `i` is matched to the right element at `j`
/// (computed from the partners).
fn matched_pair(mapped: &Vec<Option<usize>>, right: &Vec<usize>, i: usize, j: usize, Ghost(l): Ghost<Seq<usize>>, Ghost(ltr): Ghost<Seq<(usize, usize)>>) -> (b: bool)
    requires
        partners(mapped@, l, ltr),
        i < l.len(),
        j < right@.len(),
    ensures
        b == matched_at(l, right@, ltr, i as int, j as int),
{
    match mapped[i] {
        Some(m) => m == right[j],
        None => false,
    }
}

/// The subsequence table: row `i`, column `j` holds `lcs_len(i, j)`.
fn lcs_table(left: &Vec<usize>, right: &Vec<usize>, mapped: &Vec<Option<usize>>, Ghost(ltr): Ghost<Seq<(usize, usize)>>) -> (t: Vec<Vec<usize>>)
    requires
        left@.len() == right@.len(),
        left@.len() <= LCS_MAX_N,
        partners(mapped@, left@, ltr),
    ensures
        t@.len() == left@.len() + 1,
        forall|i: int| 0 <= i <= left@.len() ==> (#[trigger] t@[i])@.len() == left@.len() + 1,
        forall|i: int, j: int|
            0 <= i <= left@.len() && 0 <= j <= left@.len() ==> #[trigger] t@[i]@[j] == lcs_len(
                left@,
                right@,
                ltr,
                i as nat,
                j as nat,
            ),
{
    let n = left.len();
    let ghost l = left@;
    let ghost r = right@;
    let mut t: Vec<Vec<usize>> = Vec::new();
    let mut row0: Vec<usize> = Vec::new();
    let mut j: usize = 0;
    while j <= n
        invariant
            n == l.len(),
            n <= LCS_MAX_N,
            j <= n + 1,
            row0@.len() == j,
            forall|k: int| 0 <= k < j ==> row0@[k] == lcs_len(l, r, ltr, 0, k as nat),
        decreases n + 1 - j,
    {
        row0.push(0);
        j += 1;
    }
    t.push(row0);
    let mut i: usize = 1;
    while i <= n
        invariant
            n == l.len(),
            n == r.len(),
            n <= LCS_MAX_N,
            l == left@,
            r == right@,
            partners(mapped@, l, ltr),
            1 <= i <= n + 1,
            t@.len() == i,
            forall|a: int| 0 <= a < i ==> (#[trigger] t@[a])@.len() == n + 1,
            forall|a: int, b: int|
                0 <= a < i && 0 <= b <= n ==> #[trigger] t@[a]@[b] == lcs_len(l, r, ltr, a as nat, b as nat),
        decreases n + 1 - i,
    {
        let mut cur: Vec<usize> = Vec::new();
        cur.push(0);
        let mut j: usize = 1;
        while j <= n
            invariant
                n == l.len(),
                n == r.len(),
                n <= LCS_MAX_N,
                l == left@,
                r == right@,
                partners(mapped@, l, ltr),
                1 <= i <= n,
                t@.len() == i,
                forall|a: int| 0 <= a < i ==> (#[trigger] t@[a])@.len() == n + 1,
                forall|a: int, b: int|
                    0 <= a < i && 0 <= b <= n ==> #[trigger] t@[a]@[b] == lcs_len(l, r, ltr, a as nat, b as nat),
                1 <= j <= n + 1,
                cur@.len() == j,
                forall|b: int| 0 <= b < j ==> cur@[b] == lcs_len(l, r, ltr, i as nat, b as nat),
            decreases n + 1 - j,
        {
            proof {
                lemma_lcs_bound(l, r, ltr, (i - 1) as nat, (j - 1) as nat);
            }
            let v = if matched_pair(mapped, right, i - 1, j - 1, Ghost(l), Ghost(ltr)) {
                t[i - 1][j - 1] + 1
            } else {
                let a = t[i - 1][j];
                let b = cur[j - 1];
                if a >= b {
                    a
                } else {
                    b
                }
            };
            cur.push(v);
            j += 1;
        }
        t.push(cur);
        i += 1;
    }
    t
}

/// The anchored left positions, as flags.
fn anchor_flags(left: &Vec<usize>, right: &Vec<usize>, mapped: &Vec<Option<usize>>, Ghost(ltr): Ghost<Seq<(usize, usize)>>) -> (flags: Vec<bool>)
    requires
        left@.len() == right@.len(),
        partners(mapped@, left@, ltr),
    ensures
        flags@.len() == left@.len(),
        forall|k: int| 0 <= k < left@.len() ==> #[trigger] flags@[k] == anchored_set(left@, right@, ltr).contains(k),
{
    let n = left.len();
    let ghost l = left@;
    let ghost r = right@;
    let mut flags: Vec<bool> = Vec::new();
    let mut k: usize = 0;
    while k < n
        invariant
            n == l.len(),
            flags@.len() == k,
            k <= n,
            forall|a: int| 0 <= a < k ==> !flags@[a],
        decreases n - k,
    {
        flags.push(false);
        k += 1;
    }
    if n > LCS_MAX_N {
        return flags;
    }
    let t = lcs_table(left, right, mapped, Ghost(ltr));
    let mut i: usize = n;
    let mut j: usize = n;
    let ghost mut marked: Set<int> = Set::empty();
    assert(anchors(l, r, ltr, n as nat, n as nat) =~= anchors(l, r, ltr, n as nat, n as nat).union(marked));
    while i > 0 && j > 0
        invariant
            n == l.len(),
            n == r.len(),
            n <= LCS_MAX_N,
            l == left@,
            r == right@,
            partners(mapped@, l, ltr),
            i <= n,
            j <= n,
            t@.len() == n + 1,
            forall|a: int| 0 <= a <= n ==> (#[trigger] t@[a])@.len() == n + 1,
            forall|a: int, b: int|
                0 <= a <= n && 0 <= b <= n ==> #[trigger] t@[a]@[b] == lcs_len(l, r, ltr, a as nat, b as nat),
            flags@.len() == n,
            forall|a: int| 0 <= a < n ==> #[trigger] flags@[a] == marked.contains(a),
            anchors(l, r, ltr, n as nat, n as nat) == anchors(l, r, ltr, i as nat, j as nat).union(marked),
        decreases i + j,
    {
        if matched_pair(mapped, right, i - 1, j - 1, Ghost(l), Ghost(ltr)) {
            proof {
                assert(anchors(l, r, ltr, (i - 1) as nat, (j - 1) as nat).union(marked.insert(i - 1))
                    =~= anchors(l, r, ltr, i as nat, j as nat).union(marked));
                marked = marked.insert(i - 1);
            }
            flags.set(i - 1, true);
            i -= 1;
            j -= 1;
        } else if t[i - 1][j] >= t[i][j - 1] {
            i -= 1;
        } else {
            j -= 1;
        }
    }
    assert(anchors(l, r, ltr, n as nat, n as nat) =~= marked);
    flags
}

/// The moves between the ordered lists `left` and `right` of one
/// many-valued reference, given the left-to-right pairs of matched objects.
pub fn detect_moves(left: &Vec<usize>, right: &Vec<usize>, left_to_right: &Vec<(usize, usize)>) -> (res: Vec<MoveEntry>)
    ensures
        res@ == moves(left@, right@, left_to_right@),
{
    let n = left.len();
    if n != right.len() || n == 0 {
        return Vec::new();
    }
    let ghost l = left@;
    let ghost r = right@;
    let ghost ltr = left_to_right@;
    let mut mapped: Vec<Option<usize>> = Vec::new();
    let mut k: usize = 0;
    while k < n
        invariant
            n == l.len(),
            l == left@,
            ltr == left_to_right@,
            k <= n,
            mapped@.len() == k,
            forall|a: int| 0 <= a < k ==> #[trigger] mapped@[a] == lookup(ltr, l[a]),
        decreases n - k,
    {
        mapped.push(lookup_pair(left_to_right, left[k]));
        k += 1;
    }
    let flags = anchor_flags(left, right, &mapped, Ghost(ltr));
    let mut out: Vec<MoveEntry> = Vec::new();
    let mut k: usize = 0;
    while k < n
        invariant
            n == l.len(),
            n == r.len(),
            n > 0,
            l == left@,
            r == right@,
            partners(mapped@, l, ltr),
            flags@.len() == n,
            forall|a: int| 0 <= a < n ==> #[trigger] flags@[a] == anchored_set(l, r, ltr).contains(a),
            k <= n,
            out@ == moves_upto(l, r, ltr, k as nat),
        decreases n - k,
    {
        if !flags[k] {
            if let Some(m) = mapped[k] {
                proof {
                    lemma_last_index(r, m);
                }
                if let Some(j) = last_index_of(right, m) {
                    if n <= LCS_MAX_N || (k as i32) != (j as i32) {
                        out.push(MoveEntry { old_index: k, new_index: j, left: left[k], right: m });
                    }
                }
            }
        }
        k += 1;
    }
    out
}

/// A feature the difference pass compares: not derived, not transient,
/// changeable.
pub open spec fn compared(f: FeatureFacts) -> bool {
    !f.derived && !f.transient && f.changeable
}

/// The pending difference recorded for match `idx`.
pub open spec fn pending_diff<D>(
    kind: DiffKind,
    type_: DiffType,
    name: Seq<char>,
    left: Option<usize>,
    right: Option<usize>,
    source: DifferenceSource,
    old_index: i32,
    new_index: i32,
    old_value: Option<CompareValue<D>>,
    new_value: Option<CompareValue<D>>,
    idx: usize,
) -> DiffModel<CompareValue<D>> {
    DiffModel {
        kind,
        type_,
        attribute_name: name,
        left,
        right,
        source,
        state: DifferenceState::Pending,
        old_index,
        new_index,
        old_value,
        new_value,
        match_index: Some(idx),
    }
}

/// Attribute changes between `l` and `r` over the features `fs`, in order.
pub open spec fn attr_diffs<D: PartialEq>(g: Seq<ObjectFacts<D>>, l: usize, r: usize, idx: usize, fs: Seq<FeatureFacts>) -> Seq<
    DiffModel<CompareValue<D>>,
>
    decreases fs.len(),
{
    if fs.len() == 0 {
        Seq::empty()
    } else {
        let prev = attr_diffs(g, l, r, idx, fs.drop_last());
        let f = fs.last();
        let lv = value_of(g, l, f.name@);
        let rv = value_of(g, r, f.name@);
        if compared(f) && !f.reference && !value_eq_spec(lv, rv) {
            prev.push(
                pending_diff(
                    DiffKind::Change,
                    DiffType::AttributeChange,
                    f.name@,
                    Some(l),
                    Some(r),
                    DifferenceSource::Right,
                    -1i32,
                    -1i32,
                    Some(lv),
                    Some(rv),
                    idx,
                ),
            )
        } else {
            prev
        }
    }
}

/// The single-valued reference values `lv` and `rv` point at matched,
/// resolved objects.
pub open spec fn same_target<D>(g: Seq<ObjectFacts<D>>, ltr: Seq<(usize, usize)>, lv: CompareValue<D>, rv: CompareValue<D>) -> bool {
    match (single_object_of(lv), single_object_of(rv)) {
        (Some(lo), Some(ro)) => !proxy_of(g, lo) && !proxy_of(g, ro) && lookup(ltr, lo) == Some(ro),
        _ => false,
    }
}

/// Changes of single-valued non-containment references between `l` and
/// `r` over the features `fs`, in order.
pub open spec fn ref_diffs<D: PartialEq>(
    g: Seq<ObjectFacts<D>>,
    ltr: Seq<(usize, usize)>,
    l: usize,
    r: usize,
    idx: usize,
    fs: Seq<FeatureFacts>,
) -> Seq<DiffModel<CompareValue<D>>>
    decreases fs.len(),
{
    if fs.len() == 0 {
        Seq::empty()
    } else {
        let prev = ref_diffs(g, ltr, l, r, idx, fs.drop_last());
        let f = fs.last();
        let lv = value_of(g, l, f.name@);
        let rv = value_of(g, r, f.name@);
        if compared(f) && f.reference && !f.many && !f.containment && !value_eq_spec(lv, rv) && !same_target(
            g,
            ltr,
            lv,
            rv,
        ) {
            prev.push(
                pending_diff(
                    DiffKind::Change,
                    DiffType::ReferenceChange,
                    f.name@,
                    Some(l),
                    Some(r),
                    DifferenceSource::Right,
                    -1i32,
                    -1i32,
                    Some(lv),
                    Some(rv),
                    idx,
                ),
            )
        } else {
            prev
        }
    }
}

/// The difference recorded for one detected move in feature `name`.
pub open spec fn move_diff<D>(name: Seq<char>, e: MoveEntry, idx: usize) -> DiffModel<CompareValue<D>> {
    pending_diff(
        DiffKind::Move,
        DiffType::ReferenceChange,
        name,
        Some(e.left),
        Some(e.right),
        DifferenceSource::Right,
        e.old_index as i32,
        e.new_index as i32,
        Some(CompareValue::Object(e.left)),
        Some(CompareValue::Object(e.right)),
        idx,
    )
}

/// Moves in the ordered many-valued references among the features `fs`
/// between `l` and `r`, feature by feature, in order.
pub open spec fn move_diffs<D>(
    g: Seq<ObjectFacts<D>>,
    ltr: Seq<(usize, usize)>,
    l: usize,
    r: usize,
    idx: usize,
    fs: Seq<FeatureFacts>,
) -> Seq<DiffModel<CompareValue<D>>>
    decreases fs.len(),
{
    if fs.len() == 0 {
        Seq::empty()
    } else {
        let prev = move_diffs(g, ltr, l, r, idx, fs.drop_last());
        let f = fs.last();
        if compared(f) && f.reference && f.many && f.ordered {
            let ms = moves(object_list_of(value_of(g, l, f.name@)), object_list_of(value_of(g, r, f.name@)), ltr);
            prev + ms.map_values(|e: MoveEntry| move_diff::<D>(f.name@, e, idx))
        } else {
            prev
        }
    }
}

/// The differences the pass records for match `idx` of `ms`.
pub open spec fn match_diffs<D: PartialEq, S>(ms: Seq<Match<S>>, g: Seq<ObjectFacts<D>>, ltr: Seq<(usize, usize)>, idx: usize) -> Seq<
    DiffModel<CompareValue<D>>,
> {
    let m = ms[idx as int];
    match m.kind_spec() {
        MatchKind::Identical => match (m.left_spec(), m.right_spec()) {
            (Some(l), Some(r)) => move_diffs(g, ltr, l, r, idx, features_of(g, l)),
            _ => Seq::empty(),
        },
        MatchKind::Different => match (m.left_spec(), m.right_spec()) {
            (Some(l), Some(r)) => {
                let fs = features_of(g, l);
                let found = attr_diffs(g, l, r, idx, fs) + ref_diffs(g, ltr, l, r, idx, fs) + move_diffs(
                    g,
                    ltr,
                    l,
                    r,
                    idx,
                    fs,
                );
                if found.len() == 0 && m.diffs_spec().len() == 0 {
                    seq![
                        pending_diff(
                            DiffKind::Change,
                            DiffType::ElementChange,
                            Seq::empty(),
                            Some(l),
                            Some(r),
                            DifferenceSource::Right,
                            -1i32,
                            -1i32,
                            Some(CompareValue::Object(l)),
                            Some(CompareValue::Object(r)),
                            idx,
                        ),
                    ]
                } else {
                    found
                }
            },
            _ => Seq::empty(),
        },
        MatchKind::AbsentLeft => match m.right_spec() {
            Some(r) => seq![
                pending_diff(
                    DiffKind::Add,
                    DiffType::ElementChange,
                    Seq::empty(),
                    None,
                    Some(r),
                    DifferenceSource::Right,
                    -1i32,
                    -1i32,
                    None,
                    Some(CompareValue::Object(r)),
                    idx,
                ),
            ],
            None => Seq::empty(),
        },
        MatchKind::AbsentRight => match m.left_spec() {
            Some(l) => seq![
                pending_diff(
                    DiffKind::Delete,
                    DiffType::ElementChange,
                    Seq::empty(),
                    Some(l),
                    None,
                    DifferenceSource::Left,
                    -1i32,
                    -1i32,
                    Some(CompareValue::Object(l)),
                    None,
                    idx,
                ),
            ],
            None => Seq::empty(),
        },
    }
}

/// The differences the pass records for the first `n` matches, in order.
pub open spec fn diffs_upto<D: PartialEq, S>(ms: Seq<Match<S>>, g: Seq<ObjectFacts<D>>, ltr: Seq<(usize, usize)>, n: nat) -> Seq<
    DiffModel<CompareValue<D>>,
>
    decreases n,
{
    if n == 0 {
        Seq::empty()
    } else {
        diffs_upto(ms, g, ltr, (n - 1) as nat) + match_diffs(ms, g, ltr, (n - 1) as usize)
    }
}

/// `(left, right)` for every match with both sides, in match order.
pub open spec fn left_right_pairs<S>(ms: Seq<Match<S>>) -> Seq<(usize, usize)>
    decreases ms.len(),
{
    if ms.len() == 0 {
        Seq::empty()
    } else {
        let p = left_right_pairs(ms.drop_last());
        let m = ms.last();
        if m.left_spec() is Some && m.right_spec() is Some {
            p.push((m.left_spec()->0, m.right_spec()->0))
        } else {
            p
        }
    }
}

/// `b` is `a` with its values copied.
pub open spec fn diff_agrees<D: Clone>(a: DiffModel<CompareValue<D>>, b: DiffModel<CompareValue<D>>) -> bool {
    &&& DiffModel { old_value: None, new_value: None, ..b } == DiffModel { old_value: None, new_value: None, ..a }
    &&& match a.old_value {
        Some(v) => b.old_value matches Some(w) && value_copy(v, w),
        None => b.old_value is None,
    }
    &&& match a.new_value {
        Some(v) => b.new_value matches Some(w) && value_copy(v, w),
        None => b.new_value is None,
    }
}

/// `s` with the indices `start`, ..., `start + count - 1` added, each unless
/// already present.
pub open spec fn push_range(s: Seq<usize>, start: int, count: nat) -> Seq<usize>
    decreases count,
{
    if count == 0 {
        s
    } else {
        push_unique(push_range(s, start, (count - 1) as nat), (start + count - 1) as usize)
    }
}

/// Adding two consecutive ranges adds their union.
proof fn lemma_push_range_concat(s: Seq<usize>, start: int, a: nat, b: nat)
    ensures
        push_range(push_range(s, start, a), start + a, b) == push_range(s, start, a + b),
    decreases b,
{
    if b > 0 {
        lemma_push_range_concat(s, start, a, (b - 1) as nat);
    }
}

/// `c1` is `c0` with nothing changed but the differences appended to the
/// end and the indices of the appended differences added to match `idx`.
pub open spec fn frame<D, S>(c0: Comparison<CompareValue<D>, S>, c1: Comparison<CompareValue<D>, S>, idx: usize) -> bool {
    &&& c1.differences_spec().len() >= c0.differences_spec().len()
    &&& c1.differences_spec().subrange(0, c0.differences_spec().len() as int) == c0.differences_spec()
    &&& c1.matches_spec().len() == c0.matches_spec().len()
    &&& idx < c0.matches_spec().len()
    &&& forall|i: int| 0 <= i < c0.matches_spec().len() && i != idx ==> #[trigger] c1.matches_spec()[i] == c0.matches_spec()[i]
    &&& c1.matches_spec()[idx as int].left_spec() == c0.matches_spec()[idx as int].left_spec()
    &&& c1.matches_spec()[idx as int].right_spec() == c0.matches_spec()[idx as int].right_spec()
    &&& c1.matches_spec()[idx as int].origin_spec() == c0.matches_spec()[idx as int].origin_spec()
    &&& c1.matches_spec()[idx as int].kind_spec() == c0.matches_spec()[idx as int].kind_spec()
    &&& c1.matches_spec()[idx as int].similarity_spec() == c0.matches_spec()[idx as int].similarity_spec()
    &&& c1.matches_spec()[idx as int].diffs_spec() == push_range(
        c0.matches_spec()[idx as int].diffs_spec(),
        c0.differences_spec().len() as int,
        (c1.differences_spec().len() - c0.differences_spec().len()) as nat,
    )
    &&& c1.conflicts_spec() == c0.conflicts_spec()
    &&& c1.equivalences_spec() == c0.equivalences_spec()
    &&& c1.dependencies_spec() == c0.dependencies_spec()
    &&& c1.three_way_spec() == c0.three_way_spec()
}

/// The differences appended from `c0` to `c1` agree with `es`.
pub open spec fn appended<D: Clone, S>(
    c0: Comparison<CompareValue<D>, S>,
    c1: Comparison<CompareValue<D>, S>,
    es: Seq<DiffModel<CompareValue<D>>>,
) -> bool {
    &&& c1.differences_spec().len() == c0.differences_spec().len() + es.len()
    &&& forall|j: int|
        0 <= j < es.len() ==> diff_agrees(es[j], #[trigger] c1.differences_spec()[c0.differences_spec().len() + j]@)
}

/// Framing composes.
proof fn lemma_frame_trans<D, S>(
    c0: Comparison<CompareValue<D>, S>,
    c1: Comparison<CompareValue<D>, S>,
    c2: Comparison<CompareValue<D>, S>,
    idx: usize,
)
    requires
        frame(c0, c1, idx),
        frame(c1, c2, idx),
    ensures
        frame(c0, c2, idx),
{
    let n0 = c0.differences_spec().len();
    let n1 = c1.differences_spec().len();
    let n2 = c2.differences_spec().len();
    assert(c2.differences_spec().subrange(0, n0 as int) =~= c2.differences_spec().subrange(0, n1 as int).subrange(
        0,
        n0 as int,
    ));
    lemma_push_range_concat(c0.matches_spec()[idx as int].diffs_spec(), n0 as int, (n1 - n0) as nat, (n2 - n1) as nat);
    assert forall|i: int| 0 <= i < c0.matches_spec().len() && i != idx implies #[trigger] c2.matches_spec()[i]
        == c0.matches_spec()[i] by {
        assert(c2.matches_spec()[i] == c1.matches_spec()[i]);
    }
}

/// Appending composes.
proof fn lemma_appended_trans<D: Clone, S>(
    c0: Comparison<CompareValue<D>, S>,
    c1: Comparison<CompareValue<D>, S>,
    c2: Comparison<CompareValue<D>, S>,
    idx: usize,
    e1: Seq<DiffModel<CompareValue<D>>>,
    e2: Seq<DiffModel<CompareValue<D>>>,
)
    requires
        frame(c0, c1, idx),
        frame(c1, c2, idx),
        appended(c0, c1, e1),
        appended(c1, c2, e2),
    ensures
        appended(c0, c2, e1 + e2),
{
    let n0 = c0.differences_spec().len();
    let n1 = c1.differences_spec().len();
    assert forall|j: int| 0 <= j < (e1 + e2).len() implies diff_agrees((e1 + e2)[j], #[trigger] c2.differences_spec()[n0 + j]@) by {
        if j < e1.len() {
            assert(c2.differences_spec().subrange(0, n1 as int)[n0 + j] == c1.differences_spec()[n0 + j]);
        } else {
            assert(c2.differences_spec()[n1 + (j - e1.len())] == c2.differences_spec()[n0 + j]);
        }
    }
}

/// Adding a range never removes an index, and a non-empty range adds one.
proof fn lemma_push_range_len(s: Seq<usize>, start: int, count: nat)
    ensures
        push_range(s, start, count).len() >= s.len(),
        count > 0 ==> push_range(s, start, count).len() > 0,
    decreases count,
{
    if count > 0 {
        lemma_push_range_len(s, start, (count - 1) as nat);
        let p = push_range(s, start, (count - 1) as nat);
        let x = (start + count - 1) as usize;
        if p.contains(x) {
        } else {
            assert(p.push(x).len() == p.len() + 1);
        }
    }
}

/// Record the difference `d` for match `idx`, agreeing with `model` once its
/// match is set.
fn record<D: Clone, S>(comp: &mut Comparison<CompareValue<D>, S>, idx: usize, d: Diff<CompareValue<D>>, Ghost(model): Ghost<DiffModel<CompareValue<D>>>)
    requires
        idx < old(comp).matches_spec().len(),
        diff_agrees(model, DiffModel { match_index: Some(idx), ..d@ }),
    ensures
        frame(*old(comp), *final(comp), idx),
        appended(*old(comp), *final(comp), seq![model]),
{
    let ghost c0 = *comp;
    let k = comp.add_diff_to_match(d, idx);
    proof {
        let c1 = *comp;
        assert(push_range(c0.matches_spec()[idx as int].diffs_spec(), c0.differences_spec().len() as int, 0)
            == c0.matches_spec()[idx as int].diffs_spec());
        assert(push_range(c0.matches_spec()[idx as int].diffs_spec(), c0.differences_spec().len() as int, 1)
            == push_unique(c0.matches_spec()[idx as int].diffs_spec(), k));
        assert(c1.differences_spec()[c0.differences_spec().len() as int + 0] == c1.differences_spec()[k as int]);
    }
}

/// Take `v`, or nothing.
fn or_null<'a, D>(v: Option<&'a CompareValue<D>>, null: &'a CompareValue<D>) -> (r: &'a CompareValue<D>)
    requires
        *null == CompareValue::<D>::Null,
    ensures
        match v {
            Some(x) => *r == *x,
            None => *r == CompareValue::<D>::Null,
        },
{
    match v {
        Some(x) => x,
        None => null,
    }
}

/// Record the attribute changes between `l` and `r` over the features `fs`.
fn diff_attributes<D: PartialEq + Clone, S>(
    comp: &mut Comparison<CompareValue<D>, S>,
    idx: usize,
    l: usize,
    r: usize,
    fs: &Vec<FeatureFacts>,
    graph: &Vec<ObjectFacts<D>>,
)
    requires
        idx < old(comp).matches_spec().len(),
    ensures
        frame(*old(comp), *final(comp), idx),
        D::obeys_eq_spec() ==> appended(*old(comp), *final(comp), attr_diffs(graph@, l, r, idx, fs@)),
{
    let ghost c0 = *comp;
    let null: CompareValue<D> = CompareValue::Null;
    let mut i: usize = 0;
    proof {
        assert(c0.differences_spec().subrange(0, c0.differences_spec().len() as int) =~= c0.differences_spec());
        assert(frame(c0, c0, idx));
    }
    while i < fs.len()
        invariant
            null == CompareValue::<D>::Null,
            idx < c0.matches_spec().len(),
            i <= fs@.len(),
            frame(c0, *comp, idx),
            D::obeys_eq_spec() ==> appended(c0, *comp, attr_diffs(graph@, l, r, idx, fs@.subrange(0, i as int))),
        decreases fs@.len() - i,
    {
        let ghost pre = fs@.subrange(0, i + 1);
        assert(pre.drop_last() =~= fs@.subrange(0, i as int));
        let ghost c1 = *comp;
        let f = &fs[i];
        if !f.derived && !f.transient && f.changeable && !f.reference {
            let a = or_null(value_ref(graph, l, f.name.as_str()), &null);
            let b = or_null(value_ref(graph, r, f.name.as_str()), &null);
            if !value_equal(a, b) {
                let d = Diff::new(DiffKind::Change, f.name.as_str()).with_type(DiffType::AttributeChange).with_left(
                    l,
                ).with_right(r).with_source(DifferenceSource::Right).with_old_value(copy_value(a)).with_new_value(
                    copy_value(b),
                );
                let ghost model = pending_diff(
                    DiffKind::Change,
                    DiffType::AttributeChange,
                    f.name@,
                    Some(l),
                    Some(r),
                    DifferenceSource::Right,
                    -1i32,
                    -1i32,
                    Some(*a),
                    Some(*b),
                    idx,
                );
                record(comp, idx, d, Ghost(model));
                proof {
                    lemma_frame_trans(c0, c1, *comp, idx);
                    if D::obeys_eq_spec() {
                        lemma_appended_trans(c0, c1, *comp, idx, attr_diffs(graph@, l, r, idx, fs@.subrange(0, i as int)), seq![model]);
                    }
                }
            }
        }
        i += 1;
    }
    assert(fs@.subrange(0, fs@.len() as int) =~= fs@);
}

/// Whether the single-valued reference values point at matched, resolved
/// objects (computed).
fn same_target_exec<D>(graph: &Vec<ObjectFacts<D>>, ltr: &Vec<(usize, usize)>, a: &CompareValue<D>, b: &CompareValue<D>) -> (r: bool)
    ensures
        r == same_target(graph@, ltr@, *a, *b),
{
    match (single_object(a), single_object(b)) {
        (Some(lo), Some(ro)) => {
            if is_proxy(graph, lo) || is_proxy(graph, ro) {
                false
            } else {
                match lookup_pair(ltr, lo) {
                    Some(m) => m == ro,
                    None => false,
                }
            }
        },
        _ => false,
    }
}

/// Record the changes of single-valued non-containment references between
/// `l` and `r` over the features `fs`.
fn diff_single_value_references<D: PartialEq + Clone, S>(
    comp: &mut Comparison<CompareValue<D>, S>,
    idx: usize,
    l: usize,
    r: usize,
    fs: &Vec<FeatureFacts>,
    graph: &Vec<ObjectFacts<D>>,
    ltr: &Vec<(usize, usize)>,
)
    requires
        idx < old(comp).matches_spec().len(),
    ensures
        frame(*old(comp), *final(comp), idx),
        D::obeys_eq_spec() ==> appended(*old(comp), *final(comp), ref_diffs(graph@, ltr@, l, r, idx, fs@)),
{
    let ghost c0 = *comp;
    let null: CompareValue<D> = CompareValue::Null;
    let mut i: usize = 0;
    proof {
        assert(c0.differences_spec().subrange(0, c0.differences_spec().len() as int) =~= c0.differences_spec());
        assert(frame(c0, c0, idx));
    }
    while i < fs.len()
        invariant
            null == CompareValue::<D>::Null,
            idx < c0.matches_spec().len(),
            i <= fs@.len(),
            frame(c0, *comp, idx),
            D::obeys_eq_spec() ==> appended(c0, *comp, ref_diffs(graph@, ltr@, l, r, idx, fs@.subrange(0, i as int))),
        decreases fs@.len() - i,
    {
        let ghost pre = fs@.subrange(0, i + 1);
        assert(pre.drop_last() =~= fs@.subrange(0, i as int));
        let ghost c1 = *comp;
        let f = &fs[i];
        if !f.derived && !f.transient && f.changeable && f.reference && !f.many && !f.containment {
            let a = or_null(value_ref(graph, l, f.name.as_str()), &null);
            let b = or_null(value_ref(graph, r, f.name.as_str()), &null);
            if !value_equal(a, b) && !same_target_exec(graph, ltr, a, b) {
                let d = Diff::new(DiffKind::Change, f.name.as_str()).with_type(DiffType::ReferenceChange).with_left(
                    l,
                ).with_right(r).with_source(DifferenceSource::Right).with_old_value(copy_value(a)).with_new_value(
                    copy_value(b),
                );
                let ghost model = pending_diff(
                    DiffKind::Change,
                    DiffType::ReferenceChange,
                    f.name@,
                    Some(l),
                    Some(r),
                    DifferenceSource::Right,
                    -1i32,
                    -1i32,
                    Some(*a),
                    Some(*b),
                    idx,
                );
                record(comp, idx, d, Ghost(model));
                proof {
                    lemma_frame_trans(c0, c1, *comp, idx);
                    if D::obeys_eq_spec() {
                        lemma_appended_trans(
                            c0,
                            c1,
                            *comp,
                            idx,
                            ref_diffs(graph@, ltr@, l, r, idx, fs@.subrange(0, i as int)),
                            seq![model],
                        );
                    }
                }
            }
        }
        i += 1;
    }
    assert(fs@.subrange(0, fs@.len() as int) =~= fs@);
}

/// Record the moves in the ordered many-valued references among the
/// features `fs` between `l` and `r`.
fn diff_moves<D: Clone, S>(
    comp: &mut Comparison<CompareValue<D>, S>,
    idx: usize,
    l: usize,
    r: usize,
    fs: &Vec<FeatureFacts>,
    graph: &Vec<ObjectFacts<D>>,
    ltr: &Vec<(usize, usize)>,
)
    requires
        idx < old(comp).matches_spec().len(),
    ensures
        frame(*old(comp), *final(comp), idx),
        appended(*old(comp), *final(comp), move_diffs(graph@, ltr@, l, r, idx, fs@)),
{
    let ghost c0 = *comp;
    let mut i: usize = 0;
    proof {
        assert(c0.differences_spec().subrange(0, c0.differences_spec().len() as int) =~= c0.differences_spec());
        assert(frame(c0, c0, idx));
    }
    while i < fs.len()
        invariant
            idx < c0.matches_spec().len(),
            i <= fs@.len(),
            frame(c0, *comp, idx),
            appended(c0, *comp, move_diffs(graph@, ltr@, l, r, idx, fs@.subrange(0, i as int))),
        decreases fs@.len() - i,
    {
        let ghost pre = fs@.subrange(0, i + 1);
        assert(pre.drop_last() =~= fs@.subrange(0, i as int));
        let f = &fs[i];
        if !f.derived && !f.transient && f.changeable && f.reference && f.many && f.ordered {
            let left_list = match value_ref(graph, l, f.name.as_str()) {
                Some(v) => object_list(v),
                None => Vec::new(),
            };
            let right_list = match value_ref(graph, r, f.name.as_str()) {
                Some(v) => object_list(v),
                None => Vec::new(),
            };
            let found = detect_moves(&left_list, &right_list, ltr);
            let ghost before = move_diffs(graph@, ltr@, l, r, idx, fs@.subrange(0, i as int));
            let ghost name = f.name@;
            let mut k: usize = 0;
            proof {
                assert(found@.subrange(0, 0).map_values(|e: MoveEntry| move_diff::<D>(name, e, idx)) =~= Seq::<
                    DiffModel<CompareValue<D>>,
                >::empty());
                assert(before + Seq::<DiffModel<CompareValue<D>>>::empty() =~= before);
            }
            while k < found.len()
                invariant
                    idx < c0.matches_spec().len(),
                    name == f.name@,
                    k <= found@.len(),
                    frame(c0, *comp, idx),
                    appended(c0, *comp, before + found@.subrange(0, k as int).map_values(|e: MoveEntry| move_diff::<D>(name, e, idx))),
                decreases found@.len() - k,
            {
                let ghost c1 = *comp;
                let e = found[k];
                let d = Diff::new(DiffKind::Move, f.name.as_str()).with_type(DiffType::ReferenceChange).with_left(
                    e.left,
                ).with_right(e.right).with_source(DifferenceSource::Right).with_old_index(e.old_index as i32).with_new_index(
                    e.new_index as i32,
                ).with_old_value(CompareValue::Object(e.left)).with_new_value(CompareValue::Object(e.right));
                let ghost model = move_diff::<D>(name, e, idx);
                record(comp, idx, d, Ghost(model));
                proof {
                    lemma_frame_trans(c0, c1, *comp, idx);
                    let prev = before + found@.subrange(0, k as int).map_values(|e: MoveEntry| move_diff::<D>(name, e, idx));
                    lemma_appended_trans(c0, c1, *comp, idx, prev, seq![model]);
                    assert(prev + seq![model] =~= before + found@.subrange(0, k + 1).map_values(
                        |e: MoveEntry| move_diff::<D>(name, e, idx),
                    ));
                }
                k += 1;
            }
            proof {
                assert(found@.subrange(0, found@.len() as int) =~= found@);
            }
        }
        i += 1;
    }
    assert(fs@.subrange(0, fs@.len() as int) =~= fs@);
}

/// Nothing changes: a comparison frames and appends nothing to itself.
proof fn lemma_frame_refl<D: Clone, S>(c: Comparison<CompareValue<D>, S>, idx: usize)
    requires
        idx < c.matches_spec().len(),
    ensures
        frame(c, c, idx),
        appended(c, c, Seq::empty()),
{
    assert(c.differences_spec().subrange(0, c.differences_spec().len() as int) =~= c.differences_spec());
}

/// Record the differences of match `idx`: per-feature changes (or, when
/// none is found and the match has none yet, a whole-object change) for a
/// match whose sides differ, moves for one whose sides are identical, an
/// addition for one without left side, a deletion for one without right
/// side.
fn diff_match<D: PartialEq + Clone, S>(
    comp: &mut Comparison<CompareValue<D>, S>,
    idx: usize,
    ltr: &Vec<(usize, usize)>,
    graph: &Vec<ObjectFacts<D>>,
)
    requires
        idx < old(comp).matches_spec().len(),
    ensures
        frame(*old(comp), *final(comp), idx),
        D::obeys_eq_spec() ==> appended(*old(comp), *final(comp), match_diffs(old(comp).matches_spec(), graph@, ltr@, idx)),
{
    let ghost c0 = *comp;
    let ghost g = graph@;
    let (kind, left, right) = {
        let m = &comp.matches()[idx];
        (m.kind(), m.left(), m.right())
    };
    let empty: Vec<FeatureFacts> = Vec::new();
    proof {
        lemma_frame_refl(c0, idx);
    }
    match kind {
        MatchKind::Identical => {
            if let (Some(l), Some(r)) = (left, right) {
                let fs = match crate::emf_compare::support::find_facts(graph, l) {
                    Some(f) => &f.features,
                    None => &empty,
                };
                assert(fs@ == features_of(g, l));
                diff_moves(comp, idx, l, r, fs, graph, ltr);
            }
        },
        MatchKind::Different => {
            if let (Some(l), Some(r)) = (left, right) {
                let fs = match crate::emf_compare::support::find_facts(graph, l) {
                    Some(f) => &f.features,
                    None => &empty,
                };
                assert(fs@ == features_of(g, l));
                diff_attributes(comp, idx, l, r, fs, graph);
                let ghost c1 = *comp;
                diff_single_value_references(comp, idx, l, r, fs, graph, ltr);
                let ghost c2 = *comp;
                diff_moves(comp, idx, l, r, fs, graph, ltr);
                let ghost c3 = *comp;
                let ghost e1 = attr_diffs(g, l, r, idx, fs@);
                let ghost e2 = ref_diffs(g, ltr@, l, r, idx, fs@);
                let ghost e3 = move_diffs(g, ltr@, l, r, idx, fs@);
                proof {
                    lemma_frame_trans(c0, c1, c2, idx);
                    lemma_frame_trans(c0, c2, c3, idx);
                    if D::obeys_eq_spec() {
                        lemma_appended_trans(c0, c1, c2, idx, e1, e2);
                        lemma_appended_trans(c0, c2, c3, idx, e1 + e2, e3);
                    }
                }
                let none_yet = comp.matches()[idx].diff_indices().len() == 0;
                if none_yet {
                    let d = Diff::new(DiffKind::Change, "").with_type(DiffType::ElementChange).with_left(l).with_right(
                        r,
                    ).with_source(DifferenceSource::Right).with_old_value(CompareValue::Object(l)).with_new_value(
                        CompareValue::Object(r),
                    );
                    let ghost model = pending_diff(
                        DiffKind::Change,
                        DiffType::ElementChange,
                        Seq::empty(),
                        Some(l),
                        Some(r),
                        DifferenceSource::Right,
                        -1i32,
                        -1i32,
                        Some(CompareValue::<D>::Object(l)),
                        Some(CompareValue::<D>::Object(r)),
                        idx,
                    );
                    proof {
                        reveal_strlit("");
                        assert(""@ =~= Seq::<char>::empty());
                    }
                    record(comp, idx, d, Ghost(model));
                    proof {
                        lemma_frame_trans(c0, c3, *comp, idx);
                        if D::obeys_eq_spec() {
                            lemma_push_range_len(
                                c0.matches_spec()[idx as int].diffs_spec(),
                                c0.differences_spec().len() as int,
                                (e1 + e2 + e3).len(),
                            );
                            assert((e1 + e2 + e3).len() == 0);
                            lemma_appended_trans(c0, c3, *comp, idx, e1 + e2 + e3, seq![model]);
                            assert(e1 + e2 + e3 + seq![model] =~= seq![model]);
                        }
                    }
                } else {
                    proof {
                        if D::obeys_eq_spec() {
                            lemma_push_range_len(
                                c0.matches_spec()[idx as int].diffs_spec(),
                                c0.differences_spec().len() as int,
                                (e1 + e2 + e3).len(),
                            );
                        }
                    }
                }
            }
        },
        MatchKind::AbsentLeft => {
            if let Some(r) = right {
                let d = Diff::new(DiffKind::Add, "").with_type(DiffType::ElementChange).with_right(r).with_source(
                    DifferenceSource::Right,
                ).with_new_value(CompareValue::Object(r));
                let ghost model = pending_diff(
                    DiffKind::Add,
                    DiffType::ElementChange,
                    Seq::empty(),
                    None,
                    Some(r),
                    DifferenceSource::Right,
                    -1i32,
                    -1i32,
                    None,
                    Some(CompareValue::<D>::Object(r)),
                    idx,
                );
                proof {
                    reveal_strlit("");
                    assert(""@ =~= Seq::<char>::empty());
                }
                record(comp, idx, d, Ghost(model));
            }
        },
        MatchKind::AbsentRight => {
            if let Some(l) = left {
                let d = Diff::new(DiffKind::Delete, "").with_type(DiffType::ElementChange).with_left(l).with_source(
                    DifferenceSource::Left,
                ).with_old_value(CompareValue::Object(l));
                let ghost model = pending_diff(
                    DiffKind::Delete,
                    DiffType::ElementChange,
                    Seq::empty(),
                    Some(l),
                    None,
                    DifferenceSource::Left,
                    -1i32,
                    -1i32,
                    Some(CompareValue::<D>::Object(l)),
                    None,
                    idx,
                );
                proof {
                    reveal_strlit("");
                    assert(""@ =~= Seq::<char>::empty());
                }
                record(comp, idx, d, Ghost(model));
            }
        },
    }
}

/// The `(left, right)` pairs of the matches with both sides (computed).
fn left_right_pair_list<S>(ms: &[Match<S>]) -> (r: Vec<(usize, usize)>)
    ensures
        r@ == left_right_pairs(ms@),
{
    let mut out: Vec<(usize, usize)> = Vec::new();
    let mut i: usize = 0;
    while i < ms.len()
        invariant
            i <= ms@.len(),
            out@ == left_right_pairs(ms@.subrange(0, i as int)),
        decreases ms@.len() - i,
    {
        let ghost pre = ms@.subrange(0, i + 1);
        assert(pre.drop_last() =~= ms@.subrange(0, i as int));
        if let (Some(l), Some(r)) = (ms[i].left(), ms[i].right()) {
            out.push((l, r));
        }
        i += 1;
    }
    assert(ms@.subrange(0, ms@.len() as int) =~= ms@);
    out
}

/// The match at `i` of `b` is that of `a` but for its difference indices.
pub open spec fn same_but_diffs<S>(a: Match<S>, b: Match<S>) -> bool {
    &&& b.left_spec() == a.left_spec()
    &&& b.right_spec() == a.right_spec()
    &&& b.origin_spec() == a.origin_spec()
    &&& b.kind_spec() == a.kind_spec()
    &&& b.similarity_spec() == a.similarity_spec()
}

/// Run the difference pass over every match of the comparison, in match
/// order (`graph` gives the compared objects' features and values): the
/// differences found are appended, each recorded on its match; nothing else
/// changes. The differences are exact for data types whose `==` keeps its
/// specification.
pub fn do_diff<D: PartialEq + Clone, S>(comp: &mut Comparison<CompareValue<D>, S>, graph: &Vec<ObjectFacts<D>>)
    ensures
        final(comp).differences_spec().len() >= old(comp).differences_spec().len(),
        final(comp).differences_spec().subrange(0, old(comp).differences_spec().len() as int) == old(comp).differences_spec(),
        final(comp).matches_spec().len() == old(comp).matches_spec().len(),
        forall|i: int|
            0 <= i < old(comp).matches_spec().len() ==> same_but_diffs(
                old(comp).matches_spec()[i],
                #[trigger] final(comp).matches_spec()[i],
            ),
        final(comp).conflicts_spec() == old(comp).conflicts_spec(),
        final(comp).equivalences_spec() == old(comp).equivalences_spec(),
        final(comp).dependencies_spec() == old(comp).dependencies_spec(),
        final(comp).three_way_spec() == old(comp).three_way_spec(),
        D::obeys_eq_spec() ==> appended(
            *old(comp),
            *final(comp),
            diffs_upto(
                old(comp).matches_spec(),
                graph@,
                left_right_pairs(old(comp).matches_spec()),
                old(comp).matches_spec().len(),
            ),
        ),
        D::obeys_eq_spec() ==> forall|i: int|
            0 <= i < old(comp).matches_spec().len() ==> (#[trigger] final(comp).matches_spec()[i]).diffs_spec()
                == push_range(
                old(comp).matches_spec()[i].diffs_spec(),
                (old(comp).differences_spec().len() + diffs_upto(
                    old(comp).matches_spec(),
                    graph@,
                    left_right_pairs(old(comp).matches_spec()),
                    i as nat,
                ).len()) as int,
                match_diffs(old(comp).matches_spec(), graph@, left_right_pairs(old(comp).matches_spec()), i as usize).len(),
            ),
{
    let ghost c0 = *comp;
    let ghost ms = c0.matches_spec();
    let ghost g = graph@;
    let ltr = left_right_pair_list(comp.matches());
    let n = comp.matches().len();
    let mut idx: usize = 0;
    proof {
        assert(c0.differences_spec().subrange(0, c0.differences_spec().len() as int) =~= c0.differences_spec());
    }
    while idx < n
        invariant
            n == ms.len(),
            ms == c0.matches_spec(),
            g == graph@,
            ltr@ == left_right_pairs(ms),
            idx <= n,
            comp.differences_spec().len() >= c0.differences_spec().len(),
            comp.differences_spec().subrange(0, c0.differences_spec().len() as int) == c0.differences_spec(),
            comp.matches_spec().len() == n,
            forall|i: int| idx <= i < n ==> #[trigger] comp.matches_spec()[i] == ms[i],
            forall|i: int| 0 <= i < n ==> same_but_diffs(ms[i], #[trigger] comp.matches_spec()[i]),
            comp.conflicts_spec() == c0.conflicts_spec(),
            comp.equivalences_spec() == c0.equivalences_spec(),
            comp.dependencies_spec() == c0.dependencies_spec(),
            comp.three_way_spec() == c0.three_way_spec(),
            D::obeys_eq_spec() ==> appended(c0, *comp, diffs_upto(ms, g, ltr@, idx as nat)),
            D::obeys_eq_spec() ==> forall|i: int|
                0 <= i < idx ==> (#[trigger] comp.matches_spec()[i]).diffs_spec() == push_range(
                    ms[i].diffs_spec(),
                    (c0.differences_spec().len() + diffs_upto(ms, g, ltr@, i as nat).len()) as int,
                    match_diffs(ms, g, ltr@, i as usize).len(),
                ),
        decreases n - idx,
    {
        let ghost c1 = *comp;
        diff_match(comp, idx, &ltr, graph);
        proof {
            let c2 = *comp;
            assert(c1.matches_spec()[idx as int] == ms[idx as int]);
            assert(match_diffs(c1.matches_spec(), g, ltr@, idx) == match_diffs(ms, g, ltr@, idx));
            assert(c2.differences_spec().subrange(0, c0.differences_spec().len() as int) =~= c2.differences_spec().subrange(
                0,
                c1.differences_spec().len() as int,
            ).subrange(0, c0.differences_spec().len() as int));
            assert forall|i: int| idx + 1 <= i < n implies #[trigger] c2.matches_spec()[i] == ms[i] by {
                assert(c2.matches_spec()[i] == c1.matches_spec()[i]);
            }
            assert forall|i: int| 0 <= i < n implies same_but_diffs(ms[i], #[trigger] c2.matches_spec()[i]) by {
                if i != idx {
                    assert(c2.matches_spec()[i] == c1.matches_spec()[i]);
                }
            }
            if D::obeys_eq_spec() {
                let before = diffs_upto(ms, g, ltr@, idx as nat);
                let here = match_diffs(ms, g, ltr@, idx);
                assert(diffs_upto(ms, g, ltr@, (idx + 1) as nat) == before + here);
                assert forall|j: int| 0 <= j < (before + here).len() implies diff_agrees(
                    (before + here)[j],
                    #[trigger] c2.differences_spec()[c0.differences_spec().len() + j]@,
                ) by {
                    if j < before.len() {
                        assert(c2.differences_spec().subrange(0, c1.differences_spec().len() as int)[c0.differences_spec().len()
                            + j] == c1.differences_spec()[c0.differences_spec().len() + j]);
                    } else {
                        assert(c2.differences_spec()[c1.differences_spec().len() + (j - before.len())]
                            == c2.differences_spec()[c0.differences_spec().len() + j]);
                    }
                }
                assert forall|i: int| 0 <= i < idx + 1 implies (#[trigger] c2.matches_spec()[i]).diffs_spec() == push_range(
                    ms[i].diffs_spec(),
                    (c0.differences_spec().len() + diffs_upto(ms, g, ltr@, i as nat).len()) as int,
                    match_diffs(ms, g, ltr@, i as usize).len(),
                ) by {
                    if i < idx {
                        assert(c2.matches_spec()[i] == c1.matches_spec()[i]);
                    }
                }
            }
        }
        idx += 1;
    }
}

} // verus!
