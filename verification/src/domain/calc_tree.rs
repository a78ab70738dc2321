//! Calculation-linkbase tree: each parent account with its children in
//! display order and their summation weights (+1 added, −1 subtracted).
//! It is the base of footing every reported subtotal:
//! parent = Σ weight · child.
//!
//! A child's display order is carried as an order key: an integer that sorts
//! exactly as the linkbase's `order` attribute does.

use vstd::prelude::*;
use crate::domain::decimal::{
    Dec, dec_add, dec_eq, dec_mul, dec_sub, decimal_difference, decimal_product, decimal_sum,
    same_value,
};
use crate::seqs::{keep, keyed, lemma_keep_push, lemma_keyed_push, lemma_sorted_insert, sorted_by, stable_sort_of};
use crate::strmap::StrMap;
use crate::text::str_eq;

verus! {

/// One child under a parent: concept id, order key and summation weight.
pub struct CalcChild {
    pub concept_id: String,
    pub order: u64,
    pub weight: i32,
}

/// A child as plain values.
pub open spec fn child_view(c: CalcChild) -> (Seq<char>, u64, i32) {
    (c.concept_id@, c.order, c.weight)
}

pub open spec fn child_views(v: Seq<CalcChild>) -> Seq<(Seq<char>, u64, i32)> {
    v.map_values(|c: CalcChild| child_view(c))
}

/// Sort key of a child: its order key.
pub open spec fn by_order() -> spec_fn((Seq<char>, u64, i32)) -> int {
    |c: (Seq<char>, u64, i32)| c.1 as int
}

/// An arc as plain values: (parent, child, order key, weight).
pub type ArcView = (Seq<char>, Seq<char>, u64, i32);

pub open spec fn arc_views(arcs: Seq<(String, String, u64, i32)>) -> Seq<ArcView> {
    arcs.map_values(|a: (String, String, u64, i32)| (a.0@, a.1@, a.2, a.3))
}

/// The children the arcs give parent `p`, in arc order.
pub open spec fn arc_group(arcs: Seq<ArcView>, p: Seq<char>) -> Seq<(Seq<char>, u64, i32)>
    decreases arcs.len(),
{
    if arcs.len() == 0 {
        Seq::empty()
    } else {
        let g = arc_group(arcs.drop_last(), p);
        let a = arcs.last();
        if a.0 == p {
            g.push((a.1, a.2, a.3))
        } else {
            g
        }
    }
}

/// Some arc has parent `p`.
pub open spec fn is_parent_in(arcs: Seq<ArcView>, p: Seq<char>) -> bool {
    exists|i: int| 0 <= i < arcs.len() && (#[trigger] arcs[i]).0 == p
}

/// The tree the arcs build: the arcs' parents, each with its children
/// stably sorted by order key.
pub open spec fn built_from(t: Map<Seq<char>, Seq<(Seq<char>, u64, i32)>>, arcs: Seq<ArcView>) -> bool {
    &&& forall|p: Seq<char>| t.contains_key(p) <==> is_parent_in(arcs, p)
    &&& forall|p: Seq<char>|
        t.contains_key(p) ==> stable_sort_of(#[trigger] t[p], arc_group(arcs, p), by_order())
}

/// The arcs of a tree, parent by parent in parent order, each parent's
/// children in order.
pub open spec fn parent_arcs(ps: Seq<Seq<char>>, t: Map<Seq<char>, Seq<(Seq<char>, u64, i32)>>) -> Seq<
    ArcView,
>
    decreases ps.len(),
{
    if ps.len() == 0 {
        Seq::empty()
    } else {
        let p = ps.last();
        parent_arcs(ps.drop_last(), t) + t[p].map_values(
            |c: (Seq<char>, u64, i32)| (p, c.0, c.1, c.2),
        )
    }
}

/// The arcs of all trees, tree by tree.
pub open spec fn all_arcs(trees: Seq<CalcTree>) -> Seq<ArcView>
    decreases trees.len(),
{
    if trees.len() == 0 {
        Seq::empty()
    } else {
        all_arcs(trees.drop_last()) + parent_arcs(trees.last().parents(), trees.last().tree())
    }
}

/// The distinct children of the arcs, in order of first appearance.
pub open spec fn first_children(arcs: Seq<ArcView>) -> Seq<Seq<char>>
    decreases arcs.len(),
{
    if arcs.len() == 0 {
        Seq::empty()
    } else {
        let f = first_children(arcs.drop_last());
        if f.contains(arcs.last().1) {
            f
        } else {
            f.push(arcs.last().1)
        }
    }
}

/// How many arcs put child `c` under parent `p`.
pub open spec fn parent_votes(arcs: Seq<ArcView>, c: Seq<char>, p: Seq<char>) -> nat {
    keep(arcs, |a: ArcView| a.1 == c && a.0 == p).len()
}

/// Arcs that give child `c` weight `w`.
pub open spec fn weight_pred(c: Seq<char>, w: i32) -> spec_fn(ArcView) -> bool {
    |a: ArcView| a.1 == c && a.3 == w
}

/// How many arcs give child `c` weight `w`.
pub open spec fn weight_votes(arcs: Seq<ArcView>, c: Seq<char>, w: i32) -> nat {
    keep(arcs, weight_pred(c, w)).len()
}

/// The order keys the arcs give child `c`, in arc order.
pub open spec fn child_orders(arcs: Seq<ArcView>, c: Seq<char>) -> Seq<int> {
    keep(arcs, |a: ArcView| a.1 == c).map_values(|a: ArcView| a.2 as int)
}

/// The identity as a sort key.
pub open spec fn by_value() -> spec_fn(int) -> int {
    |x: int| x
}

/// `a` is the consensus arc of its child among `arcs`: the parent most arcs
/// give it, the median of its order keys (the middle element, rounding up,
/// of the sorted keys) and the weight most arcs give it. Ties between
/// equally frequent parents or weights may go either way.
pub open spec fn consensus_arc(arcs: Seq<ArcView>, a: ArcView) -> bool {
    let c = a.1;
    &&& exists|i: int| 0 <= i < arcs.len() && (#[trigger] arcs[i]).1 == c && arcs[i].0 == a.0
    &&& forall|i: int|
        0 <= i < arcs.len() && (#[trigger] arcs[i]).1 == c ==> parent_votes(arcs, c, arcs[i].0)
            <= parent_votes(arcs, c, a.0)
    &&& exists|sorted: Seq<int>|
        stable_sort_of(sorted, child_orders(arcs, c), by_value()) && a.2 as int == sorted[(
        sorted.len() / 2) as int]
    &&& exists|i: int| 0 <= i < arcs.len() && (#[trigger] arcs[i]).1 == c && arcs[i].3 == a.3
    &&& forall|i: int|
        0 <= i < arcs.len() && (#[trigger] arcs[i]).1 == c ==> weight_votes(arcs, c, arcs[i].3)
            <= weight_votes(arcs, c, a.3)
}

/// Σ weight · value over the children that have a value, with whether any
/// has one; `None` when a product or a partial sum overflows.
pub open spec fn weighted_sum(
    kids: Seq<(Seq<char>, u64, i32)>,
    vals: Map<Seq<char>, (int, int, bool)>,
) -> Option<((int, int, bool), bool)>
    decreases kids.len(),
{
    if kids.len() == 0 {
        Some(((0int, 0int, false), false))
    } else {
        match weighted_sum(kids.drop_last(), vals) {
            None => None,
            Some(acc) => {
                let k = kids.last();
                if vals.contains_key(k.0) {
                    match decimal_product((k.2 as int, 0int, k.2 < 0), vals[k.0]) {
                        Some(prod) => match decimal_sum(acc.0, prod) {
                            Some(s) => Some((s, true)),
                            None => None,
                        },
                        None => None,
                    }
                } else {
                    Some(acc)
                }
            },
        }
    }
}

/// A footing violation as plain values: (parent, Σ weight·child, reported
/// value, reported − sum).
pub type ViolationView = (Seq<char>, (int, int, bool), (int, int, bool), (int, int, bool));

/// The check of parent `p`: `Some(None)` when it foots or cannot be checked
/// (no reported value, no child with a value); `Some(Some(v))` for a
/// violation; `None` when the arithmetic overflows.
pub open spec fn parent_outcome(
    t: Map<Seq<char>, Seq<(Seq<char>, u64, i32)>>,
    vals: Map<Seq<char>, (int, int, bool)>,
    p: Seq<char>,
) -> Option<Option<ViolationView>> {
    if !vals.contains_key(p) {
        Some(None)
    } else {
        match weighted_sum(t[p], vals) {
            None => None,
            Some(acc) => if acc.1 && !same_value(acc.0, vals[p]) {
                match decimal_difference(vals[p], acc.0) {
                    Some(d) => Some(Some((p, acc.0, vals[p], d))),
                    None => None,
                }
            } else {
                Some(None)
            },
        }
    }
}

/// The violations of the parents `ps`, in that order; `None` when any
/// check overflows.
pub open spec fn violations_over(
    ps: Seq<Seq<char>>,
    t: Map<Seq<char>, Seq<(Seq<char>, u64, i32)>>,
    vals: Map<Seq<char>, (int, int, bool)>,
) -> Option<Seq<ViolationView>>
    decreases ps.len(),
{
    if ps.len() == 0 {
        Some(Seq::empty())
    } else {
        match violations_over(ps.drop_last(), t, vals) {
            None => None,
            Some(vs) => match parent_outcome(t, vals, ps.last()) {
                None => None,
                Some(None) => Some(vs),
                Some(Some(v)) => Some(vs.push(v)),
            },
        }
    }
}

/// A reported value that differs from the sum of its children.
pub struct FootingViolation {
    pub concept_id: String,
    /// Σ weight · child.
    pub expected: Dec,
    /// The reported parent value.
    pub actual: Dec,
    /// `actual − expected`.
    pub diff: Dec,
}

pub open spec fn violation_view(v: FootingViolation) -> ViolationView {
    (v.concept_id@, v.expected@, v.actual@, v.diff@)
}

pub open spec fn violation_views(vs: Seq<FootingViolation>) -> Seq<ViolationView> {
    vs.map_values(|v: FootingViolation| violation_view(v))
}

/// Σ weight · value over `kids` (see [`weighted_sum`]).
fn parent_sum(kids: &Vec<CalcChild>, values: &StrMap<Dec>) -> (r: Option<(Dec, bool)>)
    requires
        values.wf(),
    ensures
        match r {
            Some(x) => weighted_sum(child_views(kids@), values@) == Some((x.0@, x.1)),
            None => weighted_sum(child_views(kids@), values@) is None,
        },
{
    let mut sum = Dec::zero();
    let mut any = false;
    let mut i: usize = 0;
    while i < kids.len()
        invariant
            i <= kids@.len(),
            values.wf(),
            weighted_sum(child_views(kids@).take(i as int), values@) == Some((sum@, any)),
        decreases kids@.len() - i,
    {
        let ghost pre = child_views(kids@).take(i as int);
        proof {
            assert(child_views(kids@).take(i + 1).drop_last() =~= pre);
            assert(child_views(kids@).take(i + 1).last() == child_view(kids@[i as int]));
        }
        let ch = &kids[i];
        match values.get(ch.concept_id.as_str()) {
            Some(v) => {
                let w = Dec::from_i64(ch.weight as i64);
                match dec_mul(w, *v) {
                    Some(prod) => match dec_add(sum, prod) {
                        Some(s) => {
                            sum = s;
                            any = true;
                        },
                        None => {
                            proof {
                                lemma_sum_none_stays(child_views(kids@), values@, i as int + 1);
                            }
                            return None;
                        },
                    },
                    None => {
                        proof {
                            lemma_sum_none_stays(child_views(kids@), values@, i as int + 1);
                        }
                        return None;
                    },
                }
            },
            None => {},
        }
        i += 1;
    }
    assert(child_views(kids@).take(kids@.len() as int) =~= child_views(kids@));
    Some((sum, any))
}

/// Once a prefix's sum overflows, the whole sum does.
proof fn lemma_sum_none_stays(
    kids: Seq<(Seq<char>, u64, i32)>,
    vals: Map<Seq<char>, (int, int, bool)>,
    j: int,
)
    requires
        0 <= j <= kids.len(),
        weighted_sum(kids.take(j), vals) is None,
    ensures
        weighted_sum(kids, vals) is None,
    decreases kids.len() - j,
{
    if j < kids.len() {
        assert(kids.take(j + 1).drop_last() =~= kids.take(j));
        lemma_sum_none_stays(kids, vals, j + 1);
    } else {
        assert(kids.take(j) =~= kids);
    }
}

/// Once a prefix's checks overflow, all of them do.
proof fn lemma_violations_none_stays(
    ps: Seq<Seq<char>>,
    t: Map<Seq<char>, Seq<(Seq<char>, u64, i32)>>,
    vals: Map<Seq<char>, (int, int, bool)>,
    j: int,
)
    requires
        0 <= j <= ps.len(),
        violations_over(ps.take(j), t, vals) is None,
    ensures
        violations_over(ps, t, vals) is None,
    decreases ps.len() - j,
{
    if j < ps.len() {
        assert(ps.take(j + 1).drop_last() =~= ps.take(j));
        lemma_violations_none_stays(ps, t, vals, j + 1);
    } else {
        assert(ps.take(j) =~= ps);
    }
}

/// Parent concept id → children ordered by order key.
pub struct CalcTree {
    children: StrMap<Vec<CalcChild>>,
}

/// Inserts `c` after every child whose order key is at most its own.
fn insert_child(v: &mut Vec<CalcChild>, c: CalcChild)
    requires
        sorted_by(child_views(old(v)@), by_order()),
    ensures
        sorted_by(child_views(final(v)@), by_order()),
        forall|k: int|
            #[trigger] keyed(child_views(final(v)@), by_order(), k) == if c.order == k {
                keyed(child_views(old(v)@), by_order(), k).push(child_view(c))
            } else {
                keyed(child_views(old(v)@), by_order(), k)
            },
{
    let ghost s = child_views(v@);
    let mut p: usize = 0;
    while p < v.len() && v[p].order <= c.order
        invariant
            p <= v@.len(),
            s == child_views(v@),
            forall|j: int| 0 <= j < p ==> (by_order())(#[trigger] s[j]) <= c.order,
        decreases v@.len() - p,
    {
        p += 1;
    }
    proof {
        assert forall|j: int| p <= j < s.len() implies (by_order())(#[trigger] s[j]) > c.order by {
            if p < s.len() {
                assert((by_order())(s[p as int]) > c.order);
            }
        }
        lemma_sorted_insert(s, p as int, child_view(c), by_order());
    }
    let ghost cv = child_view(c);
    v.insert(p, c);
    assert(child_views(v@) =~= s.insert(p as int, cv));
}

/// The children stably sorted by order key.
fn sort_children(v: &Vec<CalcChild>) -> (r: Vec<CalcChild>)
    ensures
        stable_sort_of(child_views(r@), child_views(v@), by_order()),
{
    let mut out: Vec<CalcChild> = Vec::new();
    let mut i: usize = 0;
    while i < v.len()
        invariant
            i <= v@.len(),
            stable_sort_of(child_views(out@), child_views(v@).take(i as int), by_order()),
        decreases v@.len() - i,
    {
        let c = CalcChild { concept_id: v[i].concept_id.clone(), order: v[i].order, weight: v[i].weight };
        let ghost cv = child_view(c);
        proof {
            assert(child_views(v@).take(i + 1) =~= child_views(v@).take(i as int).push(cv));
        }
        insert_child(&mut out, c);
        proof {
            let s0 = child_views(v@).take(i as int);
            assert forall|k: int| #[trigger]
                keyed(child_views(out@), by_order(), k) == keyed(s0.push(cv), by_order(), k) by {
                lemma_keyed_push(s0, cv, by_order(), k);
            }
        }
        i += 1;
    }
    assert(child_views(v@).take(v@.len() as int) =~= child_views(v@));
    out
}

impl CalcTree {
    pub closed spec fn wf(&self) -> bool {
        self.children.wf()
    }

    /// Parent → its children as plain values.
    pub closed spec fn tree(&self) -> Map<Seq<char>, Seq<(Seq<char>, u64, i32)>> {
        self.children@.map_values(|v: Seq<CalcChild>| child_views(v))
    }

    /// The parents, in order of first appearance.
    pub closed spec fn parents(&self) -> Seq<Seq<char>> {
        self.children.key_order()
    }

    /// The parents in order name exactly the tree's parents, each once.
    pub proof fn lemma_parents(&self)
        requires
            self.wf(),
        ensures
            forall|i: int|
                0 <= i < self.parents().len() ==> self.tree().contains_key(
                    #[trigger] self.parents()[i],
                ),
            forall|p: Seq<char>|
                self.tree().contains_key(p) ==> exists|i: int|
                    0 <= i < self.parents().len() && #[trigger] self.parents()[i] == p,
            forall|i: int, j: int|
                0 <= i < self.parents().len() && 0 <= j < self.parents().len() && i != j
                    ==> #[trigger] self.parents()[i] != #[trigger] self.parents()[j],
    {
        self.children.lemma_keys();
    }

    /// A tree without arcs.
    pub fn new() -> (r: CalcTree)
        ensures
            r.wf(),
            r.tree() == Map::<Seq<char>, Seq<(Seq<char>, u64, i32)>>::empty(),
            r.parents().len() == 0,
    {
        let r = CalcTree { children: StrMap::new() };
        assert(r.tree() =~= Map::<Seq<char>, Seq<(Seq<char>, u64, i32)>>::empty());
        r
    }

    /// Builds the tree from (parent, child, order key, weight) arcs; each
    /// parent's children are sorted by order key, stably (arcs with equal
    /// keys keep their order).
    pub fn from_arcs(arcs: Vec<(String, String, u64, i32)>) -> (r: CalcTree)
        ensures
            r.wf(),
            built_from(r.tree(), arc_views(arcs@)),
    {
        let mut m: StrMap<Vec<CalcChild>> = StrMap::new();
        let mut i: usize = 0;
        while i < arcs.len()
            invariant
                i <= arcs@.len(),
                m.wf(),
                forall|p: Seq<char>|
                    m@.contains_key(p) <==> is_parent_in(arc_views(arcs@).take(i as int), p),
                forall|p: Seq<char>|
                    m@.contains_key(p) ==> child_views(#[trigger] m@[p]) == arc_group(
                        arc_views(arcs@).take(i as int),
                        p,
                    ),
            decreases arcs@.len() - i,
        {
            let a = &arcs[i];
            let child = CalcChild { concept_id: a.1.clone(), order: a.2, weight: a.3 };
            let ghost cv = child_view(child);
            let ghost before = m@;
            let ghost pre = arc_views(arcs@).take(i as int);
            let ghost post = arc_views(arcs@).take(i + 1);
            proof {
                assert(post.drop_last() =~= pre);
                assert(post.last() == (a.0@, a.1@, a.2, a.3));
            }
            if m.contains_key(a.0.as_str()) {
                let mut v = m.replace(a.0.as_str(), Vec::new());
                let ghost vb = v@;
                v.push(child);
                assert(child_views(v@) =~= child_views(vb).push(cv));
                let _ = m.replace(a.0.as_str(), v);
            } else {
                let mut v: Vec<CalcChild> = Vec::new();
                v.push(child);
                assert(child_views(v@) =~= Seq::<(Seq<char>, u64, i32)>::empty().push(cv));
                assert(arc_group(pre, a.0@) =~= Seq::<(Seq<char>, u64, i32)>::empty()) by {
                    lemma_group_absent(pre, a.0@);
                }
                m.insert(a.0.clone(), v);
            }
            proof {
                assert forall|p: Seq<char>| m@.contains_key(p) <==> is_parent_in(post, p) by {
                    if is_parent_in(post, p) && p != a.0@ {
                        let k = choose|k: int| 0 <= k < post.len() && (#[trigger] post[k]).0 == p;
                        assert(k < pre.len());
                        assert(pre[k] == post[k]);
                    }
                    if is_parent_in(pre, p) {
                        let k = choose|k: int| 0 <= k < pre.len() && (#[trigger] pre[k]).0 == p;
                        assert(post[k] == pre[k]);
                    }
                    if p == a.0@ {
                        assert(post[i as int].0 == a.0@);
                    }
                }
            }
            i += 1;
        }
        assert(arc_views(arcs@).take(arcs@.len() as int) =~= arc_views(arcs@));
        let ghost m1 = m@;
        let ghost ko = m.key_order();
        proof {
            m.lemma_keys();
        }
        let keys = m.keys();
        let n = keys.len();
        assert forall|k: Seq<char>| m1.contains_key(k) implies exists|q: int|
            0 <= q < ko.len() && #[trigger] ko[q] == k by {
            assert(m@.contains_key(k));
        }
        assert(forall|p: Seq<char>| m1.contains_key(p) <==> is_parent_in(arc_views(arcs@), p));
        assert(forall|p: Seq<char>|
            m1.contains_key(p) ==> child_views(#[trigger] m1[p]) == arc_group(arc_views(arcs@), p));
        let mut j: usize = 0;
        while j < n
            invariant
                m.wf(),
                j <= n,
                n == ko.len(),
                keys@.len() == n,
                forall|q: int| 0 <= q < n ==> (#[trigger] keys@[q])@ == ko[q],
                forall|q: int, w: int| 0 <= q < n && 0 <= w < n && q != w ==> #[trigger] ko[q]
                    != #[trigger] ko[w],
                forall|q: int| 0 <= q < n ==> m1.contains_key(#[trigger] ko[q]),
                forall|p: Seq<char>| m@.contains_key(p) <==> m1.contains_key(p),
                forall|q: int|
                    0 <= q < j ==> stable_sort_of(
                        child_views(#[trigger] m@[ko[q]]),
                        child_views(m1[ko[q]]),
                        by_order(),
                    ),
                forall|q: int| j <= q < n ==> #[trigger] m@[ko[q]] == m1[ko[q]],
                forall|k: Seq<char>|
                    m1.contains_key(k) ==> exists|q: int| 0 <= q < ko.len() && #[trigger] ko[q] == k,
                forall|p: Seq<char>| m1.contains_key(p) <==> is_parent_in(arc_views(arcs@), p),
                forall|p: Seq<char>|
                    m1.contains_key(p) ==> child_views(#[trigger] m1[p]) == arc_group(
                        arc_views(arcs@),
                        p,
                    ),
            decreases n - j,
        {
            let v = m.replace(keys[j].as_str(), Vec::new());
            let s = sort_children(&v);
            let _ = m.replace(keys[j].as_str(), s);
            proof {
                assert forall|q: int| 0 <= q < j + 1 implies stable_sort_of(
                    child_views(#[trigger] m@[ko[q]]),
                    child_views(m1[ko[q]]),
                    by_order(),
                ) by {
                    if q < j {
                        assert(ko[q] != ko[j as int]);
                    }
                }
                assert forall|q: int| j + 1 <= q < n implies #[trigger] m@[ko[q]] == m1[ko[q]] by {
                    assert(ko[q] != ko[j as int]);
                }
            }
            j += 1;
        }
        proof {
            assert forall|p: Seq<char>| m@.contains_key(p) implies stable_sort_of(
                child_views(#[trigger] m@[p]),
                arc_group(arc_views(arcs@), p),
                by_order(),
            ) by {
                assert(m1.contains_key(p));
                let q = choose|q: int| 0 <= q < ko.len() && #[trigger] ko[q] == p;
                assert(stable_sort_of(child_views(m@[ko[q]]), child_views(m1[ko[q]]), by_order()));
            }
        }
        let ghost mf = m@;
        let r = CalcTree { children: m };
        proof {
            assert(r.children@ == mf);
            assert forall|p: Seq<char>| r.tree().contains_key(p) <==> is_parent_in(
                arc_views(arcs@),
                p,
            ) by {
                assert(r.tree().contains_key(p) == mf.contains_key(p));
                assert(mf.contains_key(p) == m1.contains_key(p));
                assert(m1.contains_key(p) == is_parent_in(arc_views(arcs@), p));
            }
            assert forall|p: Seq<char>| r.tree().contains_key(p) implies stable_sort_of(
                #[trigger] r.tree()[p],
                arc_group(arc_views(arcs@), p),
                by_order(),
            ) by {
                assert(r.tree()[p] == child_views(mf[p]));
            }
        }
        r
    }

    /// The direct children of `concept_id` by order key; none when it is no
    /// parent.
    pub fn children_of(&self, concept_id: &str) -> (r: &[CalcChild])
        requires
            self.wf(),
        ensures
            child_views(r@) == if self.tree().contains_key(concept_id@) {
                self.tree()[concept_id@]
            } else {
                Seq::<(Seq<char>, u64, i32)>::empty()
            },
    {
        match self.children.get(concept_id) {
            Some(v) => v.as_slice(),
            None => {
                let e: &[CalcChild] = &[];
                assert(child_views(e@) =~= Seq::<(Seq<char>, u64, i32)>::empty());
                e
            },
        }
    }

    /// Whether `id` is some parent's child.
    fn appears_as_child(&self, id: &str) -> (r: bool)
        requires
            self.wf(),
        ensures
            r == is_some_child(self.tree(), id@),
    {
        proof {
            self.lemma_parents();
        }
        let n = self.children.len();
        let mut i: usize = 0;
        while i < n
            invariant
                self.wf(),
                i <= n,
                n == self.parents().len(),
                forall|q: int| 0 <= q < n ==> self.tree().contains_key(#[trigger] self.parents()[q]),
                forall|p: Seq<char>|
                    self.tree().contains_key(p) ==> exists|q: int|
                        0 <= q < n && #[trigger] self.parents()[q] == p,
                forall|q: int, t: int|
                    0 <= q < i && 0 <= t < self.tree()[self.parents()[q]].len() ==> (#[trigger] self.tree()[self.parents()[q]][t]).0
                        != id@,
            decreases n - i,
        {
            let (_k, kids) = self.children.entry_at(i);
            let mut t: usize = 0;
            while t < kids.len()
                invariant
                    t <= kids@.len(),
                    i < n,
                    self.tree().contains_key(self.parents()[i as int]),
                    child_views(kids@) == self.tree()[self.parents()[i as int]],
                    forall|u: int| 0 <= u < t ==> (#[trigger] kids@[u]).concept_id@ != id@,
                decreases kids@.len() - t,
            {
                if str_eq(kids[t].concept_id.as_str(), id) {
                    proof {
                        let p = self.parents()[i as int];
                        assert(self.tree().contains_key(p));
                        assert(child_views(kids@).len() == kids@.len());
                        assert(self.tree()[p][t as int] == child_view(kids@[t as int]));
                        assert(self.tree().contains_key(p) && 0 <= t < self.tree()[p].len() && (
                        self.tree()[p][t as int]).0 == id@);
                    }
                    return true;
                }
                t += 1;
            }
            proof {
                assert forall|u: int| 0 <= u < self.tree()[self.parents()[i as int]].len() implies (
                #[trigger] self.tree()[self.parents()[i as int]][u]).0 != id@ by {
                    assert(self.tree()[self.parents()[i as int]][u] == child_view(kids@[u]));
                }
            }
            i += 1;
        }
        proof {
            if is_some_child(self.tree(), id@) {
                let (p, t) = choose|p: Seq<char>, t: int|
                    self.tree().contains_key(p) && 0 <= t < self.tree()[p].len() && (#[trigger] self.tree()[p][t]).0 == id@;
                let q = choose|q: int| 0 <= q < n && #[trigger] self.parents()[q] == p;
                assert((self.tree()[self.parents()[q]][t]).0 != id@);
            }
        }
        false
    }

    /// The top-level accounts: parents that are no parent's child, in order
    /// of first appearance.
    pub fn roots(&self) -> (r: Vec<&str>)
        requires
            self.wf(),
        ensures
            r@.map_values(|s: &str| s@) == keep(
                self.parents(),
                |k: Seq<char>| !is_some_child(self.tree(), k),
            ),
    {
        let n = self.children.len();
        let ghost pred = |k: Seq<char>| !is_some_child(self.tree(), k);
        let mut out: Vec<&str> = Vec::new();
        let mut j: usize = 0;
        while j < n
            invariant
                self.wf(),
                j <= n,
                n == self.parents().len(),
                pred == (|k: Seq<char>| !is_some_child(self.tree(), k)),
                out@.map_values(|s: &str| s@) == keep(self.parents().take(j as int), pred),
            decreases n - j,
        {
            let (k, _kids) = self.children.entry_at(j);
            proof {
                assert(self.parents().take(j + 1) =~= self.parents().take(j as int).push(k@));
                lemma_keep_push(self.parents().take(j as int), k@, pred);
            }
            if !self.appears_as_child(k.as_str()) {
                let ghost before = out@;
                out.push(k.as_str());
                assert(out@.map_values(|s: &str| s@) =~= before.map_values(|s: &str| s@).push(k@));
            }
            j += 1;
        }
        assert(self.parents().take(n as int) =~= self.parents());
        out
    }

    /// Footing check of every reported subtotal: the parents whose reported
    /// value differs from Σ weight · child (children without a value are left
    /// out; a parent without a value, or none of whose children has one, is
    /// not checked), in parent order; `None` when the arithmetic overflows.
    pub fn try_footing_violations(&self, values: &StrMap<Dec>) -> (r: Option<Vec<FootingViolation>>)
        requires
            self.wf(),
            values.wf(),
        ensures
            match r {
                Some(v) => violations_over(self.parents(), self.tree(), values@) == Some(
                    violation_views(v@),
                ),
                None => violations_over(self.parents(), self.tree(), values@) is None,
            },
    {
        let n = self.children.len();
        let mut out: Vec<FootingViolation> = Vec::new();
        let mut j: usize = 0;
        while j < n
            invariant
                self.wf(),
                values.wf(),
                j <= n,
                n == self.parents().len(),
                violations_over(self.parents().take(j as int), self.tree(), values@) == Some(
                    violation_views(out@),
                ),
            decreases n - j,
        {
            let (p, kids) = self.children.entry_at(j);
            let ghost ps = self.parents();
            proof {
                assert(ps.take(j + 1).drop_last() =~= ps.take(j as int));
                assert(ps.take(j + 1).last() == p@);
                assert(self.tree()[p@] == child_views(kids@));
            }
            match values.get(p.as_str()) {
                None => {},
                Some(actual) => {
                    match parent_sum(kids, values) {
                        None => {
                            proof {
                                lemma_violations_none_stays(ps, self.tree(), values@, j + 1);
                            }
                            return None;
                        },
                        Some((sum, any)) => {
                            if any && !dec_eq(sum, *actual) {
                                match dec_sub(*actual, sum) {
                                    Some(d) => {
                                        let v = FootingViolation {
                                            concept_id: p.clone(),
                                            expected: sum,
                                            actual: *actual,
                                            diff: d,
                                        };
                                        let ghost before = out@;
                                        out.push(v);
                                        assert(violation_views(out@) =~= violation_views(before).push(
                                            violation_view(v),
                                        ));
                                    },
                                    None => {
                                        proof {
                                            lemma_violations_none_stays(ps, self.tree(), values@, j + 1);
                                        }
                                        return None;
                                    },
                                }
                            }
                        },
                    }
                },
            }
            j += 1;
        }
        assert(self.parents().take(n as int) =~= self.parents());
        Some(out)
    }

    /// [`try_footing_violations`](Self::try_footing_violations) where the
    /// arithmetic does not overflow (an overflow panics in decimal
    /// arithmetic).
    pub fn footing_violations(&self, values: &StrMap<Dec>) -> (r: Vec<FootingViolation>)
        requires
            self.wf(),
            values.wf(),
            violations_over(self.parents(), self.tree(), values@) is Some,
        ensures
            violations_over(self.parents(), self.tree(), values@) == Some(violation_views(r@)),
    {
        match self.try_footing_violations(values) {
            Some(v) => v,
            None => Vec::new(),
        }
    }

    /// The parents, in order of first appearance.
    pub fn parent_ids(&self) -> (r: Vec<String>)
        requires
            self.wf(),
        ensures
            r@.len() == self.parents().len(),
            forall|i: int| 0 <= i < r@.len() ==> (#[trigger] r@[i])@ == self.parents()[i],
    {
        self.children.keys()
    }

    /// Whether the tree has no parent.
    pub fn is_empty(&self) -> (r: bool)
        requires
            self.wf(),
        ensures
            r == (self.tree().dom() == Set::<Seq<char>>::empty()),
    {
        let e = self.children.is_empty();
        proof {
            assert(self.children@.dom() =~= self.tree().dom());
            if !e {
                if self.tree().dom() =~= Set::<Seq<char>>::empty() {
                    assert(self.children@ =~= Map::<Seq<char>, Seq<CalcChild>>::empty());
                }
            } else {
                assert(self.tree().dom() =~= Set::<Seq<char>>::empty());
            }
        }
        e
    }
}

proof fn lemma_keep_nonempty<T>(s: Seq<T>, p: spec_fn(T) -> bool, i: int)
    requires
        0 <= i < s.len(),
        p(s[i]),
    ensures
        keep(s, p).len() > 0,
    decreases s.len(),
{
    if i < s.len() - 1 {
        assert(s.drop_last()[i] == s[i]);
        lemma_keep_nonempty(s.drop_last(), p, i);
    }
}

proof fn lemma_first_children_appear(arcs: Seq<ArcView>)
    ensures
        forall|k: int|
            0 <= k < first_children(arcs).len() ==> exists|i: int|
                0 <= i < arcs.len() && (#[trigger] arcs[i]).1 == #[trigger] first_children(arcs)[k],
    decreases arcs.len(),
{
    if arcs.len() > 0 {
        let d = arcs.drop_last();
        lemma_first_children_appear(d);
        let f = first_children(d);
        assert forall|k: int| 0 <= k < first_children(arcs).len() implies exists|i: int|
            0 <= i < arcs.len() && (#[trigger] arcs[i]).1 == #[trigger] first_children(arcs)[k] by {
            if k < f.len() {
                assert(first_children(arcs)[k] == f[k]);
                let i = choose|i: int| 0 <= i < d.len() && (#[trigger] d[i]).1 == f[k];
                assert(arcs[i] == d[i]);
            } else {
                assert(arcs[arcs.len() - 1].1 == first_children(arcs)[k]);
            }
        }
    }
}

/// Whether `x` is among the strings of `v`.
fn has_string(v: &Vec<String>, x: &str) -> (r: bool)
    ensures
        r == v@.map_values(|s: String| s@).contains(x@),
{
    let mut i: usize = 0;
    while i < v.len()
        invariant
            i <= v@.len(),
            forall|j: int| 0 <= j < i ==> (#[trigger] v@[j])@ != x@,
        decreases v@.len() - i,
    {
        if str_eq(v[i].as_str(), x) {
            assert(v@.map_values(|s: String| s@)[i as int] == x@);
            return true;
        }
        i += 1;
    }
    assert(!v@.map_values(|s: String| s@).contains(x@)) by {
        if v@.map_values(|s: String| s@).contains(x@) {
            let mv = v@.map_values(|s: String| s@);
            let j = choose|j: int| 0 <= j < mv.len() && #[trigger] mv[j] == x@;
            assert(v@[j]@ == x@);
        }
    }
    false
}

/// The distinct children of the arcs, in order of first appearance.
fn distinct_children(arcs: &Vec<(String, String, u64, i32)>) -> (r: Vec<String>)
    ensures
        r@.map_values(|s: String| s@) == first_children(arc_views(arcs@)),
{
    let mut out: Vec<String> = Vec::new();
    let mut i: usize = 0;
    while i < arcs.len()
        invariant
            i <= arcs@.len(),
            out@.map_values(|s: String| s@) == first_children(arc_views(arcs@).take(i as int)),
        decreases arcs@.len() - i,
    {
        let ghost pre = arc_views(arcs@).take(i as int);
        proof {
            assert(arc_views(arcs@).take(i + 1).drop_last() =~= pre);
            assert(arc_views(arcs@).take(i + 1).last().1 == arcs@[i as int].1@);
        }
        if !has_string(&out, arcs[i].1.as_str()) {
            let ghost before = out@;
            out.push(arcs[i].1.clone());
            assert(out@.map_values(|s: String| s@) =~= before.map_values(|s: String| s@).push(
                arcs@[i as int].1@,
            ));
        }
        i += 1;
    }
    assert(arc_views(arcs@).take(arcs@.len() as int) =~= arc_views(arcs@));
    out
}

/// How many arcs put child `c` under parent `p`.
fn count_parent(arcs: &Vec<(String, String, u64, i32)>, c: &str, p: &str) -> (r: usize)
    ensures
        r == parent_votes(arc_views(arcs@), c@, p@),
{
    let ghost pred = |a: ArcView| a.1 == c@ && a.0 == p@;
    let mut n: usize = 0;
    let mut i: usize = 0;
    while i < arcs.len()
        invariant
            i <= arcs@.len(),
            pred == (|a: ArcView| a.1 == c@ && a.0 == p@),
            n == keep(arc_views(arcs@).take(i as int), pred).len(),
            n <= i,
        decreases arcs@.len() - i,
    {
        proof {
            assert(arc_views(arcs@).take(i + 1) =~= arc_views(arcs@).take(i as int).push(
                arc_views(arcs@)[i as int],
            ));
            lemma_keep_push(arc_views(arcs@).take(i as int), arc_views(arcs@)[i as int], pred);
        }
        if str_eq(arcs[i].1.as_str(), c) && str_eq(arcs[i].0.as_str(), p) {
            n += 1;
        }
        i += 1;
    }
    assert(arc_views(arcs@).take(arcs@.len() as int) =~= arc_views(arcs@));
    assert(pred =~= (|a: ArcView| a.1 == c@ && a.0 == p@));
    n
}

/// How many arcs give child `c` weight `w`.
fn count_weight(arcs: &Vec<(String, String, u64, i32)>, c: &str, w: i32) -> (r: usize)
    ensures
        r == weight_votes(arc_views(arcs@), c@, w),
{
    let ghost pred = weight_pred(c@, w);
    let mut n: usize = 0;
    let mut i: usize = 0;
    while i < arcs.len()
        invariant
            i <= arcs@.len(),
            pred == weight_pred(c@, w),
            n == keep(arc_views(arcs@).take(i as int), pred).len(),
            n <= i,
        decreases arcs@.len() - i,
    {
        proof {
            assert(arc_views(arcs@).take(i + 1) =~= arc_views(arcs@).take(i as int).push(
                arc_views(arcs@)[i as int],
            ));
            lemma_keep_push(arc_views(arcs@).take(i as int), arc_views(arcs@)[i as int], pred);
        }
        if str_eq(arcs[i].1.as_str(), c) && arcs[i].3 == w {
            n += 1;
        }
        i += 1;
    }
    assert(arc_views(arcs@).take(arcs@.len() as int) =~= arc_views(arcs@));
    n
}

pub open spec fn key_ints(v: Seq<u64>) -> Seq<int> {
    v.map_values(|x: u64| x as int)
}

/// Inserts `x` after every key at most `x`.
fn insert_key(v: &mut Vec<u64>, x: u64)
    requires
        sorted_by(key_ints(old(v)@), by_value()),
    ensures
        final(v)@.len() == old(v)@.len() + 1,
        sorted_by(key_ints(final(v)@), by_value()),
        forall|k: int|
            #[trigger] keyed(key_ints(final(v)@), by_value(), k) == if x == k {
                keyed(key_ints(old(v)@), by_value(), k).push(x as int)
            } else {
                keyed(key_ints(old(v)@), by_value(), k)
            },
{
    let ghost s = key_ints(v@);
    let mut p: usize = 0;
    while p < v.len() && v[p] <= x
        invariant
            p <= v@.len(),
            s == key_ints(v@),
            forall|j: int| 0 <= j < p ==> (by_value())(#[trigger] s[j]) <= x,
        decreases v@.len() - p,
    {
        p += 1;
    }
    proof {
        assert forall|j: int| p <= j < s.len() implies (by_value())(#[trigger] s[j]) > x by {
            if p < s.len() {
                assert((by_value())(s[p as int]) > x);
            }
        }
        lemma_sorted_insert(s, p as int, x as int, by_value());
    }
    v.insert(p, x);
    assert(key_ints(v@) =~= s.insert(p as int, x as int));
}

/// The median order key of child `c`: the middle element (rounding up) of
/// its sorted order keys.
fn median_order(arcs: &Vec<(String, String, u64, i32)>, c: &str) -> (r: u64)
    requires
        exists|i: int| 0 <= i < arcs@.len() && (#[trigger] arcs@[i]).1@ == c@,
    ensures
        exists|sorted: Seq<int>|
            stable_sort_of(sorted, child_orders(arc_views(arcs@), c@), by_value()) && r as int
                == sorted[(sorted.len() / 2) as int],
{
    let ghost pred = |a: ArcView| a.1 == c@;
    let ghost av = arc_views(arcs@);
    let mut sorted: Vec<u64> = Vec::new();
    let mut i: usize = 0;
    while i < arcs.len()
        invariant
            i <= arcs@.len(),
            av == arc_views(arcs@),
            pred == (|a: ArcView| a.1 == c@),
            stable_sort_of(
                key_ints(sorted@),
                keep(av.take(i as int), pred).map_values(|a: ArcView| a.2 as int),
                by_value(),
            ),
            sorted@.len() == keep(av.take(i as int), pred).len(),
        decreases arcs@.len() - i,
    {
        let ghost s0 = keep(av.take(i as int), pred);
        proof {
            assert(av.take(i + 1) =~= av.take(i as int).push(av[i as int]));
            lemma_keep_push(av.take(i as int), av[i as int], pred);
        }
        if str_eq(arcs[i].1.as_str(), c) {
            let x = arcs[i].2;
            insert_key(&mut sorted, x);
            proof {
                let m0 = s0.map_values(|a: ArcView| a.2 as int);
                assert(s0.push(av[i as int]).map_values(|a: ArcView| a.2 as int) =~= m0.push(x as int));
                assert forall|k: int| #[trigger]
                    keyed(key_ints(sorted@), by_value(), k) == keyed(m0.push(x as int), by_value(), k) by {
                    lemma_keyed_push(m0, x as int, by_value(), k);
                }
            }
        }
        i += 1;
    }
    assert(av.take(arcs@.len() as int) =~= av);
    proof {
        let w = choose|w: int| 0 <= w < arcs@.len() && (#[trigger] arcs@[w]).1@ == c@;
        assert(av[w].1 == c@);
        lemma_keep_nonempty(av, pred, w);
    }
    let m = sorted[sorted.len() / 2];
    assert(key_ints(sorted@)[(sorted@.len() / 2) as int] == m as int);
    assert(pred =~= (|a: ArcView| a.1 == c@));
    assert(keep(av, pred).map_values(|a: ArcView| a.2 as int) == child_orders(av, c@));
    assert(key_ints(sorted@).len() == sorted@.len());
    assert(stable_sort_of(key_ints(sorted@), child_orders(av, c@), by_value()) && m as int
        == key_ints(sorted@)[(key_ints(sorted@).len() / 2) as int]);
    m
}

impl CalcTree {
    /// Appends this tree's arcs, parent by parent.
    fn push_arcs(&self, arcs: &mut Vec<(String, String, u64, i32)>)
        requires
            self.wf(),
        ensures
            arc_views(final(arcs)@) == arc_views(old(arcs)@) + parent_arcs(self.parents(), self.tree()),
    {
        let ghost base = arc_views(arcs@);
        let n = self.children.len();
        let mut j: usize = 0;
        assert(base + parent_arcs(self.parents().take(0), self.tree()) =~= base);
        while j < n
            invariant
                self.wf(),
                j <= n,
                n == self.parents().len(),
                arc_views(arcs@) == base + parent_arcs(self.parents().take(j as int), self.tree()),
            decreases n - j,
        {
            let (p, kids) = self.children.entry_at(j);
            let ghost ps = self.parents();
            let ghost kv = self.tree()[p@];
            let ghost head = arc_views(arcs@);
            proof {
                assert(ps.take(j + 1).drop_last() =~= ps.take(j as int));
                assert(ps.take(j + 1).last() == p@);
                assert(kv == child_views(kids@));
            }
            let mut k: usize = 0;
            while k < kids.len()
                invariant
                    k <= kids@.len(),
                    kv == child_views(kids@),
                    arc_views(arcs@) == head + kv.take(k as int).map_values(
                        |c: (Seq<char>, u64, i32)| (p@, c.0, c.1, c.2),
                    ),
                decreases kids@.len() - k,
            {
                let ghost before = arc_views(arcs@);
                arcs.push((p.clone(), kids[k].concept_id.clone(), kids[k].order, kids[k].weight));
                assert(arc_views(arcs@) =~= head + kv.take(k + 1).map_values(
                    |c: (Seq<char>, u64, i32)| (p@, c.0, c.1, c.2),
                )) by {
                    assert(kv.take(k + 1) =~= kv.take(k as int).push(kv[k as int]));
                    assert(arc_views(arcs@) =~= before.push(
                        (p@, kids@[k as int].concept_id@, kids@[k as int].order, kids@[k as int].weight),
                    ));
                }
                k += 1;
            }
            assert(kv.take(kids@.len() as int) =~= kv);
            proof {
                assert(arc_views(arcs@) =~= base + parent_arcs(ps.take(j + 1), self.tree()));
            }
            j += 1;
        }
        assert(self.parents().take(n as int) =~= self.parents());
    }

    /// The consensus of several companies' trees: for every child account,
    /// in order of first appearance, one arc with the parent most trees give
    /// it, the median of its order keys and the weight most trees give it;
    /// minority placements are dropped.
    pub fn consensus(trees: &[CalcTree]) -> (r: CalcTree)
        requires
            forall|t: int| 0 <= t < trees@.len() ==> (#[trigger] trees@[t]).wf(),
        ensures
            r.wf(),
            exists|res: Seq<ArcView>|
                {
                    &&& res.len() == first_children(all_arcs(trees@)).len()
                    &&& forall|k: int|
                        0 <= k < res.len() ==> (#[trigger] res[k]).1 == first_children(
                            all_arcs(trees@),
                        )[k] && consensus_arc(all_arcs(trees@), res[k])
                    &&& built_from(r.tree(), res)
                },
    {
        let mut arcs: Vec<(String, String, u64, i32)> = Vec::new();
        let mut t: usize = 0;
        while t < trees.len()
            invariant
                t <= trees@.len(),
                forall|q: int| 0 <= q < trees@.len() ==> (#[trigger] trees@[q]).wf(),
                arc_views(arcs@) == all_arcs(trees@.take(t as int)),
            decreases trees@.len() - t,
        {
            proof {
                assert(trees@.take(t + 1).drop_last() =~= trees@.take(t as int));
                assert(trees@.take(t + 1).last() == trees@[t as int]);
            }
            trees[t].push_arcs(&mut arcs);
            t += 1;
        }
        assert(trees@.take(trees@.len() as int) =~= trees@);
        let ghost av = arc_views(arcs@);
        let kids = distinct_children(&arcs);
        proof {
            lemma_first_children_appear(av);
        }
        let mut res: Vec<(String, String, u64, i32)> = Vec::new();
        let mut k: usize = 0;
        while k < kids.len()
            invariant
                k <= kids@.len(),
                av == arc_views(arcs@),
                kids@.map_values(|s: String| s@) == first_children(av),
                forall|q: int|
                    0 <= q < first_children(av).len() ==> exists|i: int|
                        0 <= i < av.len() && (#[trigger] av[i]).1 == #[trigger] first_children(av)[q],
                res@.len() == k,
                forall|q: int|
                    0 <= q < k ==> (#[trigger] arc_views(res@)[q]).1 == first_children(av)[q]
                        && consensus_arc(av, arc_views(res@)[q]),
            decreases kids@.len() - k,
        {
            let c = kids[k].as_str();
            let ghost cv = c@;
            proof {
                assert(first_children(av)[k as int] == cv);
                let w = choose|i: int| 0 <= i < av.len() && (#[trigger] av[i]).1 == first_children(av)[k as int];
                assert(arcs@[w].1@ == cv);
            }
            let mut best_p: usize = 0;
            let mut best_pn: usize = 0;
            let mut best_w: usize = 0;
            let mut best_wn: usize = 0;
            let mut found = false;
            let mut i: usize = 0;
            while i < arcs.len()
                invariant
                    i <= arcs@.len(),
                    av == arc_views(arcs@),
                    cv == c@,
                    found ==> best_p < arcs@.len() && av[best_p as int].1 == cv
                        && best_pn == parent_votes(av, cv, av[best_p as int].0),
                    found ==> best_w < arcs@.len() && av[best_w as int].1 == cv
                        && best_wn == weight_votes(av, cv, av[best_w as int].3),
                    forall|q: int|
                        0 <= q < i && (#[trigger] av[q]).1 == cv ==> found && parent_votes(
                            av,
                            cv,
                            av[q].0,
                        ) <= best_pn && weight_votes(av, cv, av[q].3) <= best_wn,
                    (exists|q: int| 0 <= q < i && (#[trigger] av[q]).1 == cv) ==> found,
                decreases arcs@.len() - i,
            {
                assert(av[i as int] == (arcs@[i as int].0@, arcs@[i as int].1@, arcs@[i as int].2,
                    arcs@[i as int].3));
                if str_eq(arcs[i].1.as_str(), c) {
                    let np = count_parent(&arcs, c, arcs[i].0.as_str());
                    let nw = count_weight(&arcs, c, arcs[i].3);
                    if !found || np >= best_pn {
                        best_p = i;
                        best_pn = np;
                    }
                    if !found || nw >= best_wn {
                        best_w = i;
                        best_wn = nw;
                    }
                    found = true;
                }
                i += 1;
            }
            proof {
                let w = choose|q: int| 0 <= q < av.len() && (#[trigger] av[q]).1 == first_children(av)[k as int];
                assert(av[w].1 == cv);
            }
            let order = median_order(&arcs, c);
            let arc = (arcs[best_p].0.clone(), c.to_string(), order, arcs[best_w].3);
            let ghost before = res@;
            res.push(arc);
            proof {
                let a = arc_views(res@)[k as int];
                assert(a == (av[best_p as int].0, cv, order, av[best_w as int].3));
                assert forall|q: int| 0 <= q < k + 1 implies (#[trigger] arc_views(res@)[q]).1
                    == first_children(av)[q] && consensus_arc(av, arc_views(res@)[q]) by {
                    if q < k {
                        assert(arc_views(res@)[q] == arc_views(before)[q]);
                    } else {
                        assert(av[best_p as int].1 == cv && av[best_p as int].0 == a.0);
                        assert(av[best_w as int].1 == cv && av[best_w as int].3 == a.3);
                    }
                }
            }
            k += 1;
        }
        let ghost rv = arc_views(res@);
        let r = CalcTree::from_arcs(res);
        proof {
            assert(rv.len() == first_children(av).len());
        }
        r
    }
}

/// `id` appears as some parent's child.
pub open spec fn is_some_child(t: Map<Seq<char>, Seq<(Seq<char>, u64, i32)>>, id: Seq<char>) -> bool {
    exists|p: Seq<char>, i: int| t.contains_key(p) && 0 <= i < t[p].len() && (#[trigger] t[p][i]).0 == id
}

proof fn lemma_group_absent(arcs: Seq<ArcView>, p: Seq<char>)
    requires
        !is_parent_in(arcs, p),
    ensures
        arc_group(arcs, p) == Seq::<(Seq<char>, u64, i32)>::empty(),
    decreases arcs.len(),
{
    if arcs.len() > 0 {
        assert(arcs[arcs.len() - 1].0 != p);
        assert(!is_parent_in(arcs.drop_last(), p)) by {
            if is_parent_in(arcs.drop_last(), p) {
                let k = choose|k: int| 0 <= k < arcs.drop_last().len() && (#[trigger] arcs.drop_last()[k]).0 == p;
                assert(arcs[k] == arcs.drop_last()[k]);
            }
        }
        lemma_group_absent(arcs.drop_last(), p);
    }
}

proof fn lemma_sum_of_unvalued(kids: Seq<(Seq<char>, u64, i32)>, vals: Map<Seq<char>, (int, int, bool)>)
    requires
        forall|i: int| 0 <= i < kids.len() ==> !vals.contains_key(#[trigger] kids[i].0),
    ensures
        weighted_sum(kids, vals) == Some::<((int, int, bool), bool)>(((0int, 0int, false), false)),
    decreases kids.len(),
{
    if kids.len() > 0 {
        lemma_sum_of_unvalued(kids.drop_last(), vals);
        assert(!vals.contains_key(kids[kids.len() - 1].0));
    }
}

/// A parent none of whose children has a value is never flagged: there is
/// nothing to add up, whatever the parent reports.
pub proof fn law_unvalued_children_not_flagged(
    t: Map<Seq<char>, Seq<(Seq<char>, u64, i32)>>,
    vals: Map<Seq<char>, (int, int, bool)>,
    p: Seq<char>,
)
    requires
        forall|i: int| 0 <= i < t[p].len() ==> !vals.contains_key(#[trigger] t[p][i].0),
    ensures
        parent_outcome(t, vals, p) == Some::<Option<ViolationView>>(None),
{
    lemma_sum_of_unvalued(t[p], vals);
}

/// A parent whose reported value equals the weighted sum of its valued
/// children is not flagged; one that differs from it is flagged with that
/// sum and value (unless the difference overflows).
pub proof fn law_flagged_iff_unbalanced(
    t: Map<Seq<char>, Seq<(Seq<char>, u64, i32)>>,
    vals: Map<Seq<char>, (int, int, bool)>,
    p: Seq<char>,
)
    requires
        vals.contains_key(p),
        weighted_sum(t[p], vals) matches Some(acc) && acc.1,
    ensures
        match weighted_sum(t[p], vals) {
            Some((sum, _)) => {
                &&& same_value(sum, vals[p]) ==> parent_outcome(t, vals, p) == Some::<
                    Option<ViolationView>,
                >(None)
                &&& !same_value(sum, vals[p]) && parent_outcome(t, vals, p) is Some ==> (parent_outcome(
                    t,
                    vals,
                    p,
                ) matches Some(Some((who, expected, actual, _))) && who == p && expected == sum
                    && actual == vals[p])
            },
            None => true,
        },
{
}

} // verus!
