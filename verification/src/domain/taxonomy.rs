//! XBRL standard chart of accounts (taxonomy): standard labels, the universe
//! of standard accounts, and the tree skeleton.

use vstd::prelude::*;
use crate::domain::account::{normalize, normalized};
use crate::domain::statement::Statement;
use crate::seqs::{keep, keyed, sorted_by, stable_sort_of, lemma_keep_push, lemma_keyed_push, lemma_sorted_insert};
use crate::strmap::StrMap;
use crate::text::{str_eq, to_string};

verus! {

broadcast use vstd::string::group_string_axioms;

/// One standard account (one row of the taxonomy).
#[derive(Debug, Clone)]
pub struct TaxonomyConcept {
    /// Standard account id, in the `ifrs-full_*` form that the statements use.
    pub concept_id: String,
    /// Standard Korean label.
    pub label_ko: String,
    /// Standard English label.
    pub label_en: String,
    /// K-IFRS paragraph reference.
    pub ifrs_ref: String,
    /// Group header (a value-less `*Abstract` node): a branch or section border.
    pub is_abstract: bool,
    /// Parent concept id, when calculation links are known.
    pub parent: Option<String>,
    /// Display order (response order = presentation order).
    pub ord: i32,
}

/// The standard accounts of one statement, with tree and label queries.
#[derive(Debug, Clone)]
pub struct Taxonomy {
    pub statement: Statement,
    pub concepts: Vec<TaxonomyConcept>,
}

/// The concepts a sequence of references points at.
pub open spec fn deref_seq(s: Seq<&TaxonomyConcept>) -> Seq<TaxonomyConcept> {
    s.map_values(|r: &TaxonomyConcept| *r)
}

/// Sort key: display order.
pub open spec fn ord_key() -> spec_fn(TaxonomyConcept) -> int {
    |c: TaxonomyConcept| c.ord as int
}

/// A concept without a parent.
pub open spec fn is_root() -> spec_fn(TaxonomyConcept) -> bool {
    |c: TaxonomyConcept| c.parent is None
}

/// A concept whose parent is `id`.
pub open spec fn is_child_of(id: Seq<char>) -> spec_fn(TaxonomyConcept) -> bool {
    |c: TaxonomyConcept| c.parent is Some && c.parent->0@ == id
}

/// Index of the first concept with id `id`, if any.
pub open spec fn first_with_id(s: Seq<TaxonomyConcept>, id: Seq<char>, i: int) -> bool {
    &&& 0 <= i < s.len()
    &&& s[i].concept_id@ == id
    &&& forall|j: int| 0 <= j < i ==> (#[trigger] s[j]).concept_id@ != id
}

/// Normalised Korean label → concept id; the first concept with a given
/// normalised label wins.
pub open spec fn alias_map(s: Seq<TaxonomyConcept>) -> Map<Seq<char>, Seq<char>>
    decreases s.len(),
{
    if s.len() == 0 {
        Map::empty()
    } else {
        let m = alias_map(s.drop_last());
        let k = normalized(s.last().label_ko@);
        if m.contains_key(k) {
            m
        } else {
            m.insert(k, s.last().concept_id@)
        }
    }
}

/// The section scan: walking the concepts in presentation order, the first
/// abstract node is the statement root and is skipped; every later abstract
/// node opens a section; a non-abstract concept belongs to the section open
/// at that point, if any (a later entry for the same id replaces an earlier).
pub open spec fn sections(
    s: Seq<TaxonomyConcept>,
    cur: Option<Seq<char>>,
    seen_root: bool,
    m: Map<Seq<char>, Seq<char>>,
) -> Map<Seq<char>, Seq<char>>
    decreases s.len(),
{
    if s.len() == 0 {
        m
    } else {
        let c = s[0];
        let rest = s.drop_first();
        if c.is_abstract {
            if seen_root {
                sections(rest, Some(c.label_ko@), seen_root, m)
            } else {
                sections(rest, cur, true, m)
            }
        } else if cur is Some {
            sections(rest, cur, seen_root, m.insert(c.concept_id@, cur->0))
        } else {
            sections(rest, cur, seen_root, m)
        }
    }
}

/// Inserts `c` after every element whose order is at most `c.ord`.
fn insert_by_ord<'a>(v: &mut Vec<&'a TaxonomyConcept>, c: &'a TaxonomyConcept)
    requires
        sorted_by(deref_seq(old(v)@), ord_key()),
    ensures
        sorted_by(deref_seq(final(v)@), ord_key()),
        forall|k: int|
            #[trigger] keyed(deref_seq(final(v)@), ord_key(), k) == if c.ord == k {
                keyed(deref_seq(old(v)@), ord_key(), k).push(*c)
            } else {
                keyed(deref_seq(old(v)@), ord_key(), k)
            },
{
    let ghost s = deref_seq(v@);
    let mut p: usize = 0;
    while p < v.len() && v[p].ord <= c.ord
        invariant
            p <= v@.len(),
            s == deref_seq(v@),
            forall|j: int| 0 <= j < p ==> (ord_key())(#[trigger] s[j]) <= c.ord,
        decreases v@.len() - p,
    {
        p += 1;
    }
    proof {
        assert forall|j: int| p <= j < s.len() implies (ord_key())(#[trigger] s[j]) > c.ord by {
            if p < s.len() {
                assert((ord_key())(s[p as int]) > c.ord);
            }
        }
        lemma_sorted_insert(s, p as int, *c, ord_key());
    }
    v.insert(p, c);
    assert(deref_seq(v@) =~= s.insert(p as int, *c));
}

impl Taxonomy {
    /// Standard Korean label of `concept_id`, if it is in this taxonomy.
    pub fn label_ko(&self, concept_id: &str) -> (r: Option<&str>)
        ensures
            match r {
                Some(l) => exists|i: int|
                    first_with_id(self.concepts@, concept_id@, i) && l@
                        == self.concepts@[i].label_ko@,
                None => forall|i: int|
                    0 <= i < self.concepts@.len() ==> (#[trigger] self.concepts@[i]).concept_id@
                        != concept_id@,
            },
    {
        let mut i: usize = 0;
        while i < self.concepts.len()
            invariant
                i <= self.concepts@.len(),
                forall|j: int| 0 <= j < i ==> (#[trigger] self.concepts@[j]).concept_id@ != concept_id@,
            decreases self.concepts@.len() - i,
        {
            if str_eq(self.concepts[i].concept_id.as_str(), concept_id) {
                assert(first_with_id(self.concepts@, concept_id@, i as int));
                return Some(self.concepts[i].label_ko.as_str());
            }
            i += 1;
        }
        None
    }

    /// Whether `concept_id` is a standard account of this taxonomy.
    pub fn is_standard(&self, concept_id: &str) -> (r: bool)
        ensures
            r == exists|i: int|
                0 <= i < self.concepts@.len() && (#[trigger] self.concepts@[i]).concept_id@
                    == concept_id@,
    {
        let mut i: usize = 0;
        while i < self.concepts.len()
            invariant
                i <= self.concepts@.len(),
                forall|j: int| 0 <= j < i ==> (#[trigger] self.concepts@[j]).concept_id@ != concept_id@,
            decreases self.concepts@.len() - i,
        {
            if str_eq(self.concepts[i].concept_id.as_str(), concept_id) {
                assert(self.concepts@[i as int].concept_id@ == concept_id@);
                return true;
            }
            i += 1;
        }
        false
    }

    /// Root accounts (no parent), by display order. When no concept has a
    /// parent, every concept is a root (a flat taxonomy).
    pub fn roots(&self) -> (r: Vec<&TaxonomyConcept>)
        ensures
            stable_sort_of(deref_seq(r@), keep(self.concepts@, is_root()), ord_key()),
    {
        let mut v: Vec<&TaxonomyConcept> = Vec::new();
        let mut i: usize = 0;
        while i < self.concepts.len()
            invariant
                i <= self.concepts@.len(),
                stable_sort_of(
                    deref_seq(v@),
                    keep(self.concepts@.take(i as int), is_root()),
                    ord_key(),
                ),
            decreases self.concepts@.len() - i,
        {
            let c = &self.concepts[i];
            proof {
                assert(self.concepts@.take(i + 1) =~= self.concepts@.take(i as int).push(*c));
                lemma_keep_push(self.concepts@.take(i as int), *c, is_root());
            }
            if c.parent.is_none() {
                let ghost before = deref_seq(v@);
                insert_by_ord(&mut v, c);
                proof {
                    let s0 = keep(self.concepts@.take(i as int), is_root());
                    assert forall|k: int| #[trigger]
                        keyed(deref_seq(v@), ord_key(), k) == keyed(s0.push(*c), ord_key(), k) by {
                        lemma_keyed_push(s0, *c, ord_key(), k);
                    }
                }
            }
            i += 1;
        }
        assert(self.concepts@.take(self.concepts@.len() as int) =~= self.concepts@);
        v
    }

    /// Direct children of `concept_id`, by display order.
    pub fn children_of(&self, concept_id: &str) -> (r: Vec<&TaxonomyConcept>)
        ensures
            stable_sort_of(
                deref_seq(r@),
                keep(self.concepts@, is_child_of(concept_id@)),
                ord_key(),
            ),
    {
        let mut v: Vec<&TaxonomyConcept> = Vec::new();
        let mut i: usize = 0;
        while i < self.concepts.len()
            invariant
                i <= self.concepts@.len(),
                stable_sort_of(
                    deref_seq(v@),
                    keep(self.concepts@.take(i as int), is_child_of(concept_id@)),
                    ord_key(),
                ),
            decreases self.concepts@.len() - i,
        {
            let c = &self.concepts[i];
            proof {
                assert(self.concepts@.take(i + 1) =~= self.concepts@.take(i as int).push(*c));
                lemma_keep_push(self.concepts@.take(i as int), *c, is_child_of(concept_id@));
            }
            let is_child = match &c.parent {
                Some(p) => str_eq(p.as_str(), concept_id),
                None => false,
            };
            if is_child {
                insert_by_ord(&mut v, c);
                proof {
                    let s0 = keep(self.concepts@.take(i as int), is_child_of(concept_id@));
                    assert forall|k: int| #[trigger]
                        keyed(deref_seq(v@), ord_key(), k) == keyed(s0.push(*c), ord_key(), k) by {
                        lemma_keyed_push(s0, *c, ord_key(), k);
                    }
                }
            }
            i += 1;
        }
        assert(self.concepts@.take(self.concepts@.len() as int) =~= self.concepts@);
        v
    }

    /// Normalised label → concept id. The taxonomy is itself a large alias
    /// dictionary; when two concepts share a normalised label the first wins.
    pub fn alias_index(&self) -> (r: StrMap<String>)
        ensures
            r.wf(),
            r@ == alias_map(self.concepts@),
    {
        let mut idx: StrMap<String> = StrMap::new();
        let mut i: usize = 0;
        while i < self.concepts.len()
            invariant
                i <= self.concepts@.len(),
                idx.wf(),
                idx@ == alias_map(self.concepts@.take(i as int)),
            decreases self.concepts@.len() - i,
        {
            let c = &self.concepts[i];
            proof {
                assert(self.concepts@.take(i + 1).drop_last() =~= self.concepts@.take(i as int));
            }
            idx.insert_if_absent(normalize(c.label_ko.as_str()), c.concept_id.clone());
            i += 1;
        }
        assert(self.concepts@.take(self.concepts@.len() as int) =~= self.concepts@);
        idx
    }

    /// concept id → section label (the section layer of the statement >
    /// section > account tree); see [`sections`]. Concepts before the first
    /// section stay out of the map (they hang directly under the statement).
    pub fn section_map(&self) -> (r: StrMap<String>)
        ensures
            r.wf(),
            r@ == sections(self.concepts@, None, false, Map::empty()),
    {
        let mut map: StrMap<String> = StrMap::new();
        let mut current: Option<&str> = None;
        let mut seen_root = false;
        let mut i: usize = 0;
        assert(self.concepts@.skip(0) =~= self.concepts@);
        while i < self.concepts.len()
            invariant
                i <= self.concepts@.len(),
                map.wf(),
                sections(self.concepts@, None, false, Map::empty()) == sections(
                    self.concepts@.skip(i as int),
                    match current {
                        Some(x) => Some(x@),
                        None => None,
                    },
                    seen_root,
                    map@,
                ),
            decreases self.concepts@.len() - i,
        {
            let c = &self.concepts[i];
            proof {
                let t = self.concepts@.skip(i as int);
                assert(t[0] == *c);
                assert(t.drop_first() =~= self.concepts@.skip(i + 1));
            }
            if c.is_abstract {
                if seen_root {
                    current = Some(c.label_ko.as_str());
                } else {
                    seen_root = true;
                }
            } else if let Some(sec) = current {
                map.insert(c.concept_id.clone(), to_string(sec));
            }
            i += 1;
        }
        map
    }
}

} // verus!
