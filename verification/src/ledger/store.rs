//! Multi-dataset store of the ledger tools. Every import and every analysis
//! result is a dataset with an id `ds-N`; a derived dataset records the id
//! it came from, and removing a dataset removes everything derived from it.

use vstd::prelude::*;
use crate::ledger::frame::Frame;
use crate::seqs::{keep, lemma_keep_all, lemma_keep_keep};
use crate::strmap::StrMap;
use crate::text::{lemma_nat_text_injective, nat_text, push_str, str_eq, to_string, u64_text};

verus! {

/// One dataset: its name, the dataset it was derived from, and its data.
pub struct LedgerDataset {
    pub name: String,
    pub parent_id: Option<String>,
    pub df: Frame,
}

impl View for LedgerDataset {
    type V = LedgerDataset;

    open spec fn view(&self) -> LedgerDataset {
        *self
    }
}

/// A dataset as listed to the user: id, name, parent and shape.
pub struct DatasetNode {
    pub id: String,
    pub name: String,
    pub parent_id: Option<String>,
    pub row_count: usize,
    pub col_count: usize,
}

/// The id of the `n`-th dataset created: `ds-n`.
pub open spec fn ds_id(n: nat) -> Seq<char> {
    "ds-"@ + nat_text(n)
}

pub open spec fn opt_view(o: Option<String>) -> Option<Seq<char>> {
    match o {
        Some(s) => Some(s@),
        None => None,
    }
}

/// The id a dataset was derived from.
pub open spec fn parent_key(d: LedgerDataset) -> Option<Seq<char>> {
    opt_view(d.parent_id)
}

/// `s` together with every dataset of `m` derived directly from one in `s`.
pub open spec fn derived(m: Map<Seq<char>, LedgerDataset>, s: Set<Seq<char>>) -> Set<Seq<char>> {
    s.union(
        Set::new(
            |k: Seq<char>|
                m.contains_key(k) && parent_key(m[k]) is Some && s.contains(parent_key(m[k])->0),
        ),
    )
}

/// What `n` rounds of [`derived`] reach from `s`.
pub open spec fn reach(m: Map<Seq<char>, LedgerDataset>, s: Set<Seq<char>>, n: nat) -> Set<
    Seq<char>,
>
    decreases n,
{
    if n == 0 {
        s
    } else {
        derived(m, reach(m, s, (n - 1) as nat))
    }
}

/// Whether a marked id equals `p`.
fn is_marked(ids: &Vec<String>, gone: &Vec<bool>, p: &str) -> (r: bool)
    requires
        ids@.len() == gone@.len(),
    ensures
        r == exists|i: int| 0 <= i < ids@.len() && gone@[i] && (#[trigger] ids@[i])@ == p@,
{
    let mut i: usize = 0;
    while i < ids.len()
        invariant
            i <= ids@.len(),
            ids@.len() == gone@.len(),
            forall|j: int| 0 <= j < i ==> !(gone@[j] && (#[trigger] ids@[j])@ == p@),
        decreases ids@.len() - i,
    {
        if gone[i] && str_eq(ids[i].as_str(), p) {
            return true;
        }
        i += 1;
    }
    false
}

/// Datasets by id, kept in creation order, with the number of ids handed
/// out so far and the active dataset.
pub struct DatasetStore {
    datasets: StrMap<LedgerDataset>,
    next_id: u32,
    active: Option<String>,
}

impl DatasetStore {
    /// The datasets by id.
    pub closed spec fn entries(&self) -> Map<Seq<char>, LedgerDataset> {
        self.datasets@
    }

    /// The ids in creation order.
    pub closed spec fn ids(&self) -> Seq<Seq<char>> {
        self.datasets.key_order()
    }

    /// The active dataset's id.
    pub closed spec fn active(&self) -> Option<Seq<char>> {
        opt_view(self.active)
    }

    /// How many ids have been handed out.
    pub closed spec fn counter(&self) -> nat {
        self.next_id as nat
    }

    /// The active id, when set, names a dataset, and every id is `ds-n` for
    /// an `n` already handed out.
    pub closed spec fn wf(&self) -> bool {
        &&& self.datasets.wf()
        &&& (self.active is Some ==> self.datasets@.contains_key(self.active->0@))
        &&& forall|k: Seq<char>|
            #[trigger] self.datasets@.contains_key(k) ==> exists|n: nat|
                1 <= n <= self.next_id && k == #[trigger] ds_id(n)
    }

    /// What removing `id` takes away: `id` and, transitively, every dataset
    /// derived from a removed one.
    pub open spec fn cascade(&self, id: Seq<char>) -> Set<Seq<char>> {
        reach(self.entries(), set![id], self.ids().len())
    }

    /// The ids in creation order name exactly the datasets, each once.
    pub proof fn lemma_ids(&self)
        requires
            self.wf(),
        ensures
            forall|i: int| 0 <= i < self.ids().len() ==> self.entries().contains_key(#[trigger] self.ids()[i]),
            forall|k: Seq<char>|
                self.entries().contains_key(k) ==> exists|i: int|
                    0 <= i < self.ids().len() && #[trigger] self.ids()[i] == k,
            forall|i: int, j: int|
                0 <= i < self.ids().len() && 0 <= j < self.ids().len() && i != j
                    ==> #[trigger] self.ids()[i] != #[trigger] self.ids()[j],
    {
        self.datasets.lemma_keys();
    }

    /// An empty store.
    pub fn new() -> (r: DatasetStore)
        ensures
            r.wf(),
            r.entries() == Map::<Seq<char>, LedgerDataset>::empty(),
            r.ids() == Seq::<Seq<char>>::empty(),
            r.active() is None,
            r.counter() == 0,
    {
        DatasetStore { datasets: StrMap::new(), next_id: 0, active: None }
    }

    /// Whether another id can be handed out (ids are numbered by a `u32`).
    pub fn has_room(&self) -> (r: bool)
        ensures
            r == (self.counter() < u32::MAX),
    {
        self.next_id < u32::MAX
    }

    /// Adds a dataset under the next id `ds-N`, makes it active and returns
    /// its id.
    pub fn insert(&mut self, name: String, df: Frame, parent_id: Option<String>) -> (r: String)
        requires
            old(self).wf(),
            old(self).counter() < u32::MAX,
        ensures
            final(self).wf(),
            r@ == ds_id(old(self).counter() + 1),
            !old(self).entries().contains_key(r@),
            final(self).entries() == old(self).entries().insert(
                r@,
                (LedgerDataset { name, parent_id, df }),
            ),
            final(self).ids() == old(self).ids().push(r@),
            final(self).active() == Some(r@),
            final(self).counter() == old(self).counter() + 1,
    {
        let ghost old_next = self.next_id as nat;
        let ghost old_map = self.datasets@;
        self.next_id = self.next_id + 1;
        let mut id = to_string("ds-");
        let num = u64_text(self.next_id as u64);
        push_str(&mut id, num.as_str());
        assert(id@ == ds_id(old_next + 1));
        proof {
            reveal_strlit("ds-");
            if old_map.contains_key(id@) {
                let n = choose|n: nat| 1 <= n <= old_next && id@ == #[trigger] ds_id(n);
                assert(ds_id(n).skip(3) =~= nat_text(n));
                assert(ds_id(old_next + 1).skip(3) =~= nat_text(old_next + 1));
                lemma_nat_text_injective(n, old_next + 1);
            }
        }
        let ghost d = LedgerDataset { name, parent_id, df };
        self.datasets.insert(id.clone(), LedgerDataset { name, parent_id, df });
        self.active = Some(id.clone());
        proof {
            assert forall|k: Seq<char>| #[trigger] self.datasets@.contains_key(k) implies exists|n: nat|
                1 <= n <= self.next_id && k == #[trigger] ds_id(n) by {
                if k == id@ {
                    assert(k == ds_id(old_next + 1));
                } else {
                    assert(old_map.contains_key(k));
                    let n = choose|n: nat| 1 <= n <= old_next && k == #[trigger] ds_id(n);
                    assert(k == ds_id(n));
                }
            }
        }
        id
    }

    /// The dataset with this id.
    pub fn get(&self, id: &str) -> (r: Option<&LedgerDataset>)
        requires
            self.wf(),
        ensures
            match r {
                Some(d) => self.entries().contains_key(id@) && *d == self.entries()[id@],
                None => !self.entries().contains_key(id@),
            },
    {
        self.datasets.get(id)
    }

    /// The active dataset's data.
    pub fn active_df(&self) -> (r: Option<&Frame>)
        requires
            self.wf(),
        ensures
            match r {
                Some(f) => self.active() is Some && self.entries().contains_key(self.active()->0)
                    && *f == self.entries()[self.active()->0].df,
                None => self.active() is None,
            },
    {
        match &self.active {
            Some(id) => match self.datasets.get(id.as_str()) {
                Some(d) => Some(&d.df),
                None => None,
            },
            None => None,
        }
    }

    /// The active dataset's id.
    pub fn active_id(&self) -> (r: Option<&str>)
        ensures
            match r {
                Some(s) => self.active() == Some(s@),
                None => self.active() is None,
            },
    {
        match &self.active {
            Some(id) => Some(id.as_str()),
            None => None,
        }
    }

    /// Makes `id` active when such a dataset exists; says whether it did.
    pub fn set_active(&mut self, id: &str) -> (r: bool)
        requires
            old(self).wf(),
        ensures
            final(self).wf(),
            r == old(self).entries().contains_key(id@),
            final(self).entries() == old(self).entries(),
            final(self).ids() == old(self).ids(),
            final(self).counter() == old(self).counter(),
            final(self).active() == if r {
                Some(id@)
            } else {
                old(self).active()
            },
    {
        if self.datasets.contains_key(id) {
            self.active = Some(id.to_string());
            true
        } else {
            false
        }
    }

    /// The datasets in creation order, as listed to the user.
    pub fn list(&self) -> (r: Vec<DatasetNode>)
        requires
            self.wf(),
        ensures
            r@.len() == self.ids().len(),
            forall|i: int|
                0 <= i < r@.len() ==> {
                    let d = self.entries()[self.ids()[i]];
                    &&& (#[trigger] r@[i]).id@ == self.ids()[i]
                    &&& r@[i].name@ == d.name@
                    &&& opt_view(r@[i].parent_id) == parent_key(d)
                    &&& r@[i].row_count == d.df.rows@.len()
                    &&& r@[i].col_count == d.df.columns@.len()
                },
    {
        let mut r: Vec<DatasetNode> = Vec::new();
        let mut i: usize = 0;
        while i < self.datasets.len()
            invariant
                self.wf(),
                i <= self.ids().len(),
                r@.len() == i,
                forall|j: int|
                    0 <= j < i ==> {
                        let d = self.entries()[self.ids()[j]];
                        &&& (#[trigger] r@[j]).id@ == self.ids()[j]
                        &&& r@[j].name@ == d.name@
                        &&& opt_view(r@[j].parent_id) == parent_key(d)
                        &&& r@[j].row_count == d.df.rows@.len()
                        &&& r@[j].col_count == d.df.columns@.len()
                    },
            decreases self.ids().len() - i,
        {
            let (k, d) = self.datasets.entry_at(i);
            let parent = match &d.parent_id {
                Some(p) => Some(p.clone()),
                None => None,
            };
            r.push(
                DatasetNode {
                    id: k.clone(),
                    name: d.name.clone(),
                    parent_id: parent,
                    row_count: d.df.height(),
                    col_count: d.df.width(),
                },
            );
            i += 1;
        }
        r
    }

    /// Renames the dataset `id`; says whether it exists.
    pub fn rename(&mut self, id: &str, name: String) -> (r: bool)
        requires
            old(self).wf(),
        ensures
            final(self).wf(),
            r == old(self).entries().contains_key(id@),
            final(self).entries() == if r {
                old(self).entries().insert(
                    id@,
                    (LedgerDataset {
                        name,
                        parent_id: old(self).entries()[id@].parent_id,
                        df: old(self).entries()[id@].df,
                    }),
                )
            } else {
                old(self).entries()
            },
            final(self).ids() == old(self).ids(),
            final(self).active() == old(self).active(),
            final(self).counter() == old(self).counter(),
    {
        if !self.datasets.contains_key(id) {
            return false;
        }
        let ghost old_map = self.datasets@;
        let placeholder = LedgerDataset { name: String::new(), parent_id: None, df: Frame::empty() };
        let prev = self.datasets.replace(id, placeholder);
        let renamed = LedgerDataset { name, parent_id: prev.parent_id, df: prev.df };
        let _ = self.datasets.replace(id, renamed);
        assert(self.datasets@ =~= old_map.insert(id@, renamed));
        proof {
            assert forall|k: Seq<char>| #[trigger] self.datasets@.contains_key(k) implies exists|n: nat|
                1 <= n <= self.next_id && k == #[trigger] ds_id(n) by {
                assert(old_map.contains_key(k));
            }
        }
        true
    }

    /// One round of the cascade over the ids in creation order: a dataset
    /// stays marked, or becomes marked when its parent is marked.
    fn next_mask(&self, ids: &Vec<String>, gone: &Vec<bool>) -> (r: Vec<bool>)
        requires
            self.wf(),
            ids@.len() == self.ids().len(),
            gone@.len() == ids@.len(),
            forall|q: int| 0 <= q < ids@.len() ==> (#[trigger] ids@[q])@ == self.ids()[q],
        ensures
            r@.len() == gone@.len(),
            forall|q: int|
                0 <= q < r@.len() ==> #[trigger] r@[q] == (gone@[q] || (parent_key(
                    self.entries()[self.ids()[q]],
                ) is Some && exists|i: int|
                    0 <= i < ids@.len() && gone@[i] && (#[trigger] ids@[i])@ == parent_key(
                        self.entries()[self.ids()[q]],
                    )->0)),
    {
        let mut r: Vec<bool> = Vec::new();
        let mut q: usize = 0;
        while q < ids.len()
            invariant
                self.wf(),
                q <= ids@.len(),
                ids@.len() == self.ids().len(),
                gone@.len() == ids@.len(),
                forall|j: int| 0 <= j < ids@.len() ==> (#[trigger] ids@[j])@ == self.ids()[j],
                r@.len() == q,
                forall|j: int|
                    0 <= j < q ==> #[trigger] r@[j] == (gone@[j] || (parent_key(
                        self.entries()[self.ids()[j]],
                    ) is Some && exists|i: int|
                        0 <= i < ids@.len() && gone@[i] && (#[trigger] ids@[i])@ == parent_key(
                            self.entries()[self.ids()[j]],
                        )->0)),
            decreases ids@.len() - q,
        {
            let (_k, d) = self.datasets.entry_at(q);
            let by_parent = match &d.parent_id {
                Some(p) => is_marked(ids, gone, p.as_str()),
                None => false,
            };
            r.push(gone[q] || by_parent);
            q += 1;
        }
        r
    }

    /// Removes the dataset `id` and, transitively, every dataset derived
    /// from a removed one; when the active dataset goes, the most recent
    /// remaining one becomes active. Says whether `id` existed.
    pub fn remove(&mut self, id: &str) -> (r: bool)
        requires
            old(self).wf(),
        ensures
            final(self).wf(),
            r == old(self).entries().contains_key(id@),
            final(self).counter() == old(self).counter(),
            !r ==> final(self).entries() == old(self).entries() && final(self).ids() == old(
                self,
            ).ids() && final(self).active() == old(self).active(),
            r ==> final(self).entries() == old(self).entries().remove_keys(old(self).cascade(id@)),
            r ==> final(self).ids() == keep(
                old(self).ids(),
                |k: Seq<char>| !old(self).cascade(id@).contains(k),
            ),
            r ==> final(self).active() == if old(self).active() is Some && old(self).cascade(
                id@,
            ).contains(old(self).active()->0) {
                if final(self).ids().len() > 0 {
                    Some(final(self).ids().last())
                } else {
                    None
                }
            } else {
                old(self).active()
            },
    {
        if !self.datasets.contains_key(id) {
            return false;
        }
        let ghost m = self.datasets@;
        let ghost ko = self.datasets.key_order();
        let ghost old_active = self.active();
        proof {
            self.lemma_ids();
        }
        let ids = self.datasets.keys();
        let n = ids.len();
        assert forall|i: int| 0 <= i < ko.len() implies m.contains_key(#[trigger] ko[i]) by {
            assert(self.ids()[i] == ko[i]);
        }
        assert forall|k: Seq<char>| m.contains_key(k) implies exists|i: int|
            0 <= i < ko.len() && #[trigger] ko[i] == k by {
            assert(self.entries().contains_key(k));
            let i = choose|i: int| 0 <= i < self.ids().len() && #[trigger] self.ids()[i] == k;
            assert(ko[i] == k);
        }
        assert forall|i: int, j: int| 0 <= i < n && 0 <= j < n && i != j implies #[trigger] ko[i]
            != #[trigger] ko[j] by {
            assert(self.ids()[i] == ko[i] && self.ids()[j] == ko[j]);
        }
        let mut gone: Vec<bool> = Vec::new();
        let mut j: usize = 0;
        while j < n
            invariant
                j <= n,
                n == ids@.len(),
                n == ko.len(),
                forall|q: int| 0 <= q < n ==> (#[trigger] ids@[q])@ == ko[q],
                gone@.len() == j,
                forall|q: int| 0 <= q < j ==> #[trigger] gone@[q] == (ko[q] == id@),
            decreases n - j,
        {
            gone.push(str_eq(ids[j].as_str(), id));
            j += 1;
        }
        assert forall|q: int| 0 <= q < n implies #[trigger] gone@[q] == reach(m, set![id@], 0).contains(
            ko[q],
        ) by {}
        let mut t: usize = 0;
        while t < n
            invariant
                self.wf(),
                self.datasets@ == m,
                self.datasets.key_order() == ko,
                self.ids() == ko,
                t <= n,
                n == ids@.len(),
                n == ko.len(),
                forall|q: int| 0 <= q < n ==> (#[trigger] ids@[q])@ == ko[q],
                forall|i: int| 0 <= i < ko.len() ==> m.contains_key(#[trigger] ko[i]),
                forall|k: Seq<char>|
                    m.contains_key(k) ==> exists|i: int| 0 <= i < ko.len() && #[trigger] ko[i] == k,
                m.contains_key(id@),
                gone@.len() == n,
                forall|q: int| 0 <= q < n ==> #[trigger] gone@[q] == reach(m, set![id@], t as nat).contains(ko[q]),
                forall|k: Seq<char>| reach(m, set![id@], t as nat).contains(k) ==> m.contains_key(k),
            decreases n - t,
        {
            let ghost rs = reach(m, set![id@], t as nat);
            let next = self.next_mask(&ids, &gone);
            proof {
                let rn = reach(m, set![id@], (t + 1) as nat);
                assert(rn == derived(m, rs));
                assert forall|p: Seq<char>| (exists|i: int|
                    0 <= i < ids@.len() && gone@[i] && (#[trigger] ids@[i])@ == p) <==> rs.contains(p) by {
                    if rs.contains(p) {
                        assert(m.contains_key(p));
                        let i = choose|i: int| 0 <= i < ko.len() && #[trigger] ko[i] == p;
                        assert(ids@[i]@ == p);
                    }
                }
                assert forall|q: int| 0 <= q < n implies #[trigger] next@[q] == rn.contains(ko[q]) by {
                    assert(ids@[q]@ == ko[q]);
                    assert(m.contains_key(ko[q]));
                }
                assert forall|k: Seq<char>| rn.contains(k) implies m.contains_key(k) by {}
            }
            gone = next;
            t += 1;
        }
        let ghost cut = reach(m, set![id@], n as nat);
        assert(cut == self.cascade(id@));
        let ghost mut removed: Set<Seq<char>> = Set::empty();
        let ghost act = self.active;
        proof {
            lemma_keep_all(ko, |k: Seq<char>| !removed.contains(k));
        }
        let mut q: usize = 0;
        while q < n
            invariant
                self.datasets.wf(),
                q <= n,
                n == ids@.len(),
                n == ko.len(),
                forall|i: int| 0 <= i < n ==> (#[trigger] ids@[i])@ == ko[i],
                forall|i: int, j: int| 0 <= i < n && 0 <= j < n && i != j ==> #[trigger] ko[i] != #[trigger] ko[j],
                gone@.len() == n,
                forall|i: int| 0 <= i < n ==> #[trigger] gone@[i] == cut.contains(ko[i]),
                removed == Set::new(|k: Seq<char>| exists|i: int| 0 <= i < q && gone@[i] && #[trigger] ko[i] == k),
                self.datasets@ == m.remove_keys(removed),
                self.datasets.key_order() == keep(ko, |k: Seq<char>| !removed.contains(k)),
                self.next_id as nat == old(self).next_id as nat,
                self.active == act,
            decreases n - q,
        {
            if gone[q] {
                let ghost before = self.datasets.key_order();
                let key_s = ids[q].as_str();
                let _ = self.datasets.remove(key_s);
                proof {
                    let kq = ko[q as int];
                    let nr = removed.insert(kq);
                    assert(key_s@ == kq);
                    assert((|k: Seq<char>| k != key_s@) =~= (|k: Seq<char>| k != kq));
                    assert(self.datasets.key_order() == keep(before, |k: Seq<char>| k != kq));
                    lemma_keep_keep(ko, |k: Seq<char>| !removed.contains(k), |k: Seq<char>| k != kq);
                    assert((|k: Seq<char>| (|k: Seq<char>| !removed.contains(k))(k) && (|k: Seq<char>| k != kq)(k)) =~= (|k: Seq<char>| !nr.contains(k)));
                    assert(m.remove_keys(removed).remove(kq) =~= m.remove_keys(nr));
                    assert(self.datasets.key_order() == keep(ko, |k: Seq<char>| !nr.contains(k)));
                    removed = nr;
                }
            }
            proof {
                assert(removed =~= Set::new(|k: Seq<char>| exists|i: int| 0 <= i < q + 1 && gone@[i] && #[trigger] ko[i] == k)) by {
                    assert forall|k: Seq<char>| Set::new(|k: Seq<char>| exists|i: int| 0 <= i < q + 1 && gone@[i] && #[trigger] ko[i] == k).contains(k) implies removed.contains(k) by {
                        let i = choose|i: int| 0 <= i < q + 1 && gone@[i] && #[trigger] ko[i] == k;
                        if i < q {
                            assert(exists|i: int| 0 <= i < q && gone@[i] && #[trigger] ko[i] == k);
                        }
                    }
                }
            }
            q += 1;
        }
        assert(removed =~= cut) by {
            assert forall|k: Seq<char>| cut.contains(k) implies removed.contains(k) by {
                assert(m.contains_key(k));
                let i = choose|i: int| 0 <= i < ko.len() && #[trigger] ko[i] == k;
                assert(gone@[i]);
            }
        }
        let keep_active = match &self.active {
            Some(a) => self.datasets.contains_key(a.as_str()),
            None => true,
        };
        if !keep_active {
            self.active = self.datasets.last_key();
            proof {
                if self.active is Some {
                    self.datasets.lemma_keys();
                    assert(self.datasets.key_order()[self.datasets.key_order().len() - 1] == self.datasets.key_order().last());
                }
            }
        }
        proof {
            assert forall|k: Seq<char>| #[trigger] self.datasets@.contains_key(k) implies exists|n: nat|
                1 <= n <= self.next_id && k == #[trigger] ds_id(n) by {
                assert(m.contains_key(k));
            }
        }
        true
    }
}

proof fn lemma_reach_growth(m: Map<Seq<char>, LedgerDataset>, s: Set<Seq<char>>, t: nat)
    requires
        m.dom().finite(),
        s.subset_of(m.dom()),
        s.len() >= 1,
    ensures
        reach(m, s, t).subset_of(m.dom()),
        reach(m, s, t).finite(),
        derived(m, reach(m, s, t)) == reach(m, s, t) || reach(m, s, t).len() >= t + 1,
    decreases t,
{
    vstd::set_lib::lemma_len_subset(s, m.dom());
    if t > 0 {
        let t1 = (t - 1) as nat;
        lemma_reach_growth(m, s, t1);
        let r0 = reach(m, s, t1);
        let r1 = reach(m, s, t);
        assert(r1 == derived(m, r0));
        assert(r1.subset_of(m.dom()));
        vstd::set_lib::lemma_len_subset(r1, m.dom());
        if derived(m, r0) == r0 {
            assert(r1 == r0);
        } else {
            assert(r0.subset_of(r1));
            let x = choose|x: Seq<char>| r1.contains(x) && !r0.contains(x);
            assert(r1.contains(x) && !r0.contains(x)) by {
                assert(!(r1 =~= r0));
            }
            assert(r0.subset_of(r1.remove(x)));
            vstd::set_lib::lemma_len_subset(r0, r1.remove(x));
        }
    }
}

/// Removing a dataset takes away everything derived from what it takes
/// away: a dataset whose parent is in the cascade is in it too. (The
/// rounds of the cascade, one per dataset, always reach a fixed point.)
pub proof fn lemma_cascade_closed(store: &DatasetStore, id: Seq<char>)
    requires
        store.wf(),
        store.entries().contains_key(id),
    ensures
        forall|k: Seq<char>|
            store.entries().contains_key(k) && parent_key(store.entries()[k]) is Some
                && store.cascade(id).contains(parent_key(#[trigger] store.entries()[k])->0)
                ==> store.cascade(id).contains(k),
{
    broadcast use vstd::seq_lib::seq_to_set_is_finite;

    let m = store.entries();
    let ko = store.ids();
    store.lemma_ids();
    assert(ko.to_set() =~= m.dom()) by {
        assert forall|k: Seq<char>| m.dom().contains(k) implies ko.to_set().contains(k) by {
            let i = choose|i: int| 0 <= i < ko.len() && #[trigger] ko[i] == k;
            assert(ko.contains(k));
        }
    }
    assert(ko.no_duplicates());
    ko.unique_seq_to_set();
    let n = ko.len();
    assert(set![id].subset_of(m.dom()));
    assert(set![id].len() == 1);
    lemma_reach_growth(m, set![id], n);
    let c = reach(m, set![id], n);
    if derived(m, c) != c {
        vstd::set_lib::lemma_len_subset(c, m.dom());
        assert(false);
    }
    assert forall|k: Seq<char>|
        m.contains_key(k) && parent_key(m[k]) is Some && c.contains(parent_key(#[trigger] m[k])->0)
            implies c.contains(k) by {
        assert(derived(m, c).contains(k));
    }
}

/// Dataset ids are never handed out twice: different counts give
/// different ids (and each insert raises the count).
pub proof fn law_ids_never_reused(n: nat, m: nat)
    requires
        ds_id(n) == ds_id(m),
    ensures
        n == m,
{
    reveal_strlit("ds-");
    assert(ds_id(n).skip(3) =~= nat_text(n));
    assert(ds_id(m).skip(3) =~= nat_text(m));
    lemma_nat_text_injective(n, m);
}

} // verus!
