//! The registry of categories and the trackers that name them.
use vstd::prelude::*;

use vstd::std_specs::cmp::PartialEqSpec;

use crate::guard::{Count, Size};
use crate::ledger::{Hold, lemma_outstanding_none_live, lemma_outstanding_push, lemma_outstanding_update, lemma_share_bounded, outstanding};

verus! {

/// One category's counter.
#[derive(Debug)]
pub struct Category {
    total: usize,
}

impl View for Category {
    type V = nat;

    closed spec fn view(&self) -> nat {
        self.total as nat
    }
}

impl Category {
    /// The category's current total.
    pub fn total(&self) -> (r: usize)
        ensures
            r == self@,
    {
        self.total
    }
}

/// Every category of one tracking domain, keyed by an identifier.
///
/// Categories are created on first reference and never removed; the entry at
/// index `i` of `ids()` owns the counter at index `i` of `totals()`.
pub struct Registry<Id> {
    ids: Vec<Id>,
    categories: Vec<Category>,
    holds: Ghost<Seq<Hold>>,
}

/// Create an empty registry.
pub fn new_registry<Id: Eq + Clone>() -> (r: Registry<Id>)
    ensures
        r.wf(),
        r.ids() == Seq::<Id>::empty(),
        r.totals() == Seq::<nat>::empty(),
        r.holds() == Seq::<Hold>::empty(),
{
    let r = Registry { ids: Vec::new(), categories: Vec::new(), holds: Ghost(Seq::empty()) };
    assert(r.totals() =~= Seq::<nat>::empty());
    r
}

impl<Id: Eq + Clone> Registry<Id> {
    /// The identifiers of the categories, in order of creation.
    pub closed spec fn ids(&self) -> Seq<Id> {
        self.ids@
    }

    /// The counters of the categories, index for index with `ids()`.
    pub closed spec fn totals(&self) -> Seq<nat> {
        self.categories@.map_values(|c: Category| c@)
    }

    /// Every guard minted from this registry, in order of minting.
    pub closed spec fn holds(&self) -> Seq<Hold> {
        self.holds@
    }

    /// Well-formedness: one counter per identifier, each within `usize`, no
    /// identifier equal to an earlier one, and each counter the sum of its live
    /// guards' weights.
    pub open spec fn wf(&self) -> bool {
        &&& self.ids().len() == self.totals().len()
        &&& forall|c: int| 0 <= c < self.totals().len() ==> #[trigger] self.totals()[c] <= usize::MAX
        &&& forall|i: int, j: int|
            0 <= i < j < self.ids().len() ==> !self.ids()[i].eq_spec(&self.ids()[j])
        &&& forall|k: int|
            0 <= k < self.holds().len() ==> #[trigger] self.holds()[k].category
                < self.totals().len()
        &&& forall|k: int|
            0 <= k < self.holds().len() && !#[trigger] self.holds()[k].sized
                ==> self.holds()[k].weight == 1
        &&& forall|c: int|
            0 <= c < self.totals().len() ==> #[trigger] self.totals()[c] == outstanding(
                self.holds(),
                c as nat,
            )
    }

    /// A tracker for the category keyed by `name`.
    ///
    /// The first category whose identifier equals `name` is taken; if there is
    /// none, a category with a zero counter is appended for `name`.
    pub fn category(&mut self, name: Id) -> (r: Tracker)
        requires
            old(self).wf(),
            Id::obeys_eq_spec(),
        ensures
            final(self).wf(),
            final(self).holds() == old(self).holds(),
            r.index() < final(self).ids().len(),
            r.index() == index_for(old(self).ids(), name),
            final(self).ids() == ids_after(old(self).ids(), name),
            match first_equal(old(self).ids(), name) {
                Some(i) => {
                    &&& r.index() == i
                    &&& final(self).ids() == old(self).ids()
                    &&& final(self).totals() == old(self).totals()
                },
                None => {
                    &&& r.index() == old(self).ids().len()
                    &&& final(self).ids() == old(self).ids().push(name)
                    &&& final(self).totals() == old(self).totals().push(0)
                },
            },
    {
        let mut i: usize = 0;
        while i < self.ids.len()
            invariant
                i <= self.ids@.len(),
                Id::obeys_eq_spec(),
                self.wf(),
                self.ids() == old(self).ids(),
                self.totals() == old(self).totals(),
                self.holds() == old(self).holds(),
                forall|j: int| 0 <= j < i ==> !self.ids@[j].eq_spec(&name),
            decreases self.ids@.len() - i,
        {
            if self.ids[i] == name {
                proof {
                    lemma_first_equal_at(self.ids@, name, i as int);
                }
                return Tracker { index: i };
            }
            i += 1;
        }
        proof {
            lemma_first_equal_none(self.ids@, name);
        }
        let index = self.ids.len();
        self.ids.push(name);
        self.categories.push(Category { total: 0 });
        proof {
            assert(self.totals() =~= old(self).totals().push(0));
            assert forall|c: int| 0 <= c < self.totals().len() implies #[trigger] self.totals()[c]
                == outstanding(self.holds(), c as nat) by {
                if c < index {
                    assert(old(self).totals()[c] == outstanding(self.holds(), c as nat));
                } else {
                    assert forall|k: int| 0 <= k < self.holds().len() implies !(
                    self.holds()[k].live && self.holds()[k].category == c) by {
                        assert(old(self).holds()[k].category < old(self).totals().len());
                    }
                    lemma_outstanding_none_live(self.holds(), c as nat);
                }
            }
        }
        Tracker { index }
    }

    /// Every category's identifier, cloned, beside its current total.
    pub fn read_counts(&self) -> (r: Vec<(Id, usize)>)
        requires
            self.wf(),
        ensures
            self.is_snapshot(r@),
    {
        let mut out: Vec<(Id, usize)> = Vec::new();
        let mut i: usize = 0;
        while i < self.ids.len()
            invariant
                self.wf(),
                i <= self.ids@.len(),
                out@.len() == i,
                forall|j: int|
                    0 <= j < i ==> cloned(self.ids()[j], #[trigger] out@[j].0) && out@[j].1
                        == self.totals()[j],
            decreases self.ids@.len() - i,
        {
            let id = self.ids[i].clone();
            let total = self.categories[i].total();
            out.push((id, total));
            i += 1;
        }
        out
    }

    /// The category that `tracker` names.
    pub fn get(&self, tracker: &Tracker) -> (r: &Category)
        requires
            self.wf(),
            tracker.index() < self.totals().len(),
        ensures
            r@ == self.totals()[tracker.index() as int],
    {
        &self.categories[tracker.index]
    }

    /// `s` pairs each category's identifier, cloned, with its current total,
    /// in the order of `ids()`.
    pub open spec fn is_snapshot(&self, s: Seq<(Id, usize)>) -> bool {
        &&& s.len() == self.ids().len()
        &&& forall|j: int|
            0 <= j < s.len() ==> cloned(self.ids()[j], (#[trigger] s[j]).0) && s[j].1
                == self.totals()[j]
    }

    /// A live hold weighs no more than its category's total.
    pub proof fn lemma_held_within_total(&self, slot: nat, c: nat)
        requires
            self.wf(),
            slot < self.holds().len(),
            self.holds()[slot as int].live,
            self.holds()[slot as int].category == c,
        ensures
            c < self.totals().len(),
            self.holds()[slot as int].weight <= self.totals()[c as int],
    {
        lemma_share_bounded(self.holds(), slot as int, c);
        assert(self.totals()[c as int] == outstanding(self.holds(), c));
    }

    /// Open a new live hold of `weight` on category `c` and raise its counter.
    pub(crate) fn open_hold(&mut self, c: usize, weight: usize, sized: bool) -> (slot: Ghost<nat>)
        requires
            old(self).wf(),
            c < old(self).totals().len(),
            old(self).totals()[c as int] + weight <= usize::MAX,
            !sized ==> weight == 1,
        ensures
            final(self).wf(),
            final(self).ids() == old(self).ids(),
            final(self).totals() == old(self).totals().update(
                c as int,
                (old(self).totals()[c as int] + weight) as nat,
            ),
            final(self).holds() == old(self).holds().push(
                Hold { category: c as nat, weight: weight as nat, live: true, sized },
            ),
            slot@ == old(self).holds().len(),
    {
        let ghost h = Hold { category: c as nat, weight: weight as nat, live: true, sized };
        let ghost before = self.holds@;
        let slot = Ghost(before.len());
        let t = self.categories[c].total;
        self.categories.set(c, Category { total: t + weight });
        self.holds = Ghost(before.push(h));
        proof {
            assert(self.totals() =~= old(self).totals().update(c as int, (old(self).totals()[c as int] + weight) as nat));
            assert forall|d: int| 0 <= d < self.totals().len() implies #[trigger] self.totals()[d]
                == outstanding(self.holds(), d as nat) by {
                assert(old(self).totals()[d] == outstanding(before, d as nat));
                lemma_outstanding_push(before, h, d as nat);
            }
        }
        slot
    }

    /// Change the weight of the live hold at `slot` from `from` to `to`,
    /// moving its category's counter by the same amount.
    pub(crate) fn reweigh(&mut self, slot: Ghost<nat>, c: usize, sized: bool, from: usize, to: usize)
        requires
            old(self).wf(),
            slot@ < old(self).holds().len(),
            old(self).holds()[slot@ as int] == (Hold {
                category: c as nat,
                weight: from as nat,
                live: true,
                sized,
            }),
            sized,
            to <= from || old(self).totals()[c as int] + (to - from) <= usize::MAX,
        ensures
            final(self).wf(),
            final(self).ids() == old(self).ids(),
            final(self).totals() == old(self).totals().update(
                c as int,
                (old(self).totals()[c as int] - from + to) as nat,
            ),
            final(self).holds() == old(self).holds().update(
                slot@ as int,
                Hold { category: c as nat, weight: to as nat, live: true, sized },
            ),
            old(self).totals()[c as int] >= from,
    {
        let ghost before = self.holds@;
        let ghost h = Hold { category: c as nat, weight: to as nat, live: true, sized };
        proof {
            lemma_share_bounded(before, slot@ as int, c as nat);
            assert(old(self).totals()[c as int] == outstanding(before, c as nat));
        }
        let t = self.categories[c].total;
        let next = if to < from {
            t - (from - to)
        } else {
            t + (to - from)
        };
        self.categories.set(c, Category { total: next });
        self.holds = Ghost(before.update(slot@ as int, h));
        proof {
            assert(self.totals() =~= old(self).totals().update(
                c as int,
                (old(self).totals()[c as int] - from + to) as nat,
            ));
            assert forall|d: int| 0 <= d < self.totals().len() implies #[trigger] self.totals()[d]
                == outstanding(self.holds(), d as nat) by {
                assert(old(self).totals()[d] == outstanding(before, d as nat));
                lemma_outstanding_update(before, slot@ as int, h, d as nat);
            }
        }
    }

    /// Retire the live hold at `slot`, taking its weight off its category's counter.
    pub(crate) fn close_hold(&mut self, slot: Ghost<nat>, c: usize, sized: bool, weight: usize)
        requires
            old(self).wf(),
            slot@ < old(self).holds().len(),
            old(self).holds()[slot@ as int] == (Hold {
                category: c as nat,
                weight: weight as nat,
                live: true,
                sized,
            }),
        ensures
            final(self).wf(),
            final(self).ids() == old(self).ids(),
            final(self).totals() == old(self).totals().update(
                c as int,
                (old(self).totals()[c as int] - weight) as nat,
            ),
            final(self).holds() == old(self).holds().update(
                slot@ as int,
                Hold { category: c as nat, weight: weight as nat, live: false, sized },
            ),
            old(self).totals()[c as int] >= weight,
    {
        let ghost before = self.holds@;
        let ghost h = Hold { category: c as nat, weight: weight as nat, live: false, sized };
        proof {
            assert(!before[slot@ as int].sized ==> before[slot@ as int].weight == 1);
            lemma_share_bounded(before, slot@ as int, c as nat);
            assert(old(self).totals()[c as int] == outstanding(before, c as nat));
        }
        let t = self.categories[c].total;
        self.categories.set(c, Category { total: t - weight });
        self.holds = Ghost(before.update(slot@ as int, h));
        proof {
            assert(self.totals() =~= old(self).totals().update(
                c as int,
                (old(self).totals()[c as int] - weight) as nat,
            ));
            assert forall|d: int| 0 <= d < self.totals().len() implies #[trigger] self.totals()[d]
                == outstanding(self.holds(), d as nat) by {
                assert(old(self).totals()[d] == outstanding(before, d as nat));
                lemma_outstanding_update(before, slot@ as int, h, d as nat);
            }
        }
    }
}

/// Identifiers of `ids` after `name` has been referenced: unchanged if an
/// equal identifier is present, else `name` appended.
pub open spec fn ids_after<Id: Eq>(ids: Seq<Id>, name: Id) -> Seq<Id> {
    match first_equal(ids, name) {
        Some(_) => ids,
        None => ids.push(name),
    }
}

/// Index of the category that referencing `name` in `ids` yields.
pub open spec fn index_for<Id: Eq>(ids: Seq<Id>, name: Id) -> nat {
    match first_equal(ids, name) {
        Some(i) => i,
        None => ids.len(),
    }
}

/// Index of the first identifier of `ids` that equals `name`, if any.
pub open spec fn first_equal<Id: Eq>(ids: Seq<Id>, name: Id) -> Option<nat>
    decreases ids.len(),
{
    if ids.len() == 0 {
        None
    } else {
        match first_equal(ids.drop_last(), name) {
            Some(i) => Some(i),
            None => if ids.last().eq_spec(&name) {
                Some((ids.len() - 1) as nat)
            } else {
                None
            },
        }
    }
}

/// `i` is the first index whose identifier equals `name`.
pub(crate) proof fn lemma_first_equal_at<Id: Eq>(ids: Seq<Id>, name: Id, i: int)
    requires
        0 <= i < ids.len(),
        ids[i].eq_spec(&name),
        forall|j: int| 0 <= j < i ==> !ids[j].eq_spec(&name),
    ensures
        first_equal(ids, name) == Some(i as nat),
    decreases ids.len(),
{
    if i < ids.len() - 1 {
        lemma_first_equal_at(ids.drop_last(), name, i);
    } else {
        lemma_first_equal_none(ids.drop_last(), name);
    }
}

/// No identifier equals `name`.
pub(crate) proof fn lemma_first_equal_none<Id: Eq>(ids: Seq<Id>, name: Id)
    requires
        forall|j: int| 0 <= j < ids.len() ==> !ids[j].eq_spec(&name),
    ensures
        first_equal(ids, name) == None::<nat>,
    decreases ids.len(),
{
    if ids.len() > 0 {
        lemma_first_equal_none(ids.drop_last(), name);
    }
}

/// A handle on one category of a registry, from which guards are minted.
#[derive(Clone, Copy, Debug)]
pub struct Tracker {
    index: usize,
}

impl Tracker {
    /// Index of the tracked category in its registry.
    pub closed spec fn index(&self) -> nat {
        self.index as nat
    }

    /// Hold one unit of the category until the returned guard is released.
    pub fn track<Id: Eq + Clone>(&self, registry: &mut Registry<Id>) -> (g: Count)
        requires
            old(registry).wf(),
            self.index() < old(registry).totals().len(),
            old(registry).totals()[self.index() as int] + 1 <= usize::MAX,
        ensures
            final(registry).wf(),
            g.category() == self.index(),
            g.slot() == old(registry).holds().len(),
            g.held_in(final(registry)),
            final(registry).ids() == old(registry).ids(),
            final(registry).totals() == old(registry).totals().update(
                self.index() as int,
                (old(registry).totals()[self.index() as int] + 1) as nat,
            ),
            final(registry).holds() == old(registry).holds().push(
                Hold { category: self.index(), weight: 1, live: true, sized: false },
            ),
    {
        let slot = registry.open_hold(self.index, 1, false);
        Count::new(self.index, slot)
    }

    /// Hold `initial` against the category until the returned guard is
    /// released; the guard's size can be changed meanwhile.
    pub fn track_size<Id: Eq + Clone>(&self, registry: &mut Registry<Id>, initial: usize) -> (g: Size)
        requires
            old(registry).wf(),
            self.index() < old(registry).totals().len(),
            old(registry).totals()[self.index() as int] + initial <= usize::MAX,
        ensures
            final(registry).wf(),
            g.category() == self.index(),
            g.slot() == old(registry).holds().len(),
            g.local() == initial,
            g.held_in(final(registry)),
            final(registry).ids() == old(registry).ids(),
            final(registry).totals() == old(registry).totals().update(
                self.index() as int,
                (old(registry).totals()[self.index() as int] + initial) as nat,
            ),
            final(registry).holds() == old(registry).holds().push(
                Hold { category: self.index(), weight: initial as nat, live: true, sized: true },
            ),
    {
        let slot = registry.open_hold(self.index, initial, true);
        Size::new(self.index, initial, slot)
    }
}

} // verus!
