//! Guards minted by a tracker: each holds weight against one category until
//! it is released.
use vstd::prelude::*;

use crate::ledger::Hold;
use crate::registry::Registry;

verus! {

/// A guard for a resource that is counted by its existence: it holds one unit
/// of its category until released.
pub struct Count {
    category: usize,
    slot: Ghost<nat>,
}

impl Count {
    /// A guard on `category`, accounted for at `slot`.
    pub(crate) fn new(category: usize, slot: Ghost<nat>) -> (g: Count)
        ensures
            g.category() == category,
            g.slot() == slot@,
    {
        Count { category, slot }
    }

    /// Index of the category this guard holds against.
    pub closed spec fn category(&self) -> nat {
        self.category as nat
    }

    /// Position of this guard among the holds of its registry.
    pub closed spec fn slot(&self) -> nat {
        self.slot@
    }

    /// This guard is live in `r`, holding one unit of its category.
    pub open spec fn held_in<Id: Eq + Clone>(&self, r: &Registry<Id>) -> bool {
        &&& self.slot() < r.holds().len()
        &&& r.holds()[self.slot() as int] == (Hold {
            category: self.category(),
            weight: 1,
            live: true,
            sized: false,
        })
    }

    /// Give the unit back: the category's total drops by one.
    pub fn release<Id: Eq + Clone>(self, registry: &mut Registry<Id>)
        requires
            old(registry).wf(),
            self.held_in(old(registry)),
        ensures
            final(registry).wf(),
            final(registry).ids() == old(registry).ids(),
            old(registry).totals()[self.category() as int] >= 1,
            final(registry).totals() == old(registry).totals().update(
                self.category() as int,
                (old(registry).totals()[self.category() as int] - 1) as nat,
            ),
            final(registry).holds() == old(registry).holds().update(
                self.slot() as int,
                Hold { category: self.category(), weight: 1, live: false, sized: false },
            ),
    {
        registry.close_hold(self.slot, self.category, false, 1);
    }
}

/// A guard for a resource of changing size: it holds its current size
/// against its category until released.
pub struct Size {
    category: usize,
    local: usize,
    slot: Ghost<nat>,
}

impl Size {
    /// A guard holding `local` on `category`, accounted for at `slot`.
    pub(crate) fn new(category: usize, local: usize, slot: Ghost<nat>) -> (g: Size)
        ensures
            g.category() == category,
            g.local() == local,
            g.slot() == slot@,
    {
        Size { category, local, slot }
    }

    /// Index of the category this guard holds against.
    pub closed spec fn category(&self) -> nat {
        self.category as nat
    }

    /// What this guard currently contributes to its category.
    pub closed spec fn local(&self) -> nat {
        self.local as nat
    }

    /// Position of this guard among the holds of its registry.
    pub closed spec fn slot(&self) -> nat {
        self.slot@
    }

    /// What this guard currently holds.
    pub fn current(&self) -> (r: usize)
        ensures
            r == self.local(),
    {
        self.local
    }

    /// This guard is live in `r`, holding `local()` against its category.
    pub open spec fn held_in<Id: Eq + Clone>(&self, r: &Registry<Id>) -> bool {
        &&& self.slot() < r.holds().len()
        &&& r.holds()[self.slot() as int] == (Hold {
            category: self.category(),
            weight: self.local(),
            live: true,
            sized: true,
        })
    }

    /// `self` is `old` with its contribution changed to `local`, held in `r`.
    pub open spec fn resized<Id: Eq + Clone>(&self, old: Size, local: nat, r: &Registry<Id>) -> bool {
        &&& self.category() == old.category()
        &&& self.slot() == old.slot()
        &&& self.local() == local
        &&& self.held_in(r)
    }

    /// Change what this guard holds to `new_size`; the category's total moves
    /// by the difference.
    pub fn set<Id: Eq + Clone>(&mut self, registry: &mut Registry<Id>, new_size: usize)
        requires
            old(registry).wf(),
            old(self).held_in(old(registry)),
            old(registry).totals()[old(self).category() as int] - old(self).local() + new_size
                <= usize::MAX,
        ensures
            final(registry).wf(),
            final(self).resized(*old(self), new_size as nat, final(registry)),
            final(registry).ids() == old(registry).ids(),
            old(registry).totals()[old(self).category() as int] >= old(self).local(),
            final(registry).totals() == old(registry).totals().update(
                old(self).category() as int,
                (old(registry).totals()[old(self).category() as int] - old(self).local()
                    + new_size) as nat,
            ),
            final(registry).holds() == old(registry).holds().update(
                old(self).slot() as int,
                Hold { category: old(self).category(), weight: new_size as nat, live: true, sized: true },
            ),
    {
        registry.reweigh(self.slot, self.category, true, self.local, new_size);
        self.local = new_size;
    }

    /// Hold `amount` more; the category's total rises by `amount`.
    pub fn add<Id: Eq + Clone>(&mut self, registry: &mut Registry<Id>, amount: usize)
        requires
            old(registry).wf(),
            old(self).held_in(old(registry)),
            old(registry).totals()[old(self).category() as int] + amount <= usize::MAX,
        ensures
            final(registry).wf(),
            final(self).resized(*old(self), (old(self).local() + amount) as nat, final(registry)),
            final(registry).ids() == old(registry).ids(),
            final(registry).totals() == old(registry).totals().update(
                old(self).category() as int,
                (old(registry).totals()[old(self).category() as int] + amount) as nat,
            ),
            final(registry).holds() == old(registry).holds().update(
                old(self).slot() as int,
                Hold {
                    category: old(self).category(),
                    weight: (old(self).local() + amount) as nat,
                    live: true,
                    sized: true,
                },
            ),
    {
        proof {
            registry.lemma_held_within_total(self.slot@, self.category as nat);
        }
        let next = self.local + amount;
        registry.reweigh(self.slot, self.category, true, self.local, next);
        self.local = next;
    }

    /// Hold `amount` less, but never less than nothing: the guard's
    /// contribution becomes `local - amount` clamped at zero, and the
    /// category's total drops by what was actually given back.
    pub fn subtract<Id: Eq + Clone>(&mut self, registry: &mut Registry<Id>, amount: usize)
        requires
            old(registry).wf(),
            old(self).held_in(old(registry)),
        ensures
            final(registry).wf(),
            final(self).resized(*old(self), clamped_sub(old(self).local(), amount as nat), final(registry)),
            final(registry).ids() == old(registry).ids(),
            old(registry).totals()[old(self).category() as int] >= old(self).local(),
            final(registry).totals() == old(registry).totals().update(
                old(self).category() as int,
                (old(registry).totals()[old(self).category() as int] - old(self).local()
                    + clamped_sub(old(self).local(), amount as nat)) as nat,
            ),
            final(registry).holds() == old(registry).holds().update(
                old(self).slot() as int,
                Hold {
                    category: old(self).category(),
                    weight: clamped_sub(old(self).local(), amount as nat),
                    live: true,
                    sized: true,
                },
            ),
    {
        let given_back = if amount < self.local {
            amount
        } else {
            self.local
        };
        let next = self.local - given_back;
        registry.reweigh(self.slot, self.category, true, self.local, next);
        self.local = next;
    }

    /// Give back everything this guard holds: the category's total drops by
    /// `local()`.
    pub fn release<Id: Eq + Clone>(self, registry: &mut Registry<Id>)
        requires
            old(registry).wf(),
            self.held_in(old(registry)),
        ensures
            final(registry).wf(),
            final(registry).ids() == old(registry).ids(),
            old(registry).totals()[self.category() as int] >= self.local(),
            final(registry).totals() == old(registry).totals().update(
                self.category() as int,
                (old(registry).totals()[self.category() as int] - self.local()) as nat,
            ),
            final(registry).holds() == old(registry).holds().update(
                self.slot() as int,
                Hold { category: self.category(), weight: self.local(), live: false, sized: true },
            ),
    {
        registry.close_hold(self.slot, self.category, true, self.local);
    }
}

/// `a - b`, or zero where `b` exceeds `a`.
pub open spec fn clamped_sub(a: nat, b: nat) -> nat {
    if b < a {
        (a - b) as nat
    } else {
        0
    }
}

} // verus!
