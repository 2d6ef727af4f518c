//! The mathematical account of outstanding holds: every guard ever minted is
//! one entry, and a category's counter is the sum of its live entries.
use vstd::prelude::*;

verus! {

/// One guard as the registry accounts for it.
pub struct Hold {
    /// Index of the category the guard was minted for.
    pub category: nat,
    /// What the guard currently contributes to its category's counter.
    pub weight: nat,
    /// False once the guard has been released.
    pub live: bool,
    /// True for a size guard, false for a count guard.
    pub sized: bool,
}

/// What hold `h` contributes to category `c`.
pub open spec fn share(h: Hold, c: nat) -> nat {
    if h.live && h.category == c {
        h.weight
    } else {
        0
    }
}

/// Sum of the contributions of the live holds of category `c`.
pub open spec fn outstanding(holds: Seq<Hold>, c: nat) -> nat
    decreases holds.len(),
{
    if holds.len() == 0 {
        0
    } else {
        outstanding(holds.drop_last(), c) + share(holds.last(), c)
    }
}

/// Number of live holds of category `c`.
pub open spec fn live_holds(holds: Seq<Hold>, c: nat) -> nat
    decreases holds.len(),
{
    if holds.len() == 0 {
        0
    } else {
        live_holds(holds.drop_last(), c) + (if holds.last().live && holds.last().category == c {
            1nat
        } else {
            0nat
        })
    }
}

/// Appending a hold adds its share.
pub proof fn lemma_outstanding_push(holds: Seq<Hold>, h: Hold, c: nat)
    ensures
        outstanding(holds.push(h), c) == outstanding(holds, c) + share(h, c),
{
    assert(holds.push(h).drop_last() =~= holds);
}

/// Replacing one hold swaps its share for the new one's.
pub proof fn lemma_outstanding_update(holds: Seq<Hold>, k: int, h: Hold, c: nat)
    requires
        0 <= k < holds.len(),
    ensures
        outstanding(holds.update(k, h), c) + share(holds[k], c) == outstanding(holds, c) + share(
            h,
            c,
        ),
    decreases holds.len(),
{
    let n = holds.len() - 1;
    if k == n {
        assert(holds.update(k, h).drop_last() =~= holds.drop_last());
    } else {
        lemma_outstanding_update(holds.drop_last(), k, h, c);
        assert(holds.update(k, h).drop_last() =~= holds.drop_last().update(k, h));
    }
}

/// No live hold contributes more than its category's sum.
pub proof fn lemma_share_bounded(holds: Seq<Hold>, k: int, c: nat)
    requires
        0 <= k < holds.len(),
    ensures
        share(holds[k], c) <= outstanding(holds, c),
{
    let h = Hold { weight: 0, ..holds[k] };
    lemma_outstanding_update(holds, k, h, c);
}

/// Where every live hold of `c` weighs one, the sum is the number of live holds.
pub proof fn lemma_outstanding_unit(holds: Seq<Hold>, c: nat)
    requires
        forall|k: int|
            0 <= k < holds.len() && holds[k].live && holds[k].category == c ==> holds[k].weight
                == 1,
    ensures
        outstanding(holds, c) == live_holds(holds, c),
    decreases holds.len(),
{
    if holds.len() > 0 {
        lemma_outstanding_unit(holds.drop_last(), c);
    }
}

/// Where no hold of `c` is live, the sum is zero.
pub proof fn lemma_outstanding_none_live(holds: Seq<Hold>, c: nat)
    requires
        forall|k: int| 0 <= k < holds.len() ==> !(holds[k].live && holds[k].category == c),
    ensures
        outstanding(holds, c) == 0,
    decreases holds.len(),
{
    if holds.len() > 0 {
        lemma_outstanding_none_live(holds.drop_last(), c);
    }
}

} // verus!
