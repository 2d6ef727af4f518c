//! Laws that hold across the operations of a registry.
use vstd::prelude::*;
use vstd::laws_eq::{obeys_eq, obeys_eq_spec_properties};
use vstd::std_specs::cmp::PartialEqSpec;

use crate::ledger::{lemma_outstanding_none_live, lemma_outstanding_unit, live_holds};
use crate::registry::{first_equal, ids_after, index_for, lemma_first_equal_at, lemma_first_equal_none, Registry};

verus! {

/// What a found index says: it equals `name`, and no earlier one does.
proof fn lemma_first_equal_found<Id: Eq>(ids: Seq<Id>, name: Id)
    requires
        first_equal(ids, name) is Some,
    ensures
        ({
            let i = first_equal(ids, name)->Some_0 as int;
            &&& 0 <= i < ids.len()
            &&& ids[i].eq_spec(&name)
            &&& forall|j: int| 0 <= j < i ==> !ids[j].eq_spec(&name)
        }),
    decreases ids.len(),
{
    let init = ids.drop_last();
    if first_equal(init, name) is Some {
        lemma_first_equal_found(init, name);
        let i = first_equal(init, name)->Some_0 as int;
        assert forall|j: int| 0 <= j < i implies !ids[j].eq_spec(&name) by {
            assert(init[j] == ids[j]);
        }
        assert(init[i] == ids[i]);
    } else {
        lemma_first_equal_absent(init, name);
        assert forall|j: int| 0 <= j < ids.len() - 1 implies !ids[j].eq_spec(&name) by {
            assert(init[j] == ids[j]);
        }
    }
}

/// Where nothing is found, no identifier equals `name`.
proof fn lemma_first_equal_absent<Id: Eq>(ids: Seq<Id>, name: Id)
    requires
        first_equal(ids, name) is None,
    ensures
        forall|j: int| 0 <= j < ids.len() ==> !ids[j].eq_spec(&name),
    decreases ids.len(),
{
    if ids.len() > 0 {
        let init = ids.drop_last();
        lemma_first_equal_absent(init, name);
        assert forall|j: int| 0 <= j < ids.len() implies !ids[j].eq_spec(&name) by {
            if j < ids.len() - 1 {
                assert(init[j] == ids[j]);
            }
        }
    }
}

/// Categories are keyed by equality of identifiers, not by which value was
/// handed in: once `a` has been referenced, referencing any `b` equal to it
/// finds the same category and creates none.
pub proof fn lemma_equal_ids_share_category<Id: Eq>(ids: Seq<Id>, a: Id, b: Id)
    requires
        obeys_eq::<Id>(),
        a.eq_spec(&b),
    ensures
        first_equal(ids_after(ids, a), b) == Some(index_for(ids, a)),
        ids_after(ids_after(ids, a), b) == ids_after(ids, a),
{
    reveal(obeys_eq_spec_properties);
    match first_equal(ids, a) {
        Some(i) => {
            lemma_first_equal_found(ids, a);
            assert(ids[i as int].eq_spec(&b));
            assert forall|j: int| 0 <= j < i implies !ids[j].eq_spec(&b) by {
                if ids[j].eq_spec(&b) {
                    assert(b.eq_spec(&a));
                    assert(ids[j].eq_spec(&a));
                }
            }
            lemma_first_equal_at(ids, b, i as int);
        },
        None => {
            lemma_first_equal_absent(ids, a);
            let grown = ids.push(a);
            assert forall|j: int| 0 <= j < ids.len() implies !grown[j].eq_spec(&b) by {
                if grown[j].eq_spec(&b) {
                    assert(b.eq_spec(&a));
                    assert(ids[j].eq_spec(&a));
                }
            }
            lemma_first_equal_at(grown, b, ids.len() as int);
        },
    }
}

/// Referencing `name` keeps every category already listed, adds at most
/// the one keyed by `name`, and leaves a category for `name` in the list.
pub proof fn lemma_referenced_is_listed<Id: Eq>(ids: Seq<Id>, name: Id)
    ensures
        ids_after(ids, name).len() <= ids.len() + 1,
        ids_after(ids, name).subrange(0, ids.len() as int) == ids,
        index_for(ids, name) < ids_after(ids, name).len(),
        ids_after(ids, name)[index_for(ids, name) as int].eq_spec(&name)
            || ids_after(ids, name)[index_for(ids, name) as int] == name,
        ids_after(ids, name).len() == ids.len() + 1 ==> ids_after(ids, name).last() == name,
{
    match first_equal(ids, name) {
        Some(_) => {
            lemma_first_equal_found(ids, name);
            assert(ids.subrange(0, ids.len() as int) =~= ids);
        },
        None => {
            assert(ids.push(name).subrange(0, ids.len() as int) =~= ids);
        },
    }
}

/// A category's total is the number of live count guards on it, so long as
/// no size guard on it is live; and it is zero once no guard on it is live.
pub proof fn lemma_total_counts_live_guards<Id: Eq + Clone>(r: &Registry<Id>, c: nat)
    requires
        r.wf(),
        c < r.totals().len(),
    ensures
        (forall|k: int|
            0 <= k < r.holds().len() && r.holds()[k].live && r.holds()[k].category == c
                ==> !#[trigger] r.holds()[k].sized) ==> r.totals()[c as int] == live_holds(
            r.holds(),
            c,
        ),
        (forall|k: int|
            0 <= k < r.holds().len() ==> !(#[trigger] r.holds()[k].live && r.holds()[k].category
                == c)) ==> r.totals()[c as int] == 0,
{
    assert(r.totals()[c as int] == crate::ledger::outstanding(r.holds(), c));
    if forall|k: int|
        0 <= k < r.holds().len() && r.holds()[k].live && r.holds()[k].category == c
            ==> !#[trigger] r.holds()[k].sized {
        assert forall|k: int|
            0 <= k < r.holds().len() && r.holds()[k].live && r.holds()[k].category == c
                implies r.holds()[k].weight == 1 by {
            assert(!r.holds()[k].sized);
        }
        lemma_outstanding_unit(r.holds(), c);
    }
    if forall|k: int|
        0 <= k < r.holds().len() ==> !(#[trigger] r.holds()[k].live && r.holds()[k].category
            == c) {
        lemma_outstanding_none_live(r.holds(), c);
    }
}

/// Reading is not destructive: two snapshots of one registry state agree on
/// every total and list the same categories in the same order; where cloning
/// an identifier yields an equal value, the two snapshots are equal.
pub proof fn lemma_snapshots_agree<Id: Eq + Clone>(
    r: &Registry<Id>,
    s1: Seq<(Id, usize)>,
    s2: Seq<(Id, usize)>,
)
    requires
        r.wf(),
        r.is_snapshot(s1),
        r.is_snapshot(s2),
    ensures
        s1.len() == s2.len(),
        forall|j: int| 0 <= j < s1.len() ==> #[trigger] s1[j].1 == s2[j].1,
        forall|j: int|
            0 <= j < s1.len() ==> cloned(r.ids()[j], #[trigger] s1[j].0) && cloned(
                r.ids()[j],
                s2[j].0,
            ),
        (forall|a: Id, b: Id| #[trigger] cloned(a, b) ==> a == b) ==> s1 == s2,
{
    assert forall|j: int| 0 <= j < s1.len() implies #[trigger] s1[j].1 == s2[j].1 by {
        assert(cloned(r.ids()[j], s1[j].0));
        assert(cloned(r.ids()[j], s2[j].0));
    }
    if forall|a: Id, b: Id| #[trigger] cloned(a, b) ==> a == b {
        assert forall|j: int| 0 <= j < s1.len() implies s1[j] == s2[j] by {
            assert(cloned(r.ids()[j], s1[j].0));
            assert(cloned(r.ids()[j], s2[j].0));
        }
        assert(s1 =~= s2);
    }
}

} // verus!
