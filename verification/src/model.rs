//! The mathematical model of one sorting run: what a run's state means, how
//! `start` seeds it, and how each external decision transforms it.

use vstd::prelude::*;
use vstd::multiset::Multiset;

use crate::sorter::Choice;

verus! {

/// Ghost counterpart of [`crate::sorter::SortState`]: the state of a run over
/// mathematical sequences.
pub enum SortModel<T> {
    Empty,
    Comparing { pending: Seq<T>, placed: Seq<T>, lo: int, hi: int },
    Done { placed: Seq<T> },
}

impl<T> SortModel<T> {
    /// Well-formedness: an active run always has a candidate waiting and a
    /// non-collapsed search window inside the placed sequence.
    pub open spec fn wf(self) -> bool {
        match self {
            SortModel::Empty => true,
            SortModel::Comparing { pending, placed, lo, hi } => {
                &&& pending.len() >= 1
                &&& 0 <= lo < hi <= placed.len()
            },
            SortModel::Done { .. } => true,
        }
    }

    /// Every item the run currently holds, as a multiset.
    pub open spec fn items(self) -> Multiset<T> {
        match self {
            SortModel::Empty => Multiset::empty(),
            SortModel::Comparing { pending, placed, .. } => placed.to_multiset().add(
                pending.to_multiset(),
            ),
            SortModel::Done { placed } => placed.to_multiset(),
        }
    }

    /// The item currently being placed: the top of the pending stack.
    pub open spec fn candidate(self) -> T
        recommends
            self is Comparing,
    {
        self->Comparing_pending.last()
    }

    /// The placed item the candidate is currently compared against: the one
    /// at the midpoint of the open window.
    pub open spec fn pivot(self) -> T
        recommends
            self is Comparing,
    {
        self->Comparing_placed[(self->Comparing_lo + self->Comparing_hi) / 2]
    }

    /// The best available ordering in this state, given the previous contents
    /// `prev` of the output: a completed run yields its final order, an active
    /// run yields the settled prefix followed by the pending stack in its
    /// current internal order, and an empty run leaves the output untouched.
    pub open spec fn snapshot(self, prev: Seq<T>) -> Seq<T> {
        match self {
            SortModel::Empty => prev,
            SortModel::Comparing { pending, placed, .. } => placed + pending,
            SortModel::Done { placed } => placed,
        }
    }
}

/// The state `start` establishes for a given input sequence.
pub open spec fn start_model<T>(items: Seq<T>) -> SortModel<T> {
    if items.len() == 0 {
        SortModel::Empty
    } else if items.len() == 1 {
        SortModel::Done { placed: items }
    } else {
        SortModel::Comparing {
            pending: items.subrange(1, items.len() as int),
            placed: seq![items[0]],
            lo: 0,
            hi: 1,
        }
    }
}

/// The state one decision produces: the window narrows towards the half the
/// decision selects, and once it collapses the candidate is inserted at the
/// collapse point, finishing the run if no candidate remains.
pub open spec fn step_model<T>(s: SortModel<T>, c: Choice) -> SortModel<T> {
    match s {
        SortModel::Comparing { pending, placed, lo, hi } => {
            let mid = (lo + hi) / 2;
            let nlo = if c is Left { lo } else { mid + 1 };
            let nhi = if c is Left { mid } else { hi };
            if nlo < nhi {
                SortModel::Comparing { pending, placed, lo: nlo, hi: nhi }
            } else {
                let placed2 = placed.insert(nlo, pending.last());
                let pending2 = pending.drop_last();
                if pending2.len() == 0 {
                    SortModel::Done { placed: placed2 }
                } else {
                    SortModel::Comparing {
                        pending: pending2,
                        placed: placed2,
                        lo: 0,
                        hi: placed2.len() as int,
                    }
                }
            }
        },
        _ => s,
    }
}

/// The midpoint of a window, as the engine computes it without risking
/// arithmetic overflow, is the same index the model's `(lo + hi) / 2` names,
/// and it lies strictly inside the window.
pub proof fn lemma_midpoint(lo: int, hi: int)
    requires
        0 <= lo < hi,
    ensures
        lo + (hi - lo) / 2 == (lo + hi) / 2,
        lo <= (lo + hi) / 2 < hi,
{
    let d = hi - lo;
    assert(lo + hi == 2 * lo + d);
    assert((2 * lo + d) / 2 == lo + d / 2) by (nonlinear_arith);
    assert(0 <= d / 2 < d);
}

/// A `Clone` implementation is faithful when every value it can produce is
/// equal to the value it cloned. `String`, the integer types, and this
/// library's own [`crate::item::Item`] all qualify; the engine's snapshots
/// reproduce its state exactly for any such item type.
pub open spec fn clone_faithful<T: Clone>() -> bool {
    forall|a: T, b: T| cloned::<T>(a, b) ==> b == a
}

/// Inserting an element anywhere in a sequence adds exactly that element to
/// its multiset.
pub proof fn lemma_insert_to_multiset<T>(s: Seq<T>, pos: int, elt: T)
    requires
        0 <= pos <= s.len(),
    ensures
        s.insert(pos, elt).to_multiset() == s.to_multiset().insert(elt),
{
    broadcast use vstd::seq_lib::group_to_multiset_ensures;
    broadcast use vstd::multiset::group_multiset_axioms;

    let a = s.subrange(0, pos);
    let b = s.subrange(pos, s.len() as int);
    assert(s.insert(pos, elt) == a.push(elt) + b);
    vstd::seq_lib::lemma_multiset_commutative(a.push(elt), b);
    vstd::seq_lib::lemma_multiset_commutative(a, b);
    assert(a + b =~= s);
    assert(a.push(elt).to_multiset() =~= a.to_multiset().insert(elt));
    assert(s.insert(pos, elt).to_multiset() =~= s.to_multiset().insert(elt));
}

/// The state `start` builds is well formed and holds exactly the input items.
pub proof fn lemma_start_items<T>(items: Seq<T>)
    ensures
        start_model(items).wf(),
        start_model(items).items() == items.to_multiset(),
{
    broadcast use vstd::seq_lib::group_to_multiset_ensures;
    broadcast use vstd::multiset::group_multiset_axioms;

    if items.len() == 0 {
        assert forall|x: T| items.to_multiset().count(x) == 0 by {
            assert(!items.contains(x));
        }
        assert(start_model(items).items() =~= items.to_multiset());
    } else if items.len() >= 2 {
        let placed = seq![items[0]];
        let pending = items.subrange(1, items.len() as int);
        vstd::seq_lib::lemma_multiset_commutative(placed, pending);
        assert(placed + pending =~= items);
    }
}

/// One decision keeps the run well formed and moves no item in or out.
pub proof fn lemma_step_model<T>(s: SortModel<T>, c: Choice)
    requires
        s.wf(),
    ensures
        step_model(s, c).wf(),
        step_model(s, c).items() == s.items(),
{
    broadcast use vstd::seq_lib::group_to_multiset_ensures;
    broadcast use vstd::multiset::group_multiset_axioms;

    match s {
        SortModel::Comparing { pending, placed, lo, hi } => {
            let mid = (lo + hi) / 2;
            let nlo = if c is Left { lo } else { mid + 1 };
            let nhi = if c is Left { mid } else { hi };
            assert(lo <= mid < hi);
            if nlo < nhi {
            } else {
                assert(nlo == nhi);
                let cand = pending.last();
                let placed2 = placed.insert(nlo, cand);
                let pending2 = pending.drop_last();
                lemma_insert_to_multiset(placed, nlo, cand);
                assert(pending2 =~= pending.remove(pending.len() - 1));
                assert(pending2.to_multiset() == pending.to_multiset().remove(cand));
                assert(pending.to_multiset().count(cand) >= 1) by {
                    assert(pending.contains(cand));
                }
                assert(placed2.to_multiset().add(pending2.to_multiset()) =~= placed.to_multiset()
                    .add(pending.to_multiset()));
                if pending2.len() == 0 {
                    assert(pending.to_multiset().len() == 1);
                    assert(pending2.to_multiset().len() == 0);
                    assert(pending2.to_multiset() =~= Multiset::<T>::empty());
                    assert(step_model(s, c).items() =~= s.items());
                }
            }
        },
        _ => {},
    }
}

} // verus!
