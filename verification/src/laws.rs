//! The engine's global guarantees, proved over the model in [`crate::model`]:
//! every run holds a permutation of its input, the number of effective
//! decisions is bounded by the binary-insertion bound, decisions generated
//! from a fixed total order produce the descending sort, and taking a
//! snapshot is idempotent.

use vstd::prelude::*;
use vstd::arithmetic::power2::pow2;

use crate::model::{
    lemma_midpoint, lemma_start_items, lemma_step_model, start_model, step_model, SortModel,
};
use crate::sorter::Choice;

verus! {

/// The state after feeding a sequence of decisions, first to last.
pub open spec fn run_model<T>(s: SortModel<T>, choices: Seq<Choice>) -> SortModel<T>
    decreases choices.len(),
{
    if choices.len() == 0 {
        s
    } else {
        run_model(step_model(s, choices.first()), choices.drop_first())
    }
}

/// How many of the supplied decisions arrive while a comparison is actually
/// pending. Decisions fed to an empty or finished run resolve nothing and are
/// rejected by the engine.
pub open spec fn comparisons_in_run<T>(s: SortModel<T>, choices: Seq<Choice>) -> nat
    decreases choices.len(),
{
    if choices.len() == 0 {
        0
    } else {
        (if s is Comparing {
            1nat
        } else {
            0nat
        }) + comparisons_in_run(step_model(s, choices.first()), choices.drop_first())
    }
}

/// A whole run keeps the state well formed and never gains or loses an item.
pub proof fn lemma_run_model<T>(s: SortModel<T>, choices: Seq<Choice>)
    requires
        s.wf(),
    ensures
        run_model(s, choices).wf(),
        run_model(s, choices).items() == s.items(),
    decreases choices.len(),
{
    if choices.len() > 0 {
        lemma_step_model(s, choices.first());
        lemma_run_model(step_model(s, choices.first()), choices.drop_first());
    }
}

/// **Permutation invariant.** Whatever decisions are fed to a run, it holds
/// exactly the items it was started with; in particular a run driven to
/// completion ends with a permutation of its input.
pub proof fn lemma_run_permutation<T>(items: Seq<T>, choices: Seq<Choice>)
    ensures
        run_model(start_model(items), choices).wf(),
        run_model(start_model(items), choices).items() == items.to_multiset(),
        run_model(start_model(items), choices) matches SortModel::Done { placed }
            ==> placed.to_multiset() == items.to_multiset(),
{
    lemma_start_items(items);
    lemma_run_model(start_model(items), choices);
}

/// The worst-case number of decisions needed to place a candidate through a
/// search window of width `w`: zero for a collapsed window, and one more than
/// for the wider half of the split otherwise. This equals the ceiling of the
/// base-two logarithm of `w + 1`.
pub open spec fn window_cost(w: nat) -> nat
    decreases w,
{
    if w == 0 {
        0
    } else {
        1 + window_cost(w / 2)
    }
}

/// `window_cost(w)` really is the ceiling of the base-two logarithm of
/// `w + 1`: it is the least exponent whose power of two exceeds `w`.
pub proof fn lemma_window_cost_is_ceil_log2(w: nat)
    ensures
        w < pow2(window_cost(w)),
        w > 0 ==> pow2((window_cost(w) - 1) as nat) <= w,
    decreases w,
{
    if w == 0 {
        vstd::arithmetic::power::lemma_pow0(2);
    } else {
        lemma_window_cost_is_ceil_log2(w / 2);
        let k = window_cost(w / 2);
        vstd::arithmetic::power2::lemma_pow2_unfold(k + 1);
        if w / 2 == 0 {
            vstd::arithmetic::power::lemma_pow0(2);
        } else {
            vstd::arithmetic::power2::lemma_pow2_unfold(k);
        }
    }
}

/// The worst-case number of decisions still owed to the candidates below the
/// current one: with `p` items pending over `m` placed, the later candidates
/// will be inserted through full windows of widths `m + 1, …, m + p - 1`.
pub open spec fn rest_cost(m: nat, p: nat) -> nat
    decreases p,
{
    if p <= 1 {
        0
    } else {
        window_cost(m + 1) + rest_cost(m + 1, (p - 1) as nat)
    }
}

/// The worst-case number of decisions for a whole run over `n` items: the sum
/// of the full-window costs for the second to the `n`-th insertion.
pub open spec fn decision_bound(n: nat) -> nat
    decreases n,
{
    if n <= 1 {
        0
    } else {
        decision_bound((n - 1) as nat) + window_cost((n - 1) as nat)
    }
}

/// The decisions a state can still absorb: the cost of the open window plus
/// the cost owed to the candidates below the current one.
pub open spec fn phi<T>(s: SortModel<T>) -> nat {
    match s {
        SortModel::Comparing { pending, placed, lo, hi } => window_cost((hi - lo) as nat)
            + rest_cost(placed.len(), pending.len()),
        _ => 0,
    }
}

/// A wider window never costs fewer decisions.
pub proof fn lemma_window_cost_mono(a: nat, b: nat)
    requires
        a <= b,
    ensures
        window_cost(a) <= window_cost(b),
    decreases b,
{
    if a > 0 {
        lemma_window_cost_mono(a / 2, b / 2);
    }
}

/// Every decision fed to an active run strictly decreases its potential.
pub proof fn lemma_step_phi<T>(s: SortModel<T>, c: Choice)
    requires
        s.wf(),
        s is Comparing,
    ensures
        phi(step_model(s, c)) < phi(s),
{
    match s {
        SortModel::Comparing { pending, placed, lo, hi } => {
            lemma_midpoint(lo, hi);
            let mid = (lo + hi) / 2;
            let w = (hi - lo) as nat;
            let nlo = if c is Left {
                lo
            } else {
                mid + 1
            };
            let nhi = if c is Left {
                mid
            } else {
                hi
            };
            assert(window_cost(w) == 1 + window_cost(w / 2));
            if nlo < nhi {
                let w2 = (nhi - nlo) as nat;
                assert(w2 <= w / 2);
                lemma_window_cost_mono(w2, w / 2);
            } else {
                let pending2 = pending.drop_last();
                let placed2 = placed.insert(nlo, pending.last());
                assert(placed2.len() == placed.len() + 1);
                if pending2.len() == 0 {
                } else {
                    assert(rest_cost(placed.len(), pending.len()) == window_cost(placed.len() + 1)
                        + rest_cost(placed.len() + 1, (pending.len() - 1) as nat));
                }
            }
        },
        _ => {},
    }
}

/// The potential bounds how many decisions a run can absorb.
pub proof fn lemma_comparisons_le_phi<T>(s: SortModel<T>, choices: Seq<Choice>)
    requires
        s.wf(),
    ensures
        comparisons_in_run(s, choices) <= phi(s),
    decreases choices.len(),
{
    if choices.len() > 0 {
        let c = choices.first();
        lemma_step_model(s, c);
        if s is Comparing {
            lemma_step_phi(s, c);
        }
        lemma_comparisons_le_phi(step_model(s, c), choices.drop_first());
    }
}

/// Splitting off the first term of the bound's sum, shifted to start above
/// `m` placed items.
pub proof fn lemma_rest_cost_sum(m: nat, p: nat)
    requires
        p >= 1,
    ensures
        rest_cost(m, p) + decision_bound(m + 1) == decision_bound(m + p),
    decreases p,
{
    if p > 1 {
        lemma_rest_cost_sum(m + 1, (p - 1) as nat);
    }
}

/// A fresh run's potential is exactly the advertised bound for its size.
pub proof fn lemma_start_phi<T>(items: Seq<T>)
    ensures
        phi(start_model(items)) == decision_bound(items.len()),
{
    let n = items.len();
    if n >= 2 {
        assert(window_cost(1nat) == 1) by {
            reveal_with_fuel(window_cost, 3);
        }
        lemma_rest_cost_sum(1, (n - 1) as nat);
        assert(decision_bound(2) == decision_bound(1) + window_cost(1));
        assert(phi(start_model(items)) == window_cost(1) + rest_cost(1, (n - 1) as nat));
    }
}

/// **Decision-count bound.** However the decisions fall, a run over `n` items
/// absorbs at most `decision_bound(n)` of them — the sum over the second to
/// the `n`-th insertion of the ceiling of the base-two logarithm of the
/// insertion's position, and zero when `n` is zero or one.
pub proof fn lemma_decision_bound<T>(items: Seq<T>, choices: Seq<Choice>)
    ensures
        comparisons_in_run(start_model(items), choices) <= decision_bound(items.len()),
{
    lemma_start_items(items);
    lemma_start_phi::<T>(items);
    lemma_comparisons_le_phi(start_model(items), choices);
}

/// The empty and finished states are absorbing: decisions fed to them
/// resolve nothing and change nothing.
proof fn lemma_terminal_absorbs<T>(s: SortModel<T>, choices: Seq<Choice>)
    requires
        !(s is Comparing),
    ensures
        run_model(s, choices) == s,
        comparisons_in_run(s, choices) == 0,
    decreases choices.len(),
{
    if choices.len() > 0 {
        assert(step_model(s, choices.first()) == s);
        lemma_terminal_absorbs(s, choices.drop_first());
    }
}

/// A run that is still comparing has absorbed every decision fed to it so
/// far: terminal states are absorbing, so an active end state means the run
/// was active throughout.
proof fn lemma_still_comparing_absorbed_all<T>(s: SortModel<T>, choices: Seq<Choice>)
    requires
        run_model(s, choices) is Comparing,
    ensures
        comparisons_in_run(s, choices) == choices.len(),
    decreases choices.len(),
{
    if choices.len() > 0 {
        if s is Comparing {
            lemma_still_comparing_absorbed_all(
                step_model(s, choices.first()),
                choices.drop_first(),
            );
        } else {
            lemma_terminal_absorbs(s, choices);
        }
    }
}

/// The engine cannot keep asking: once more decisions have been answered than
/// the bound allows, the run has left the comparing state for good.
pub proof fn lemma_run_completes<T>(items: Seq<T>, choices: Seq<Choice>)
    requires
        choices.len() > decision_bound(items.len()),
    ensures
        !(run_model(start_model(items), choices) is Comparing),
{
    if run_model(start_model(items), choices) is Comparing {
        lemma_still_comparing_absorbed_all(start_model(items), choices);
        lemma_decision_bound(items, choices);
    }
}

/// **Degenerate inputs.** Zero items leave nothing to do, one item is already
/// in order, and neither run ever absorbs a decision.
pub proof fn lemma_degenerate_start<T>(items: Seq<T>, choices: Seq<Choice>)
    requires
        items.len() <= 1,
    ensures
        items.len() == 0 ==> start_model(items) == SortModel::<T>::Empty,
        items.len() == 1 ==> start_model(items) == (SortModel::Done { placed: items }),
        comparisons_in_run(start_model(items), choices) == 0,
{
    lemma_decision_bound(items, choices);
}

/// A strict "outranks" relation: asymmetric, transitive, and total in the
/// sense that distinct values compare one way or the other.
pub open spec fn strict_order<T>(gt: spec_fn(T, T) -> bool) -> bool {
    &&& forall|a: T, b: T| #[trigger] gt(a, b) ==> !gt(b, a)
    &&& forall|a: T, b: T, c: T| #[trigger] gt(a, b) && #[trigger] gt(b, c) ==> gt(a, c)
    &&& forall|a: T, b: T| !(#[trigger] gt(a, b)) && !(#[trigger] gt(b, a)) ==> a == b
}

/// `s` is sorted most-important-first: no later element outranks an earlier
/// one.
pub open spec fn sorted_desc<T>(s: Seq<T>, gt: spec_fn(T, T) -> bool) -> bool {
    forall|i: int, j: int| 0 <= i < j < s.len() ==> !(#[trigger] gt(s[j], s[i]))
}

/// The decision `gt` dictates in a comparing state: the candidate wins
/// exactly when it outranks the pivot.
pub open spec fn order_choice<T>(gt: spec_fn(T, T) -> bool, s: SortModel<T>) -> Choice {
    if s is Comparing && gt(s.candidate(), s.pivot()) {
        Choice::Left
    } else {
        Choice::Right
    }
}

/// Every decision in `choices` is the one `gt` dictates in the state it
/// arrives in, as long as a comparison is pending then; decisions arriving
/// after the run has finished resolve nothing and are unconstrained.
pub open spec fn follows_order<T>(
    s: SortModel<T>,
    choices: Seq<Choice>,
    gt: spec_fn(T, T) -> bool,
) -> bool {
    forall|i: int|
        #![trigger choices.take(i)]
        0 <= i < choices.len() && run_model(s, choices.take(i)) is Comparing ==> choices[i]
            == order_choice(gt, run_model(s, choices.take(i)))
}

/// The invariant a run driven by `gt` maintains: what is placed is sorted,
/// and the open window brackets exactly where the candidate belongs — the
/// candidate outranks everything at or beyond the window, and nothing before
/// it.
pub open spec fn order_inv<T>(s: SortModel<T>, gt: spec_fn(T, T) -> bool) -> bool {
    match s {
        SortModel::Empty => true,
        SortModel::Comparing { pending, placed, lo, hi } => {
            &&& sorted_desc(placed, gt)
            &&& forall|i: int| 0 <= i < lo ==> !gt(pending.last(), #[trigger] placed[i])
            &&& forall|i: int| hi <= i < placed.len() ==> gt(pending.last(), #[trigger] placed[i])
        },
        SortModel::Done { placed } => sorted_desc(placed, gt),
    }
}

/// Inserting the candidate at the point its brackets have narrowed to keeps
/// the sequence sorted.
proof fn lemma_insert_sorted<T>(placed: Seq<T>, pos: int, cand: T, gt: spec_fn(T, T) -> bool)
    requires
        strict_order(gt),
        sorted_desc(placed, gt),
        0 <= pos <= placed.len(),
        forall|i: int| 0 <= i < pos ==> !gt(cand, #[trigger] placed[i]),
        forall|i: int| pos <= i < placed.len() ==> gt(cand, #[trigger] placed[i]),
    ensures
        sorted_desc(placed.insert(pos, cand), gt),
{
    let s2 = placed.insert(pos, cand);
    placed.insert_ensures(pos, cand);
    assert forall|i: int, j: int| 0 <= i < j < s2.len() implies !(#[trigger] gt(s2[j], s2[i])) by {
        if i < pos && j < pos {
            assert(s2[i] == placed[i] && s2[j] == placed[j]);
        } else if i < pos && j == pos {
            assert(s2[i] == placed[i] && s2[j] == cand);
        } else if i < pos {
            assert(s2[i] == placed[i] && s2[j] == placed[j - 1]);
        } else if i == pos {
            assert(s2[i] == cand && s2[j] == placed[j - 1]);
            assert(gt(cand, placed[j - 1]));
        } else {
            assert(s2[i] == placed[i - 1] && s2[j] == placed[j - 1]);
        }
    }
}

/// One decision dictated by `gt` preserves the driven run's invariant.
proof fn lemma_order_step<T>(s: SortModel<T>, gt: spec_fn(T, T) -> bool)
    requires
        s.wf(),
        s is Comparing,
        strict_order(gt),
        order_inv(s, gt),
    ensures
        order_inv(step_model(s, order_choice(gt, s)), gt),
{
    match s {
        SortModel::Comparing { pending, placed, lo, hi } => {
            lemma_midpoint(lo, hi);
            let mid = (lo + hi) / 2;
            let cand = pending.last();
            let pivot = placed[mid];
            if gt(cand, pivot) {
                // The candidate wins, so it outranks the pivot and everything
                // placed below it.
                assert forall|i: int| mid <= i < placed.len() implies gt(
                    cand,
                    #[trigger] placed[i],
                ) by {
                    if i != mid && i < hi {
                        if gt(pivot, placed[i]) {
                        } else {
                            assert(!gt(placed[i], pivot));
                            assert(placed[i] == pivot);
                        }
                    }
                }
                if lo == mid {
                    lemma_insert_sorted(placed, lo, cand, gt);
                }
            } else {
                // The pivot wins, so nothing placed at or above it is
                // outranked by the candidate.
                assert forall|i: int| 0 <= i <= mid implies !gt(cand, #[trigger] placed[i]) by {
                    if i != mid && gt(cand, placed[i]) {
                        if gt(pivot, cand) {
                            assert(gt(pivot, placed[i]));
                        } else {
                            assert(!gt(cand, pivot));
                            assert(pivot == cand);
                        }
                    }
                }
                if mid + 1 == hi {
                    lemma_insert_sorted(placed, mid + 1, cand, gt);
                }
            }
        },
        _ => {},
    }
}

/// A run whose decisions all follow `gt` preserves the driven invariant.
proof fn lemma_order_run<T>(s: SortModel<T>, choices: Seq<Choice>, gt: spec_fn(T, T) -> bool)
    requires
        s.wf(),
        strict_order(gt),
        order_inv(s, gt),
        follows_order(s, choices, gt),
    ensures
        order_inv(run_model(s, choices), gt),
    decreases choices.len(),
{
    if choices.len() > 0 {
        let c = choices.first();
        assert(choices.take(0) =~= Seq::<Choice>::empty());
        assert(run_model(s, choices.take(0)) == s);
        if s is Comparing {
            assert(c == order_choice(gt, s));
            lemma_order_step(s, gt);
        }
        lemma_step_model(s, c);
        let s2 = step_model(s, c);
        let rest = choices.drop_first();
        assert forall|i: int|
            #![trigger rest.take(i)]
            0 <= i < rest.len() && run_model(s2, rest.take(i)) is Comparing implies rest[i]
            == order_choice(gt, run_model(s2, rest.take(i))) by {
            assert(choices.take(i + 1).drop_first() =~= rest.take(i));
            assert(choices.take(i + 1).first() == c);
            assert(run_model(s, choices.take(i + 1)) == run_model(s2, rest.take(i)));
            assert(choices[i + 1] == rest[i]);
        }
        lemma_order_run(s2, rest, gt);
        assert(run_model(s, choices) == run_model(s2, rest));
    }
}

/// **Consistency with a total order.** When every decision is generated from
/// one fixed strict total order — the candidate wins exactly when it outranks
/// the pivot — a run driven to completion yields precisely the descending
/// sort of its input: a permutation of the input that is sorted by the order.
pub proof fn lemma_order_consistency<T>(
    items: Seq<T>,
    choices: Seq<Choice>,
    gt: spec_fn(T, T) -> bool,
)
    requires
        strict_order(gt),
        follows_order(start_model(items), choices, gt),
    ensures
        run_model(start_model(items), choices) matches SortModel::Done { placed } ==> {
            &&& placed.to_multiset() == items.to_multiset()
            &&& sorted_desc(placed, gt)
        },
{
    lemma_start_items(items);
    lemma_order_run(start_model(items), choices, gt);
    lemma_run_permutation(items, choices);
}

/// **Idempotent peek.** A snapshot is a pure function of the state, so taking
/// it again in the same state — the first snapshot now being the previous
/// output — returns the first snapshot unchanged.
pub proof fn lemma_peek_idempotent<T>(s: SortModel<T>, prev: Seq<T>)
    ensures
        s.snapshot(s.snapshot(prev)) == s.snapshot(prev),
{
}

} // verus!
