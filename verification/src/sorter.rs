//! The incremental sorting engine: a resumable binary-insertion sort whose
//! comparisons are answered by an external decision-maker, one call of
//! [`Sorter::make_choice`] per decision.

use vstd::prelude::*;

use crate::model::{clone_faithful, start_model, step_model, SortModel};

verus! {

/// The one failure the engine can signal: a decision was supplied while no
/// comparison was pending (the state was `Empty` or `Done`).
#[derive(Debug, Clone, Copy, PartialEq, Eq, Structural)]
pub enum SortError {
    InvalidOperation,
}

/// One external decision: `Left` means the current candidate outranks the
/// pivot it is being compared against; `Right` means the pivot outranks the
/// candidate.
#[derive(Debug, Clone, Copy)]
pub enum Choice {
    Left,
    Right,
}

/// The entire lifecycle of one sorting run.
///
/// - `Empty`: no run in progress, or a run was started with zero items.
/// - `Compare`: an active run. `unsorted` is a LIFO stack of items not yet
///   placed (the current candidate is its last element); `sorted` is the
///   total order built so far, most important first; `[lo, hi)` is the
///   binary-search window in `sorted` bounding where the candidate will land.
/// - `Done`: the run is complete and `sorted` holds every item supplied, in
///   final priority order.
pub enum SortState<T> {
    Empty,
    Compare { unsorted: Vec<T>, sorted: Vec<T>, lo: usize, hi: usize },
    Done { sorted: Vec<T> },
}

impl<T> View for SortState<T> {
    type V = SortModel<T>;

    open spec fn view(&self) -> SortModel<T> {
        match self {
            SortState::Empty => SortModel::Empty,
            SortState::Compare { unsorted, sorted, lo, hi } => SortModel::Comparing {
                pending: unsorted@,
                placed: sorted@,
                lo: *lo as int,
                hi: *hi as int,
            },
            SortState::Done { sorted } => SortModel::Done { placed: sorted@ },
        }
    }
}

/// The single mutable owner of one [`SortState`].
pub struct Sorter<T> {
    pub state: SortState<T>,
}

impl<T> View for Sorter<T> {
    type V = SortModel<T>;

    open spec fn view(&self) -> SortModel<T> {
        self.state@
    }
}

impl<T: Clone> Sorter<T> {
    /// A fresh sorter with no run in progress.
    pub fn new() -> (s: Sorter<T>)
        ensures
            s@ == SortModel::<T>::Empty,
    {
        let state = SortState::Empty;
        Sorter { state }
    }

    /// Begin a new run over `items`, discarding any run in progress.
    ///
    /// Zero items leave nothing to do (`Empty`); a single item is already in
    /// order (`Done`); otherwise the first item seeds the sorted order and the
    /// rest await placement, the last-supplied item being the first candidate.
    pub fn start_sorting(&mut self, items: Vec<T>)
        ensures
            final(self)@ == start_model(items@),
            final(self)@.wf(),
            final(self)@.items() == items@.to_multiset(),
    {
        proof {
            crate::model::lemma_start_items(items@);
        }
        let n = items.len();
        if n == 0 {
            self.state = SortState::Empty;
            return;
        }
        if n == 1 {
            self.state = SortState::Done { sorted: items };
            return;
        }

        let ghost items_seq = items@;
        // Seed the order with the first item; the rest are candidates,
        // processed from the last one supplied backwards.
        let mut unsorted = items;
        let first = unsorted.remove(0);
        let mut sorted: Vec<T> = Vec::new();
        sorted.push(first);

        let lo: usize = 0;
        let hi: usize = sorted.len();

        proof {
            assert(unsorted@ =~= items_seq.subrange(1, items_seq.len() as int));
            assert(sorted@ =~= seq![items_seq[0]]);
        }

        self.state = SortState::Compare { unsorted, sorted, lo, hi };
    }

    /// Feed one external decision into the run.
    ///
    /// While the search window is open the window narrows; once it collapses
    /// the candidate is inserted at the collapse point, and the run either
    /// finishes or moves on to the next candidate with a full window. Calling
    /// this with no comparison pending is an invalid operation and leaves the
    /// state untouched.
    pub fn make_choice(&mut self, choice: Choice) -> (r: Result<(), SortError>)
        requires
            old(self)@.wf(),
        ensures
            final(self)@.wf(),
            old(self)@ is Comparing ==> r == Ok::<(), SortError>(()) && final(self)@ == step_model(
                old(self)@,
                choice,
            ),
            !(old(self)@ is Comparing) ==> r == Err::<(), SortError>(SortError::InvalidOperation)
                && *final(self) == *old(self),
            final(self)@.items() == old(self)@.items(),
    {
        proof {
            crate::model::lemma_step_model(self@, choice);
        }
        let mut st = SortState::Empty;
        core::mem::swap(&mut self.state, &mut st);
        match st {
            SortState::Compare { mut unsorted, mut sorted, lo, hi } => {
                let mid = lo + (hi - lo) / 2;
                proof {
                    crate::model::lemma_midpoint(lo as int, hi as int);
                }
                let nlo = if matches!(choice, Choice::Left) { lo } else { mid + 1 };
                let nhi = if matches!(choice, Choice::Left) { mid } else { hi };
                if nlo < nhi {
                    // The window is still open: persist it and wait for the
                    // next decision about the same candidate.
                    self.state = SortState::Compare { unsorted, sorted, lo: nlo, hi: nhi };
                } else {
                    // The window collapsed: the candidate's rank is `nlo`.
                    let x = unsorted.pop().unwrap();
                    sorted.insert(nlo, x);
                    if unsorted.len() == 0 {
                        self.state = SortState::Done { sorted };
                    } else {
                        let hi2 = sorted.len();
                        self.state = SortState::Compare { unsorted, sorted, lo: 0, hi: hi2 };
                    }
                }
                Ok(())
            },
            other => {
                self.state = other;
                Err(SortError::InvalidOperation)
            },
        }
    }

    /// The two items of the pending comparison — the candidate being placed,
    /// then the pivot it is measured against — or nothing when no comparison
    /// is pending.
    pub fn current_pair(&self) -> (r: Option<(&T, &T)>)
        requires
            self@.wf(),
        ensures
            r matches Some(cp) ==> self@ is Comparing && *cp.0 == self@.candidate() && *cp.1
                == self@.pivot(),
            r is None <==> !(self@ is Comparing),
    {
        match &self.state {
            SortState::Compare { unsorted, sorted, lo, hi } => {
                let mid = *lo + (*hi - *lo) / 2;
                proof {
                    crate::model::lemma_midpoint(*lo as int, *hi as int);
                }
                Some((&unsorted[unsorted.len() - 1], &sorted[mid]))
            },
            _ => None,
        }
    }

    /// Write the best available ordering into `items` without disturbing the
    /// run: the final order once `Done`, the settled prefix followed by the
    /// pending stack while `Compare`, and nothing at all (the previous
    /// contents survive) while `Empty`.
    pub fn finish_sorting(&mut self, items: &mut Vec<T>)
        ensures
            *final(self) == *old(self),
            old(self)@ is Empty ==> *final(items) == *old(items),
            final(items)@.len() == old(self)@.snapshot(old(items)@).len(),
            forall|i: int|
                0 <= i < final(items)@.len() ==> cloned::<T>(
                    old(self)@.snapshot(old(items)@)[i],
                    final(items)@[i],
                ),
            clone_faithful::<T>() ==> final(items)@ == old(self)@.snapshot(old(items)@),
    {
        match &self.state {
            SortState::Done { sorted } => {
                *items = sorted.clone();
                proof {
                    if clone_faithful::<T>() {
                        assert(items@ =~= sorted@);
                    }
                }
            },
            SortState::Empty => {},
            SortState::Compare { unsorted, sorted, .. } => {
                let ghost snap = sorted@ + unsorted@;
                let mut out = sorted.clone();
                let mut rest = unsorted.clone();
                out.append(&mut rest);
                proof {
                    if clone_faithful::<T>() {
                        assert(out@ =~= snap);
                    }
                }
                *items = out;
            },
        }
    }
}

} // verus!
