//! A list that shows the elements of a collection that pass a test, and
//! keeps one of them selected.

pub mod view;

use crate::filtered_list::view::{
    equality_known, first_match, lemma_first_match, lemma_first_match_is, next_selection,
    previous_selection, same, selection_after,
};
use vstd::prelude::*;

verus! {

/// The elements of a collection that pass a test, in the order of the
/// collection, and the place of the one that is selected. The list borrows
/// the collection: as long as the list is there the collection cannot
/// change.
pub struct FilteredList<'a, T> {
    items: Vec<&'a T>,
    origins: Vec<usize>,
    selected: Option<usize>,
}

impl<'a, T: PartialEq> FilteredList<'a, T> {
    /// The elements that are shown.
    pub closed spec fn shown(&self) -> Seq<T> {
        Seq::new(self.items@.len(), |k: int| *self.items@[k])
    }

    /// For each element that is shown, its place in the collection.
    pub closed spec fn origins(&self) -> Seq<int> {
        Seq::new(self.origins@.len(), |k: int| self.origins@[k] as int)
    }

    /// The place, among the elements that are shown, of the one that is
    /// selected.
    pub closed spec fn selection(&self) -> Option<int> {
        match self.selected {
            Some(k) => Some(k as int),
            None => None,
        }
    }

    /// What holds of every list: each element that is shown has its place
    /// of origin, and the selection is the place of an element that is
    /// shown.
    pub open spec fn wf(&self) -> bool {
        &&& self.origins().len() == self.shown().len()
        &&& self.selection() matches Some(k) ==> 0 <= k < self.shown().len()
    }

    /// The element that is selected.
    pub open spec fn selected_value(&self) -> Option<T> {
        match self.selection() {
            Some(k) => Some(self.shown()[k]),
            None => None,
        }
    }

    /// A list that shows nothing.
    pub fn new() -> (list: Self)
        ensures
            list.wf(),
            list.shown().len() == 0,
            list.selection() is None,
    {
        FilteredList { items: Vec::new(), origins: Vec::new(), selected: None }
    }

    /// The element that is selected.
    pub fn selected_item(&self) -> (item: Option<&'a T>)
        requires
            self.wf(),
        ensures
            match self.selected_value() {
                Some(value) => item matches Some(found) && *found == value,
                None => item is None,
            },
    {
        match self.selected {
            Some(k) => Some(self.items[k]),
            None => None,
        }
    }

    /// The number of elements that are shown.
    pub fn len(&self) -> (n: usize)
        ensures
            n == self.shown().len(),
    {
        self.items.len()
    }

    /// The place in the collection of the element that is selected.
    pub fn selected_origin(&self) -> (origin: Option<usize>)
        requires
            self.wf(),
        ensures
            match self.selection() {
                Some(k) => origin matches Some(i) && i == self.origins()[k],
                None => origin is None,
            },
    {
        match self.selected {
            Some(k) => Some(self.origins[k]),
            None => None,
        }
    }

    /// Shows the elements of `items` that pass `pred`, in the order of
    /// `items`. The element that was selected stays selected if an element
    /// equal to it is shown: the first such element is then selected. Else
    /// the first element that is shown is selected.
    pub fn filter<F: Fn(&T) -> bool>(&mut self, items: &'a [T], pred: F)
        requires
            old(self).wf(),
            forall|i: int| 0 <= i < items@.len() ==> pred.requires((&#[trigger] items@[i],)),
        ensures
            final(self).wf(),
            forall|k: int|
                0 <= k < final(self).shown().len() ==> 0 <= #[trigger] final(self).origins()[k]
                    < items@.len() && final(self).shown()[k] == items@[final(self).origins()[k]],
            forall|j: int, k: int|
                0 <= j < k < final(self).origins().len() ==> final(self).origins()[j] < final(
                    self
                ).origins()[k],
            forall|i: int|
                0 <= i < items@.len() ==> pred.ensures(
                    (&#[trigger] items@[i],),
                    final(self).origins().contains(i),
                ),
            final(self).selection() is Some <==> final(self).shown().len() > 0,
            equality_known::<T>() ==> final(self).selection() == selection_after(
                old(self).selected_value(),
                final(self).shown(),
            ),
    {
        let previous = self.selected_item();
        let mut shown: Vec<&'a T> = Vec::new();
        let mut origins: Vec<usize> = Vec::new();
        let mut i: usize = 0;
        while i < items.len()
            invariant
                i <= items@.len(),
                shown@.len() == origins@.len(),
                forall|i: int| 0 <= i < items@.len() ==> pred.requires((&#[trigger] items@[i],)),
                forall|k: int|
                    0 <= k < origins@.len() ==> #[trigger] origins@[k] < i && *shown@[k]
                        == items@[origins@[k] as int],
                forall|j: int, k: int| 0 <= j < k < origins@.len() ==> origins@[j] < origins@[k],
                forall|j: int|
                    0 <= j < i ==> pred.ensures(
                        (&#[trigger] items@[j],),
                        exists|k: int| 0 <= k < origins@.len() && origins@[k] == j,
                    ),
            decreases items@.len() - i,
        {
            let ghost before = origins@;
            let item = &items[i];
            let passed = pred(item);
            if passed {
                shown.push(item);
                origins.push(i);
            }
            proof {
                assert forall|j: int| 0 <= j < i + 1 implies pred.ensures(
                    (&#[trigger] items@[j],),
                    exists|k: int| 0 <= k < origins@.len() && origins@[k] == j,
                ) by {
                    let was = exists|k: int| 0 <= k < before.len() && before[k] == j;
                    if j < i {
                        if was {
                            let k = choose|k: int| 0 <= k < before.len() && before[k] == j;
                            assert(origins@[k] == j);
                        }
                    } else {
                        if passed {
                            assert(origins@[origins@.len() - 1] == j);
                        }
                    }
                }
            }
            i += 1;
        }
        let ghost now = Seq::new(shown@.len(), |k: int| *shown@[k]);
        let mut found: Option<usize> = None;
        match previous {
            Some(wanted) => {
                let mut k: usize = 0;
                while k < shown.len() && found.is_none()
                    invariant
                        k <= shown@.len(),
                        now == Seq::new(shown@.len(), |k: int| *shown@[k]),
                        found matches Some(f) ==> f < shown@.len() && (equality_known::<T>()
                            ==> first_match(now, *wanted) == Some(f as int)),
                        found is None && equality_known::<T>() ==> forall|j: int|
                            0 <= j < k ==> !same(#[trigger] now[j], *wanted),
                    decreases shown@.len() - k + if found is None { 1int } else { 0int },
                {
                    if *shown[k] == *wanted {
                        found = Some(k);
                        proof {
                            if equality_known::<T>() {
                                lemma_first_match_is(now, *wanted, k as int);
                            }
                        }
                    } else {
                        k += 1;
                    }
                }
                proof {
                    if equality_known::<T>() {
                        lemma_first_match(now, *wanted);
                    }
                }
            },
            None => {},
        }
        let selected: Option<usize> = match found {
            Some(k) => Some(k),
            None => if shown.len() > 0 {
                Some(0)
            } else {
                None
            },
        };
        self.items = shown;
        self.origins = origins;
        self.selected = selected;
        proof {
            assert forall|i: int| 0 <= i < items@.len() implies pred.ensures(
                (&#[trigger] items@[i],),
                self.origins().contains(i),
            ) by {
                let found = exists|k: int| 0 <= k < self.origins@.len() && self.origins@[k] == i;
                if found {
                    let k = choose|k: int| 0 <= k < self.origins@.len() && self.origins@[k] == i;
                    assert(self.origins()[k] == i);
                }
            }
        }
    }

    /// Selects the element after the one that is selected, or the last
    /// element where that one is selected.
    pub fn select_next(&mut self)
        requires
            old(self).wf(),
        ensures
            final(self).wf(),
            final(self).shown() == old(self).shown(),
            final(self).origins() == old(self).origins(),
            final(self).selection() == next_selection(
                old(self).selection(),
                old(self).shown().len(),
            ),
    {
        let n = self.items.len();
        self.selected = if n == 0 {
            None
        } else {
            match self.selected {
                Some(k) => if k + 1 < n {
                    Some(k + 1)
                } else {
                    Some(n - 1)
                },
                None => Some(0),
            }
        };
    }

    /// Selects the element before the one that is selected, or the first
    /// element where that one is selected.
    pub fn select_prev(&mut self)
        requires
            old(self).wf(),
        ensures
            final(self).wf(),
            final(self).shown() == old(self).shown(),
            final(self).origins() == old(self).origins(),
            final(self).selection() == previous_selection(
                old(self).selection(),
                old(self).shown().len(),
            ),
    {
        let n = self.items.len();
        self.selected = if n == 0 {
            None
        } else {
            match self.selected {
                Some(k) => if k > 0 {
                    Some(k - 1)
                } else {
                    Some(0)
                },
                None => Some(0),
            }
        };
    }
}

impl<'a, T: PartialEq> Default for FilteredList<'a, T> {
    /// A list that shows nothing.
    fn default() -> (list: Self)
        ensures
            list.wf(),
            list.shown().len() == 0,
            list.selection() is None,
    {
        FilteredList::new()
    }
}

} // verus!
