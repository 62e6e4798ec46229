//! What a filtered list shows and selects, stated over sequences.

use vstd::prelude::*;
use vstd::std_specs::cmp::PartialEqSpec;

verus! {

/// Whether `==` on `T` is known to compute `same`.
pub open spec fn equality_known<T: PartialEq>() -> bool {
    T::obeys_eq_spec()
}

/// Whether `a` and `b` are equal as `==` on `T` has it.
pub open spec fn same<T: PartialEq>(a: T, b: T) -> bool {
    a.eq_spec(&b)
}

/// The place of the first element of `shown` that equals `wanted`.
pub open spec fn first_match<T: PartialEq>(shown: Seq<T>, wanted: T) -> Option<int>
    decreases shown.len(),
{
    if shown.len() == 0 {
        None
    } else if same(shown[0], wanted) {
        Some(0)
    } else {
        match first_match(shown.drop_first(), wanted) {
            Some(k) => Some(k + 1),
            None => None,
        }
    }
}

/// The selection of a list that shows `shown`, for a list in which
/// `previous` was selected before: the first element that equals
/// `previous`, if there is one; else the first element; and none where
/// nothing is shown.
pub open spec fn selection_after<T: PartialEq>(previous: Option<T>, shown: Seq<T>) -> Option<int> {
    if previous is Some && first_match(shown, previous->0) is Some {
        first_match(shown, previous->0)
    } else if shown.len() > 0 {
        Some(0)
    } else {
        None
    }
}

/// The first match is a match, and nothing before it is one.
pub proof fn lemma_first_match<T: PartialEq>(shown: Seq<T>, wanted: T)
    ensures
        match first_match(shown, wanted) {
            Some(k) => 0 <= k < shown.len() && same(shown[k], wanted) && forall|j: int|
                0 <= j < k ==> !same(#[trigger] shown[j], wanted),
            None => forall|j: int| 0 <= j < shown.len() ==> !same(#[trigger] shown[j], wanted),
        },
    decreases shown.len(),
{
    if shown.len() > 0 && !same(shown[0], wanted) {
        let rest = shown.drop_first();
        lemma_first_match(rest, wanted);
        match first_match(rest, wanted) {
            Some(k) => {
                assert forall|j: int| 0 <= j < k + 1 implies !same(#[trigger] shown[j], wanted) by {
                    if j > 0 {
                        assert(shown[j] == rest[j - 1]);
                    }
                }
            },
            None => {
                assert forall|j: int| 0 <= j < shown.len() implies !same(
                    #[trigger] shown[j],
                    wanted,
                ) by {
                    if j > 0 {
                        assert(shown[j] == rest[j - 1]);
                    }
                }
            },
        }
    }
}

/// An element that matches, with none before it that does, is the first
/// match.
pub proof fn lemma_first_match_is<T: PartialEq>(shown: Seq<T>, wanted: T, k: int)
    requires
        0 <= k < shown.len(),
        same(shown[k], wanted),
        forall|j: int| 0 <= j < k ==> !same(#[trigger] shown[j], wanted),
    ensures
        first_match(shown, wanted) == Some(k),
{
    lemma_first_match(shown, wanted);
}

/// The selection after a step towards the end of a list of `len` elements:
/// one further, but not past the last element. With nothing selected the
/// first element is selected; in a list that shows nothing, nothing is.
pub open spec fn next_selection(selection: Option<int>, len: nat) -> Option<int> {
    if len == 0 {
        None
    } else {
        match selection {
            Some(k) => if k + 1 < len {
                Some(k + 1)
            } else {
                Some(len - 1)
            },
            None => Some(0),
        }
    }
}

/// The selection after a step towards the start of a list of `len`
/// elements: one back, but not before the first element. With nothing
/// selected the first element is selected; in a list that shows nothing,
/// nothing is.
pub open spec fn previous_selection(selection: Option<int>, len: nat) -> Option<int> {
    if len == 0 {
        None
    } else {
        match selection {
            Some(k) => if k > 0 {
                Some(k - 1)
            } else {
                Some(0)
            },
            None => Some(0),
        }
    }
}

} // verus!
