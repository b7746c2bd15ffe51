//! Small helpers on slices.

use vstd::prelude::*;
use vstd::std_specs::cmp::PartialEqSpec;

verus! {

/// Whether `small` occurs in `large` as a contiguous window that starts at `start`,
/// element by element under the element type's own equality.
pub open spec fn window_at<T: PartialEq>(small: Seq<T>, large: Seq<T>, start: int) -> bool {
    &&& 0 <= start
    &&& start + small.len() <= large.len()
    &&& forall|j: int| 0 <= j < small.len() ==> (#[trigger] large[start + j]).eq_spec(&small[j])
}

/// Whether `small` occurs somewhere in `large` as a contiguous run.
pub open spec fn is_subslice<T: PartialEq>(small: Seq<T>, large: Seq<T>) -> bool {
    exists|start: int| window_at(small, large, start)
}

/// Checks whether `small` is a contiguous sub-slice of `large`.
///
/// `small` must not be longer than `large`. An empty `small` is found in
/// every `large`, whatever the elements' `==` does.
pub fn subslice_of<T: PartialEq>(small: &[T], large: &[T]) -> (found: bool)
    requires
        small.len() <= large.len(),
    ensures
        T::obeys_eq_spec() ==> found == is_subslice(small@, large@),
        small@.len() == 0 ==> found,
{
    let window_size: usize = small.len();
    let last_start: usize = large.len() - window_size;
    let mut i: usize = 0;
    loop
        invariant
            window_size == small.len(),
            last_start == large.len() - window_size,
            i <= last_start,
            T::obeys_eq_spec() ==> forall|s: int| 0 <= s < i ==> !window_at(small@, large@, s),
        ensures
            i == last_start,
            window_size > 0,
            T::obeys_eq_spec() ==> forall|s: int| 0 <= s <= i ==> !window_at(small@, large@, s),
        decreases last_start - i,
    {
        let mut j: usize = 0;
        let mut matches_so_far: bool = true;
        while j < window_size && matches_so_far
            invariant
                window_size == small.len(),
                i + window_size <= large.len(),
                j <= window_size,
                window_size == 0 ==> matches_so_far,
                T::obeys_eq_spec() ==> (matches_so_far ==> forall|k: int|
                    0 <= k < j ==> (#[trigger] large@[i + k]).eq_spec(&small@[k])),
                T::obeys_eq_spec() ==> (!matches_so_far ==> !window_at(small@, large@, i as int)),
            decreases window_size - j + (if matches_so_far { 1int } else { 0int }),
        {
            if large[i + j] == small[j] {
                j = j + 1;
            } else {
                matches_so_far = false;
            }
        }
        if matches_so_far {
            assert(T::obeys_eq_spec() ==> window_at(small@, large@, i as int));
            return true;
        }
        if i == last_start {
            break;
        }
        i = i + 1;
    }
    false
}

} // verus!
