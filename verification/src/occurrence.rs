//! Which values occur in a masked column, and what its least and greatest
//! value are. Places that the mask marks as null never count.

use crate::types::mask_allows;
use vstd::prelude::*;

verus! {

/// `x` stands at a valid place below `n`.
pub open spec fn occurs_below<T>(values: Seq<T>, validity: Option<Seq<bool>>, x: T, n: nat) -> bool
    decreases n,
{
    if n == 0 {
        false
    } else {
        occurs_below(values, validity, x, (n - 1) as nat) || (mask_allows(validity, n - 1)
            && values[n - 1] == x)
    }
}

/// `x` stands at a valid place.
pub open spec fn occurs<T>(values: Seq<T>, validity: Option<Seq<bool>>, x: T) -> bool {
    occurs_below(values, validity, x, values.len())
}

/// A valid place exists below `n`.
pub open spec fn any_valid_below(validity: Option<Seq<bool>>, n: nat) -> bool
    decreases n,
{
    if n == 0 {
        false
    } else {
        any_valid_below(validity, (n - 1) as nat) || mask_allows(validity, n - 1)
    }
}

/// The least value at a valid place below `n`, if there is a valid place.
pub open spec fn least_valid(values: Seq<i128>, validity: Option<Seq<bool>>, n: nat) -> Option<
    i128,
>
    decreases n,
{
    if n == 0 {
        None
    } else {
        let before = least_valid(values, validity, (n - 1) as nat);
        if !mask_allows(validity, n - 1) {
            before
        } else {
            match before {
                Some(m) if m <= values[n - 1] => Some(m),
                _ => Some(values[n - 1]),
            }
        }
    }
}

/// The greatest value at a valid place below `n`, if there is a valid place.
pub open spec fn greatest_valid(values: Seq<i128>, validity: Option<Seq<bool>>, n: nat) -> Option<
    i128,
>
    decreases n,
{
    if n == 0 {
        None
    } else {
        let before = greatest_valid(values, validity, (n - 1) as nat);
        if !mask_allows(validity, n - 1) {
            before
        } else {
            match before {
                Some(m) if m >= values[n - 1] => Some(m),
                _ => Some(values[n - 1]),
            }
        }
    }
}

/// `x` lies between the bounds, which both exist.
pub open spec fn within(lo: Option<i128>, x: i128, hi: Option<i128>) -> bool {
    match (lo, hi) {
        (Some(lo), Some(hi)) => lo <= x <= hi,
        _ => false,
    }
}

/// The least and the greatest valid value, if there is a valid place.
pub open spec fn valid_min_max(values: Seq<i128>, validity: Option<Seq<bool>>) -> Option<
    (i128, i128),
> {
    match (
        least_valid(values, validity, values.len()),
        greatest_valid(values, validity, values.len()),
    ) {
        (Some(lo), Some(hi)) => Some((lo, hi)),
        _ => None,
    }
}

/// The number of the `n` numbers from `lo` on that occur.
pub open spec fn count_occurring(
    values: Seq<i128>,
    validity: Option<Seq<bool>>,
    lo: int,
    n: nat,
) -> nat
    decreases n,
{
    if n == 0 {
        0
    } else {
        count_occurring(values, validity, lo, (n - 1) as nat) + if occurs(
            values,
            validity,
            (lo + n - 1) as i128,
        ) {
            1nat
        } else {
            0nat
        }
    }
}

/// `keys` and `dict` are a packing of the column: the dictionary holds each
/// value that occurs once and nothing else, the key of a valid place names the
/// value that stands there, and the key of a null place is zero.
pub open spec fn is_packing<T>(
    values: Seq<T>,
    validity: Option<Seq<bool>>,
    keys: Seq<u32>,
    dict: Seq<T>,
) -> bool {
    &&& keys.len() == values.len()
    &&& forall|a: int, b: int| 0 <= a < b < dict.len() ==> dict[a] != dict[b]
    &&& forall|k: int| 0 <= k < dict.len() ==> occurs(values, validity, #[trigger] dict[k])
    &&& forall|i: int|
        0 <= i < values.len() ==> if mask_allows(validity, i) {
            (#[trigger] keys[i]) < dict.len() && dict[keys[i] as int] == values[i]
        } else {
            keys[i] == 0
        }
}

/// A value at a valid place below `n` occurs below `n`.
pub proof fn lemma_occurs_at<T>(values: Seq<T>, validity: Option<Seq<bool>>, i: int, n: nat)
    requires
        0 <= i < n,
        mask_allows(validity, i),
    ensures
        occurs_below(values, validity, values[i], n),
    decreases n,
{
    if i < n - 1 {
        lemma_occurs_at(values, validity, i, (n - 1) as nat);
    }
}

/// What occurs below `n` stands at a valid place below `n`.
pub proof fn lemma_occurs_place<T>(values: Seq<T>, validity: Option<Seq<bool>>, x: T, n: nat) -> (i:
    int)
    requires
        occurs_below(values, validity, x, n),
    ensures
        0 <= i < n,
        mask_allows(validity, i),
        values[i] == x,
    decreases n,
{
    if mask_allows(validity, n - 1) && values[n - 1] == x {
        n - 1
    } else {
        lemma_occurs_place(values, validity, x, (n - 1) as nat)
    }
}

/// The least and greatest valid value below `n` exist exactly when a valid
/// place does; they occur, and every valid value lies between them.
pub proof fn lemma_least_greatest(values: Seq<i128>, validity: Option<Seq<bool>>, n: nat)
    ensures
        least_valid(values, validity, n) is Some <==> any_valid_below(validity, n),
        greatest_valid(values, validity, n) is Some <==> any_valid_below(validity, n),
        least_valid(values, validity, n) matches Some(lo) ==> occurs_below(
            values,
            validity,
            lo,
            n,
        ),
        greatest_valid(values, validity, n) matches Some(hi) ==> occurs_below(
            values,
            validity,
            hi,
            n,
        ),
        forall|i: int|
            0 <= i < n && mask_allows(validity, i) ==> within(
                least_valid(values, validity, n),
                #[trigger] values[i],
                greatest_valid(values, validity, n),
            ),
    decreases n,
{
    if n != 0 {
        lemma_least_greatest(values, validity, (n - 1) as nat);
        assert forall|i: int| 0 <= i < n && mask_allows(validity, i) implies within(
            least_valid(values, validity, n),
            #[trigger] values[i],
            greatest_valid(values, validity, n),
        ) by {
            if i < n - 1 {
                assert(within(
                    least_valid(values, validity, (n - 1) as nat),
                    values[i],
                    greatest_valid(values, validity, (n - 1) as nat),
                ));
            }
        }
    }
}

} // verus!
