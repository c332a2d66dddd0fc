//! Finding the first index at which a condition holds.

use vstd::prelude::*;

verus! {

/// The first index below `len` at which `pred` holds.
pub open spec fn first_where(len: int, pred: spec_fn(int) -> bool) -> Option<int>
    decreases len,
{
    if len <= 0 {
        None
    } else {
        match first_where(len - 1, pred) {
            Some(n) => Some(n),
            None => if pred(len - 1) {
                Some(len - 1)
            } else {
                None
            },
        }
    }
}

/// `first_where` yields the least index at which `pred` holds, and `None`
/// exactly when there is no such index.
pub proof fn lemma_first_where(len: int, pred: spec_fn(int) -> bool)
    ensures
        match first_where(len, pred) {
            Some(n) => 0 <= n < len && pred(n) && forall|m: int| 0 <= m < n ==> !#[trigger] pred(m),
            None => forall|m: int| 0 <= m < len ==> !#[trigger] pred(m),
        },
    decreases len,
{
    if len > 0 {
        lemma_first_where(len - 1, pred);
    }
}

/// The least index at which `pred` holds is what `first_where` yields.
pub proof fn lemma_first_where_is(len: int, pred: spec_fn(int) -> bool, n: int)
    requires
        0 <= n < len,
        pred(n),
        forall|m: int| 0 <= m < n ==> !#[trigger] pred(m),
    ensures
        first_where(len, pred) == Some(n),
{
    lemma_first_where(len, pred);
}

/// Nothing is found where `pred` holds nowhere.
pub proof fn lemma_first_where_none(len: int, pred: spec_fn(int) -> bool)
    requires
        forall|m: int| 0 <= m < len ==> !#[trigger] pred(m),
    ensures
        first_where(len, pred) is None,
{
    lemma_first_where(len, pred);
}

} // verus!
