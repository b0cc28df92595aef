//! The first of finitely many places that meets a condition.

use vstd::prelude::*;

verus! {

/// The least number below `n` that meets the condition.
pub open spec fn first_below(n: nat, p: spec_fn(int) -> bool) -> Option<int>
    decreases n,
{
    if n == 0 {
        None
    } else {
        match first_below((n - 1) as nat, p) {
            Some(i) => Some(i),
            None => if p(n - 1) {
                Some(n - 1)
            } else {
                None
            },
        }
    }
}

/// `first_below` is the least number that meets the condition, or none does.
pub proof fn lemma_first_below(n: nat, p: spec_fn(int) -> bool)
    ensures
        match first_below(n, p) {
            Some(i) => 0 <= i < n && p(i) && forall|j: int| 0 <= j < i ==> !(#[trigger] p(j)),
            None => forall|j: int| 0 <= j < n ==> !(#[trigger] p(j)),
        },
    decreases n,
{
    if n > 0 {
        lemma_first_below((n - 1) as nat, p);
    }
}

/// A number that meets the condition, with none below it that does, is the least one.
pub proof fn lemma_is_first_below(n: nat, p: spec_fn(int) -> bool, i: int)
    requires
        0 <= i < n,
        p(i),
        forall|j: int| 0 <= j < i ==> !(#[trigger] p(j)),
    ensures
        first_below(n, p) == Some(i),
{
    lemma_first_below(n, p);
}

/// Where no number meets the condition, there is no least one.
pub proof fn lemma_none_below(n: nat, p: spec_fn(int) -> bool)
    requires
        forall|j: int| 0 <= j < n ==> !(#[trigger] p(j)),
    ensures
        first_below(n, p) is None,
{
    lemma_first_below(n, p);
}

} // verus!
