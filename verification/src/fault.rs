//! Faults: why a check fails, and which fault is reported where there are many.
use vstd::prelude::*;

verus! {

/// A check comes out as `fault` says: it passes where there is none, and
/// otherwise fails with exactly that text.
pub open spec fn reports(r: Result<(), String>, fault: Option<Seq<char>>) -> bool {
    match r {
        Ok(_) => fault is None,
        Err(e) => fault == Some(e@),
    }
}

/// A change comes out as `outcome` says: it ends in the value that `outcome`
/// gives, or it is refused with exactly that text and leaves the value as it was.
pub open spec fn applies<V>(
    r: Result<(), String>,
    before: V,
    after: V,
    outcome: Result<V, Seq<char>>,
) -> bool {
    match r {
        Ok(_) => outcome == Ok::<V, Seq<char>>(after),
        Err(e) => outcome == Err::<V, Seq<char>>(e@) && after == before,
    }
}

/// The first of two faults.
pub open spec fn first_of(a: Option<Seq<char>>, b: Option<Seq<char>>) -> Option<Seq<char>> {
    match a {
        Some(e) => Some(e),
        None => b,
    }
}

/// The first fault among those of the items before `n`.
pub open spec fn first_fault(
    n: nat,
    fault_at: spec_fn(int) -> Option<Seq<char>>,
) -> Option<Seq<char>>
    decreases n,
{
    if n == 0 {
        None
    } else {
        first_of(first_fault((n - 1) as nat, fault_at), fault_at(n - 1))
    }
}

/// Where no item has a fault there is no first one, and the other way round.
pub proof fn lemma_no_fault(n: nat, fault_at: spec_fn(int) -> Option<Seq<char>>)
    ensures
        first_fault(n, fault_at) is None <==> forall|i: int|
            0 <= i < n ==> (#[trigger] fault_at(i)) is None,
    decreases n,
{
    if n > 0 {
        lemma_no_fault((n - 1) as nat, fault_at);
        if first_fault(n, fault_at) is None {
            assert forall|i: int| 0 <= i < n implies (#[trigger] fault_at(i)) is None by {
                if i < n - 1 {
                }
            }
        } else if first_fault((n - 1) as nat, fault_at) is None {
            assert(fault_at(n - 1) is Some);
        }
    }
}

/// The fault of an item is the first one where no earlier item has any.
pub proof fn lemma_first_fault(n: nat, fault_at: spec_fn(int) -> Option<Seq<char>>, i: int)
    requires
        0 <= i < n,
        forall|j: int| 0 <= j < i ==> (#[trigger] fault_at(j)) is None,
        fault_at(i) is Some,
    ensures
        first_fault(n, fault_at) == fault_at(i),
    decreases n,
{
    if i == n - 1 {
        lemma_no_fault((n - 1) as nat, fault_at);
    } else {
        lemma_first_fault((n - 1) as nat, fault_at, i);
    }
}

/// The first fault is that of an item before which no item has any.
pub proof fn law_first_fault(n: nat, fault_at: spec_fn(int) -> Option<Seq<char>>)
    ensures
        first_fault(n, fault_at) matches Some(e) ==> exists|i: int|
            {
                &&& 0 <= i < n
                &&& #[trigger] fault_at(i) == Some(e)
                &&& forall|j: int| 0 <= j < i ==> (#[trigger] fault_at(j)) is None
            },
    decreases n,
{
    if n > 0 {
        let m = (n - 1) as nat;
        law_first_fault(m, fault_at);
        lemma_no_fault(m, fault_at);
        if let Some(e) = first_fault(n, fault_at) {
            if first_fault(m, fault_at) is None {
                assert(fault_at(n - 1) == Some(e));
            }
        }
    }
}

} // verus!
