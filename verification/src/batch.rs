//! The aggregate outcome of a batch: how many of its items went well and
//! how many failed. A batch never stops at a failure, so the two numbers
//! always add up to the size of the batch.

use vstd::prelude::*;
use crate::error::PacksError;

verus! {

/// How many items of a batch went well and how many failed.
#[derive(Clone, Copy, Debug, PartialEq, Eq, Structural)]
pub struct BatchReport {
    pub succeeded: usize,
    pub failed: usize,
}

/// The number of failures among `outcomes`.
pub open spec fn failures(outcomes: Seq<Result<(), PacksError>>) -> nat
    decreases outcomes.len(),
{
    if outcomes.len() == 0 {
        0
    } else {
        failures(outcomes.drop_last()) + if outcomes.last() is Err {
            1nat
        } else {
            0nat
        }
    }
}

/// The first failure among `outcomes`, if any item failed.
pub open spec fn first_failure(outcomes: Seq<Result<(), PacksError>>) -> Option<PacksError>
    decreases outcomes.len(),
{
    if outcomes.len() == 0 {
        None
    } else {
        match first_failure(outcomes.drop_last()) {
            Some(e) => Some(e),
            None => match outcomes.last() {
                Err(e) => Some(e),
                Ok(_) => None,
            },
        }
    }
}

/// Counts the items of a batch that went well and those that failed.
pub fn tally(outcomes: &Vec<Result<(), PacksError>>) -> (r: BatchReport)
    ensures
        r.failed == failures(outcomes@),
        r.succeeded + r.failed == outcomes@.len(),
{
    let mut succeeded: usize = 0;
    let mut failed: usize = 0;
    let mut i: usize = 0;
    assert(outcomes@.take(0) =~= Seq::<Result<(), PacksError>>::empty());
    while i < outcomes.len()
        invariant
            i <= outcomes.len(),
            failed == failures(outcomes@.take(i as int)),
            succeeded + failed == i,
        decreases outcomes.len() - i,
    {
        proof {
            assert(outcomes@.take(i + 1).drop_last() =~= outcomes@.take(i as int));
        }
        match outcomes[i] {
            Ok(_) => {
                succeeded += 1;
            },
            Err(_) => {
                failed += 1;
            },
        }
        i += 1;
    }
    proof {
        assert(outcomes@.take(outcomes@.len() as int) =~= outcomes@);
    }
    BatchReport { succeeded, failed }
}

/// The outcome of a batch as one result: the first failure where an item
/// failed. Every item was handled all the same.
pub fn overall(outcomes: &Vec<Result<(), PacksError>>) -> (r: Result<(), PacksError>)
    ensures
        match first_failure(outcomes@) {
            Some(e) => r == Err::<(), PacksError>(e),
            None => r == Ok::<(), PacksError>(()),
        },
{
    let mut found: Option<PacksError> = None;
    let mut i: usize = 0;
    assert(outcomes@.take(0) =~= Seq::<Result<(), PacksError>>::empty());
    while i < outcomes.len()
        invariant
            i <= outcomes.len(),
            found == first_failure(outcomes@.take(i as int)),
        decreases outcomes.len() - i,
    {
        proof {
            assert(outcomes@.take(i + 1).drop_last() =~= outcomes@.take(i as int));
        }
        if found.is_none() {
            match outcomes[i] {
                Ok(_) => {},
                Err(e) => {
                    found = Some(e);
                },
            }
        }
        i += 1;
    }
    proof {
        assert(outcomes@.take(outcomes@.len() as int) =~= outcomes@);
    }
    match found {
        Some(e) => Err(e),
        None => Ok(()),
    }
}

/// The outcomes of the calls of a batch, one for each item: `Ok` where the
/// identity service took the call, a sync error where it did not.
pub fn sync_outcomes(taken: &Vec<bool>) -> (r: Vec<Result<(), PacksError>>)
    ensures
        r@.len() == taken@.len(),
        forall|i: int|
            0 <= i < r@.len() ==> #[trigger] r@[i] == if taken@[i] {
                Ok::<(), PacksError>(())
            } else {
                Err::<(), PacksError>(PacksError::SyncError)
            },
{
    let mut outcomes: Vec<Result<(), PacksError>> = Vec::new();
    let mut i: usize = 0;
    while i < taken.len()
        invariant
            i <= taken.len(),
            outcomes@.len() == i,
            forall|j: int|
                0 <= j < i ==> #[trigger] outcomes@[j] == if taken@[j] {
                    Ok::<(), PacksError>(())
                } else {
                    Err::<(), PacksError>(PacksError::SyncError)
                },
        decreases taken.len() - i,
    {
        if taken[i] {
            outcomes.push(Ok(()));
        } else {
            outcomes.push(Err(PacksError::SyncError));
        }
        i += 1;
    }
    outcomes
}

/// A batch in which one item failed and all others went well counts one
/// failure.
pub proof fn lemma_one_failure(outcomes: Seq<Result<(), PacksError>>, bad: int)
    requires
        0 <= bad < outcomes.len(),
        outcomes[bad] is Err,
        forall|i: int| 0 <= i < outcomes.len() && i != bad ==> outcomes[i] is Ok,
    ensures
        failures(outcomes) == 1,
    decreases outcomes.len(),
{
    let rest = outcomes.drop_last();
    if bad == outcomes.len() - 1 {
        lemma_no_failure(rest);
    } else {
        lemma_one_failure(rest, bad);
    }
}

/// A batch in which every item went well counts no failure.
pub proof fn lemma_no_failure(outcomes: Seq<Result<(), PacksError>>)
    requires
        forall|i: int| 0 <= i < outcomes.len() ==> outcomes[i] is Ok,
    ensures
        failures(outcomes) == 0,
    decreases outcomes.len(),
{
    if outcomes.len() > 0 {
        lemma_no_failure(outcomes.drop_last());
    }
}

} // verus!
