//! The execution client of the simulated exchange: what it makes of the exchange's answers.
use vstd::prelude::*;
use crate::error::ExecutionError;

verus! {

/// Gathers the results of a batch of requests: all the values where every request went
/// through, else the first error.
pub fn collect_results<T>(results: Vec<Result<T, ExecutionError>>) -> (r: Result<Vec<T>, ExecutionError>)
    ensures
        match r {
            Ok(values) => {
                &&& values@.len() == results@.len()
                &&& forall|k: int| 0 <= k < results@.len() ==> #[trigger] results@[k] == Ok::<T, ExecutionError>(values@[k])
            },
            Err(e) => exists|k: int|
                0 <= k < results@.len() && #[trigger] results@[k] == Err::<T, ExecutionError>(e) && forall|j: int|
                    0 <= j < k ==> (#[trigger] results@[j]) is Ok,
        },
{
    let ghost all = results@;
    let mut rest = results;
    let mut values: Vec<T> = Vec::new();
    while rest.len() > 0
        invariant
            all == results@,
            values@.len() <= all.len(),
            rest@ == all.skip(values@.len() as int),
            forall|k: int| 0 <= k < values@.len() ==> #[trigger] all[k] == Ok::<T, ExecutionError>(values@[k]),
        decreases rest@.len(),
    {
        let ghost k = values@.len() as int;
        let result = rest.remove(0);
        assert(result == all[k]);
        assert(rest@ =~= all.skip(k + 1));
        match result {
            Ok(value) => {
                values.push(value);
            },
            Err(e) => {
                assert(all[k] == Err::<T, ExecutionError>(e));
                assert forall|j: int| 0 <= j < k implies (#[trigger] all[j]) is Ok by {
                    assert(all[j] == Ok::<T, ExecutionError>(values@[j]));
                }
                assert(0 <= k < all.len() && all[k] == Err::<T, ExecutionError>(e) && forall|j: int|
                    0 <= j < k ==> (#[trigger] all[j]) is Ok);
                return Err(e);
            },
        }
    }
    Ok(values)
}

} // verus!
