//! Running a fallible operation a bounded number of times.
use vstd::prelude::*;

verus! {

/// Why a retried operation gave up.
#[derive(PartialEq, Eq, Clone, Debug)]
pub enum RetryError<E> {
    /// The attempt limit was zero: the operation was never run.
    InvalidLimit,
    /// Every allowed attempt failed; `last` is the failure of the final one.
    Exhausted { attempts: u32, last: E },
}

/// Every outcome that attempt `k` of `op` may have is a success.
pub open spec fn attempt_cannot_fail<T, E, F: Fn(u32) -> Result<T, E>>(op: F, k: u32) -> bool {
    forall|o: Result<T, E>| #[trigger] op.ensures((k,), o) ==> o is Ok
}

/// Some attempt below `limit` of `op` may have returned `Ok(v)`.
pub open spec fn succeeded_within<T, E, F: Fn(u32) -> Result<T, E>>(op: F, limit: u32, v: T) -> bool {
    exists|i: u32| i < limit && #[trigger] op.ensures((i,), Ok::<T, E>(v))
}

/// Calls `op` with the attempt numbers `0, 1, ...` until one call succeeds or
/// `limit` calls have failed. No delay is made between attempts.
pub fn try_hard_limit<T, E, F: Fn(u32) -> Result<T, E>>(limit: u32, op: F) -> (r: Result<
    T,
    RetryError<E>,
>)
    requires
        forall|i: u32| i < limit ==> op.requires((i,)),
    ensures
        limit == 0 <==> r is Err && r->Err_0 is InvalidLimit,
        r matches Ok(v) ==> succeeded_within(op, limit, v),
        r is Err && r->Err_0 is Exhausted ==> {
            &&& r->Err_0->attempts == limit
            &&& op.ensures(((limit - 1) as u32,), Err::<T, E>(r->Err_0->last))
        },
        // an attempt that cannot fail ends the retrying with a success
        (exists|k: u32| k < limit && #[trigger] attempt_cannot_fail(op, k)) ==> r is Ok,
{
    if limit == 0 {
        return Err(RetryError::InvalidLimit);
    }
    let mut attempt: u32 = 0;
    loop
        invariant
            0 <= attempt < limit,
            forall|i: u32| i < limit ==> op.requires((i,)),
            forall|k: u32|
                k < attempt ==> !#[trigger] attempt_cannot_fail(op, k),
        decreases limit - attempt,
    {
        let outcome = op(attempt);
        match outcome {
            Ok(v) => {
                assert(outcome == Ok::<T, E>(v));
                assert(op.ensures((attempt,), Ok::<T, E>(v)));
                return Ok(v);
            },
            Err(e) => {
                assert(!attempt_cannot_fail(op, attempt)) by {
                    assert(op.ensures((attempt,), Err::<T, E>(e)));
                }
                if attempt + 1 == limit {
                    return Err(RetryError::Exhausted { attempts: limit, last: e });
                }
                attempt = attempt + 1;
            },
        }
    }
}

} // verus!
