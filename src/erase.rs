//! Erasing a directory that may not vanish at once.
use vstd::prelude::*;
use crate::retry::{try_hard_limit, RetryError, attempt_cannot_fail, succeeded_within};

verus! {

/// How many times the erasure of a directory is attempted before giving up.
pub const ERASE_ATTEMPTS: u32 = 10;

/// Why one attempt at erasing a directory failed.
#[derive(PartialEq, Eq, Clone, Debug)]
pub enum EraseFailure {
    /// The recursive delete reported an error, and the directory is still there.
    Io(String),
    /// The recursive delete reported success, yet the directory is still there.
    NotRemoved,
}

/// What one attempt comes to, given what the recursive delete reported and
/// whether the directory was still present when checked right after it.
pub open spec fn attempt_verdict(delete: Result<(), String>, still_exists: bool) -> Result<
    (),
    EraseFailure,
> {
    if !still_exists {
        Ok(())
    } else {
        match delete {
            Ok(()) => Err(EraseFailure::NotRemoved),
            Err(msg) => Err(EraseFailure::Io(msg)),
        }
    }
}

/// Judges one erase attempt: it succeeded exactly when the directory is gone,
/// whatever the delete call itself reported.
pub fn judge_attempt(delete: Result<(), String>, still_exists: bool) -> (r: Result<(), EraseFailure>)
    ensures
        r == attempt_verdict(delete, still_exists),
{
    if !still_exists {
        Ok(())
    } else {
        match delete {
            Ok(()) => Err(EraseFailure::NotRemoved),
            Err(msg) => Err(EraseFailure::Io(msg)),
        }
    }
}

/// Attempt `i` of `delete_and_probe` may have found the directory gone.
pub open spec fn gone_within<F: Fn(u32) -> (Result<(), String>, bool)>(
    delete_and_probe: F,
    limit: u32,
) -> bool {
    exists|i: u32, d: Result<(), String>|
        i < limit && #[trigger] delete_and_probe.ensures((i,), (d, false))
}

/// Every observation that attempt `k` of `delete_and_probe` may make finds the
/// directory gone.
pub open spec fn surely_gone_at<F: Fn(u32) -> (Result<(), String>, bool)>(
    delete_and_probe: F,
    k: u32,
) -> bool {
    forall|o: (Result<(), String>, bool)| #[trigger] delete_and_probe.ensures((k,), o) ==> !o.1
}

/// The final attempt of `delete_and_probe` may have found the directory still
/// there, with `failure` as its verdict.
pub open spec fn last_attempt_failed_with<F: Fn(u32) -> (Result<(), String>, bool)>(
    delete_and_probe: F,
    failure: EraseFailure,
) -> bool {
    exists|d: Result<(), String>|
        #[trigger] delete_and_probe.ensures(((ERASE_ATTEMPTS - 1) as u32,), (d, true))
            && Err::<(), EraseFailure>(failure) == attempt_verdict(d, true)
}

/// Erases a directory, retrying up to `ERASE_ATTEMPTS` times.
///
/// Each call `delete_and_probe(i)` asks for a recursive delete and then
/// reports what the delete returned and whether the directory still exists.
/// An attempt counts as done only when the directory is gone.
pub fn remove_dir_all<F: Fn(u32) -> (Result<(), String>, bool)>(delete_and_probe: F) -> (r: Result<
    (),
    RetryError<EraseFailure>,
>)
    requires
        forall|i: u32| i < ERASE_ATTEMPTS ==> delete_and_probe.requires((i,)),
    ensures
        r is Ok ==> gone_within(delete_and_probe, ERASE_ATTEMPTS),
        r is Err ==> r->Err_0 is Exhausted && r->Err_0->attempts == ERASE_ATTEMPTS
            && last_attempt_failed_with(delete_and_probe, r->Err_0->last),
        (exists|k: u32| k < ERASE_ATTEMPTS && #[trigger] surely_gone_at(delete_and_probe, k))
            ==> r is Ok,
{
    let probe = &delete_and_probe;
    let attempt = |i: u32| -> (res: Result<(), EraseFailure>)
        requires
            probe.requires((i,)),
        ensures
            exists|o: (Result<(), String>, bool)|
                #[trigger] probe.ensures((i,), o) && res == attempt_verdict(o.0, o.1),
        {
            let (delete, still_exists) = probe(i);
            judge_attempt(delete, still_exists)
        };
    let r = try_hard_limit(ERASE_ATTEMPTS, attempt);
    proof {
        if r is Ok {
            let v = r->Ok_0;
            assert(succeeded_within(attempt, ERASE_ATTEMPTS, v));
            let i = choose|i: u32| i < ERASE_ATTEMPTS && #[trigger] attempt.ensures((i,), Ok::<(), EraseFailure>(v));
            let o = choose|o: (Result<(), String>, bool)|
                #[trigger] delete_and_probe.ensures((i,), o) && Ok::<(), EraseFailure>(v) == attempt_verdict(o.0, o.1);
            assert(delete_and_probe.ensures((i,), (o.0, false)));
        }
        if r is Err {
            let last = r->Err_0->last;
            let o = choose|o: (Result<(), String>, bool)|
                #[trigger] delete_and_probe.ensures(((ERASE_ATTEMPTS - 1) as u32,), o)
                    && Err::<(), EraseFailure>(last) == attempt_verdict(o.0, o.1);
            assert(delete_and_probe.ensures(((ERASE_ATTEMPTS - 1) as u32,), (o.0, true)));
        }
        if exists|k: u32| k < ERASE_ATTEMPTS && #[trigger] surely_gone_at(delete_and_probe, k) {
            let k = choose|k: u32| k < ERASE_ATTEMPTS && #[trigger] surely_gone_at(delete_and_probe, k);
            assert(attempt_cannot_fail(attempt, k));
        }
    }
    r
}

} // verus!
