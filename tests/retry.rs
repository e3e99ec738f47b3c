use std::cell::Cell;

use crater_fs::erase::{judge_attempt, remove_dir_all, EraseFailure, ERASE_ATTEMPTS};
use crater_fs::retry::{try_hard_limit, RetryError};

#[test]
fn zero_limit_fails_fast() {
    let calls = Cell::new(0u32);
    let r: Result<(), RetryError<()>> = try_hard_limit(0, |_| {
        calls.set(calls.get() + 1);
        Ok(())
    });
    assert_eq!(r, Err(RetryError::InvalidLimit));
    assert_eq!(calls.get(), 0);
}

#[test]
fn first_success_stops_retrying() {
    let calls = Cell::new(0u32);
    let r: Result<u32, RetryError<&str>> = try_hard_limit(10, |i| {
        calls.set(calls.get() + 1);
        if i < 3 { Err("busy") } else { Ok(i) }
    });
    assert_eq!(r, Ok(3));
    assert_eq!(calls.get(), 4);
}

#[test]
fn exhausted_retry_reports_last_failure() {
    let calls = Cell::new(0u32);
    let r: Result<(), RetryError<u32>> = try_hard_limit(5, |i| {
        calls.set(calls.get() + 1);
        Err(i)
    });
    assert_eq!(r, Err(RetryError::Exhausted { attempts: 5, last: 4 }));
    assert_eq!(calls.get(), 5);
}

#[test]
fn attempt_verdicts() {
    assert_eq!(judge_attempt(Ok(()), false), Ok(()));
    assert_eq!(judge_attempt(Err("denied".to_string()), false), Ok(()));
    assert_eq!(judge_attempt(Ok(()), true), Err(EraseFailure::NotRemoved));
    assert_eq!(
        judge_attempt(Err("denied".to_string()), true),
        Err(EraseFailure::Io("denied".to_string()))
    );
}

#[test]
fn erase_that_never_takes_effect_gives_up_after_ten() {
    let calls = Cell::new(0u32);
    let r = remove_dir_all(|_| {
        calls.set(calls.get() + 1);
        (Ok(()), true)
    });
    assert_eq!(
        r,
        Err(RetryError::Exhausted { attempts: 10, last: EraseFailure::NotRemoved })
    );
    assert_eq!(calls.get(), ERASE_ATTEMPTS);
    assert_eq!(ERASE_ATTEMPTS, 10);
}

#[test]
fn erase_that_fails_nine_times_then_succeeds() {
    let calls = Cell::new(0u32);
    let r = remove_dir_all(|i| {
        calls.set(calls.get() + 1);
        if i < 9 { (Err("busy".to_string()), true) } else { (Ok(()), false) }
    });
    assert_eq!(r, Ok(()));
    assert_eq!(calls.get(), 10);
}

#[test]
fn erase_reports_io_error_of_last_attempt() {
    let r = remove_dir_all(|i| (Err(format!("attempt {}", i)), true));
    assert_eq!(
        r,
        Err(RetryError::Exhausted { attempts: 10, last: EraseFailure::Io("attempt 9".to_string()) })
    );
}
