use ui_studio::resources::{
    check_staged_runtime, content_range_start, continues_part, is_temporary_failure, resume_start,
    retry_delay, swap_next, ResumeStart, SwapAction, SwapNext,
};

fn next(backup: bool, current: bool, last: Option<SwapAction>, failure: Option<&str>) -> String {
    match swap_next(backup, current, last, failure) {
        SwapNext::Do(SwapAction::ClearBackup) => "clear backup".to_string(),
        SwapNext::Do(SwapAction::MoveCurrentAside) => "move current aside".to_string(),
        SwapNext::Do(SwapAction::MoveStagedIntoPlace) => "move staged in".to_string(),
        SwapNext::Do(SwapAction::RemoveBackup) => "remove backup".to_string(),
        SwapNext::Succeed => "done".to_string(),
        SwapNext::Fail { restore_backup, message } => format!("fail {restore_backup} {message}"),
    }
}

fn start(kept: u64, expected: Option<u64>) -> String {
    match resume_start(kept, expected) {
        ResumeStart::Fresh => "fresh".to_string(),
        ResumeStart::From { offset } => format!("from {offset}"),
        ResumeStart::Complete => "complete".to_string(),
    }
}

#[test]
fn interrupted_parts_are_resumed() {
    assert_eq!(start(0, Some(10)), "fresh");
    assert_eq!(start(4, Some(10)), "from 4");
    assert_eq!(start(10, Some(10)), "complete");
    assert_eq!(start(11, Some(10)), "fresh");
    assert_eq!(start(7, None), "from 7");
    assert!(continues_part(4, 206, Some(4)));
    assert!(!continues_part(4, 206, Some(0)));
    assert!(!continues_part(4, 200, None));
    assert_eq!(content_range_start("bytes 100-199/200"), Some(100));
    assert_eq!(content_range_start("bytes */200"), None);
    assert_eq!(content_range_start("items 1-2/3"), None);
}

#[test]
fn temporary_failures_are_retried_with_backoff() {
    assert_eq!(retry_delay(1), Some(1000));
    assert_eq!(retry_delay(2), Some(2000));
    assert_eq!(retry_delay(3), Some(4000));
    assert_eq!(retry_delay(4), None);
    assert!(is_temporary_failure(None));
    assert!(is_temporary_failure(Some(503)));
    assert!(is_temporary_failure(Some(429)));
    assert!(!is_temporary_failure(Some(404)));
}

#[test]
fn staged_runtime_must_be_complete() {
    assert!(check_staged_runtime(true, true).is_ok());
    assert_eq!(check_staged_runtime(true, false).unwrap_err(), "The extracted FLUX runtime is incomplete");
    assert_eq!(check_staged_runtime(false, true).unwrap_err(), "The extracted FLUX runtime is incomplete");
}

#[test]
fn runtime_swap_keeps_a_runtime_in_place() {
    assert_eq!(next(true, true, None, None), "clear backup");
    assert_eq!(next(true, true, Some(SwapAction::ClearBackup), None), "move current aside");
    assert_eq!(next(true, true, Some(SwapAction::MoveCurrentAside), None), "move staged in");
    assert_eq!(next(true, true, Some(SwapAction::MoveStagedIntoPlace), None), "remove backup");
    assert_eq!(next(true, true, Some(SwapAction::RemoveBackup), None), "done");
    assert_eq!(next(false, false, None, None), "move staged in");
    assert_eq!(next(false, false, Some(SwapAction::MoveStagedIntoPlace), None), "done");
    assert_eq!(
        next(false, true, Some(SwapAction::MoveStagedIntoPlace), Some("denied")),
        "fail true Cannot install the FLUX runtime: denied"
    );
    assert_eq!(
        next(true, false, Some(SwapAction::ClearBackup), Some("busy")),
        "fail false Cannot clear old runtime backup: busy"
    );
    assert_eq!(
        next(false, true, Some(SwapAction::MoveCurrentAside), Some("locked")),
        "fail false Cannot stage the existing runtime for replacement: locked"
    );
    assert_eq!(
        next(false, true, Some(SwapAction::RemoveBackup), Some("in use")),
        "fail false Cannot remove the old runtime backup: in use"
    );
}
