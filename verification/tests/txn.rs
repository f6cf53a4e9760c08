use kv_collections::frame::{Fault, Frame};
use kv_collections::txn::{Failure, Stage, TxnAction, TxnEvent, TxnHandle, TxnMode, TxnSource};

#[test]
fn standalone_commits_once_and_answers() {
    let mut handle = TxnHandle::new(TxnMode::Standalone, 3);
    assert_eq!(handle.stage(), Stage::Fresh);
    assert_eq!(handle.advance(TxnEvent::Begin), TxnAction::Open);
    assert_eq!(handle.attempts(), 1);
    assert_eq!(handle.advance(TxnEvent::Ran(Ok(Frame::Integer(1)))), TxnAction::Commit);
    assert_eq!(handle.stage(), Stage::Committing);
    assert_eq!(handle.advance(TxnEvent::Committed(Ok(()))), TxnAction::Return(Frame::Integer(1)));
    assert_eq!(handle.stage(), Stage::Closed);
}

#[test]
fn borrowed_never_commits() {
    let mut handle = TxnHandle::new(TxnMode::Borrowed, 3);
    assert_eq!(handle.advance(TxnEvent::Begin), TxnAction::Lock);
    assert_eq!(handle.advance(TxnEvent::Ran(Ok(Frame::ok()))), TxnAction::Return(Frame::ok()));
    assert_eq!(handle.stage(), Stage::Closed);
    assert_eq!(handle.attempts(), 1);
}

#[test]
fn borrowed_passes_a_failure_on_without_retry() {
    let mut handle = TxnHandle::new(TxnMode::Borrowed, 3);
    handle.advance(TxnEvent::Begin);
    assert_eq!(
        handle.advance(TxnEvent::Ran(Err(Failure::Conflict))),
        TxnAction::Return(Frame::Error(Fault::Conflict))
    );
    let mut handle = TxnHandle::new(TxnMode::Borrowed, 3);
    handle.advance(TxnEvent::Begin);
    assert_eq!(
        handle.advance(TxnEvent::Ran(Err(Failure::Other))),
        TxnAction::Return(Frame::Error(Fault::Internal))
    );
}

#[test]
fn conflict_at_commit_retries_the_whole_body() {
    let mut handle = TxnHandle::new(TxnMode::Standalone, 3);
    handle.advance(TxnEvent::Begin);
    assert_eq!(handle.advance(TxnEvent::Ran(Ok(Frame::Integer(7)))), TxnAction::Commit);
    assert_eq!(handle.advance(TxnEvent::Committed(Err(Failure::Conflict))), TxnAction::Retry);
    assert_eq!(handle.stage(), Stage::Running);
    assert_eq!(handle.attempts(), 2);
    assert_eq!(handle.advance(TxnEvent::Ran(Ok(Frame::Integer(8)))), TxnAction::Commit);
    assert_eq!(handle.advance(TxnEvent::Committed(Ok(()))), TxnAction::Return(Frame::Integer(8)));
}

#[test]
fn conflict_in_the_body_retries_too() {
    let mut handle = TxnHandle::new(TxnMode::Standalone, 2);
    handle.advance(TxnEvent::Begin);
    assert_eq!(handle.advance(TxnEvent::Ran(Err(Failure::Conflict))), TxnAction::Retry);
    assert_eq!(handle.attempts(), 2);
    assert_eq!(
        handle.advance(TxnEvent::Ran(Err(Failure::Conflict))),
        TxnAction::Abort(Frame::Error(Fault::Conflict))
    );
    assert_eq!(handle.stage(), Stage::Closed);
}

#[test]
fn attempts_are_bounded() {
    let mut handle = TxnHandle::new(TxnMode::Standalone, 3);
    handle.advance(TxnEvent::Begin);
    for attempt in 1..3u32 {
        assert_eq!(handle.attempts(), attempt);
        assert_eq!(handle.advance(TxnEvent::Ran(Ok(Frame::ok()))), TxnAction::Commit);
        assert_eq!(handle.advance(TxnEvent::Committed(Err(Failure::Conflict))), TxnAction::Retry);
    }
    assert_eq!(handle.attempts(), 3);
    assert_eq!(handle.advance(TxnEvent::Ran(Ok(Frame::ok()))), TxnAction::Commit);
    assert_eq!(
        handle.advance(TxnEvent::Committed(Err(Failure::Conflict))),
        TxnAction::Abort(Frame::Error(Fault::Conflict))
    );
    assert_eq!(handle.attempts(), 3);
}

#[test]
fn limit_of_zero_or_one_means_no_retry() {
    for limit in [0u32, 1] {
        let mut handle = TxnHandle::new(TxnMode::Standalone, limit);
        assert_eq!(handle.advance(TxnEvent::Begin), TxnAction::Open);
        handle.advance(TxnEvent::Ran(Ok(Frame::ok())));
        assert_eq!(
            handle.advance(TxnEvent::Committed(Err(Failure::Conflict))),
            TxnAction::Abort(Frame::Error(Fault::Conflict))
        );
    }
}

#[test]
fn other_failures_are_not_retried() {
    let mut handle = TxnHandle::new(TxnMode::Standalone, 5);
    handle.advance(TxnEvent::Begin);
    assert_eq!(
        handle.advance(TxnEvent::Ran(Err(Failure::Other))),
        TxnAction::Abort(Frame::Error(Fault::Internal))
    );
    let mut handle = TxnHandle::new(TxnMode::Standalone, 5);
    handle.advance(TxnEvent::Begin);
    handle.advance(TxnEvent::Ran(Ok(Frame::ok())));
    assert_eq!(
        handle.advance(TxnEvent::Committed(Err(Failure::Other))),
        TxnAction::Abort(Frame::Error(Fault::Internal))
    );
}

#[test]
fn reports_out_of_turn_end_the_command() {
    let mut handle = TxnHandle::new(TxnMode::Standalone, 5);
    assert_eq!(
        handle.advance(TxnEvent::Committed(Ok(()))),
        TxnAction::Abort(Frame::Error(Fault::Internal))
    );
    assert_eq!(handle.stage(), Stage::Closed);
    assert_eq!(handle.advance(TxnEvent::Begin), TxnAction::Abort(Frame::Error(Fault::Internal)));
    let mut handle = TxnHandle::new(TxnMode::Borrowed, 5);
    handle.advance(TxnEvent::Begin);
    assert_eq!(
        handle.advance(TxnEvent::Committed(Ok(()))),
        TxnAction::Return(Frame::Error(Fault::Internal))
    );
}

#[test]
fn source_tells_the_mode() {
    let standalone: TxnSource<u8> = TxnSource::from_shared(None);
    assert_eq!(standalone.mode(), TxnMode::Standalone);
    let borrowed = TxnSource::from_shared(Some(7u8));
    assert_eq!(borrowed.mode(), TxnMode::Borrowed);
    assert!(matches!(borrowed, TxnSource::Borrowed(7)));
}

#[test]
fn failures_map_to_faults() {
    assert_eq!(Failure::Conflict.to_fault(), Fault::Conflict);
    assert_eq!(Failure::Other.to_fault(), Fault::Internal);
    assert!(Fault::Conflict.is_transient());
    assert!(!Fault::WrongType.is_transient());
    assert!(!Fault::Internal.is_transient());
}
