use game_updater::orchestrator::{initial_stage, next_stage, Stage};
use game_updater::transfer::{Transfer, TransferOutcome};

#[test]
fn test_download_resume() {
    // Five bytes are already on disk; the server answers the ranged request
    // with status 206 and the remaining bytes.
    let mut t = Transfer::new(b"hello".to_vec(), 3);
    assert_eq!(t.request_offset(), 5);
    let outcome = t.on_response(206, b" world".as_slice());
    assert_eq!(outcome, TransferOutcome::Done);
    assert!(t.is_complete(11));
    assert_eq!(t.into_file(), b"hello world".to_vec());
}

#[test]
fn test_fresh_download() {
    let mut t = Transfer::new(Vec::new(), 3);
    assert_eq!(t.request_offset(), 0);
    assert_eq!(t.on_response(200, b"hello world".as_slice()), TransferOutcome::Done);
    assert_eq!(t.into_file(), b"hello world".to_vec());
}

#[test]
fn test_retry_bound() {
    // With max_attempts = 3 and a source that always fails transiently,
    // exactly three attempts are made: two retries, then permanent failure.
    let mut t = Transfer::new(Vec::new(), 3);
    assert_eq!(t.on_transport_error(), TransferOutcome::Retry);
    assert_eq!(t.on_transport_error(), TransferOutcome::Retry);
    assert_eq!(t.on_transport_error(), TransferOutcome::FailedPermanent);
    assert_eq!(t.into_file(), Vec::<u8>::new());
}

#[test]
fn test_single_attempt_budget() {
    let mut t = Transfer::new(Vec::new(), 1);
    assert_eq!(t.on_transport_error(), TransferOutcome::FailedPermanent);
}

#[test]
fn test_fatal_status_not_retried() {
    let mut t = Transfer::new(b"part".to_vec(), 5);
    let outcome = t.on_response(404, b"ignored".as_slice());
    assert_eq!(outcome, TransferOutcome::FailedFatal);
    // The destination is never truncated or extended by a failed response.
    assert_eq!(t.into_file(), b"part".to_vec());
}

#[test]
fn test_completion_check() {
    let t = Transfer::new(b"abc".to_vec(), 1);
    assert!(t.is_complete(3));
    assert!(!t.is_complete(4));
}

#[test]
fn test_initial_stage_guard() {
    // A file of at least the declared size skips the transfer.
    assert_eq!(initial_stage(100, 100), Stage::Extracting);
    assert_eq!(initial_stage(150, 100), Stage::Extracting);
    assert_eq!(initial_stage(99, 100), Stage::Downloading);
    assert_eq!(initial_stage(0, 100), Stage::Downloading);
}

#[test]
fn test_stage_sequence() {
    let mut s = Stage::Downloading;
    for expected in [
        Stage::Extracting,
        Stage::Patching,
        Stage::Deleting,
        Stage::Merging,
        Stage::CleaningUp,
        Stage::Done,
    ] {
        s = next_stage(s, true);
        assert_eq!(s, expected);
    }
    // Done is terminal.
    assert_eq!(next_stage(Stage::Done, false), Stage::Done);
}

#[test]
fn test_stage_failure() {
    assert_eq!(next_stage(Stage::Patching, false), Stage::Failed);
    assert_eq!(next_stage(Stage::Downloading, false), Stage::Failed);
    // Failed is terminal.
    assert_eq!(next_stage(Stage::Failed, true), Stage::Failed);
}
