use upload_queue::aux_files::aux_file_batch;
use upload_queue::aux_files::aux_file_content;
use upload_queue::aux_files::aux_file_path;
use upload_queue::aux_files::explicit_target;
use upload_queue::aux_files::AuxFilesError;
use upload_queue::aux_files::RetryAction;
use upload_queue::aux_files::RetryState;
use upload_queue::idle_streams::check_stream_count;
use upload_queue::idle_streams::stream_step;
use upload_queue::idle_streams::StreamStep;
use upload_queue::idle_streams::StreamsError;
use upload_queue::targets::TenantTimelineId;
use upload_queue::trigger_initial_size_calculation::after_answer;
use upload_queue::trigger_initial_size_calculation::max_concurrency;
use upload_queue::trigger_initial_size_calculation::timeout_secs;
use upload_queue::trigger_initial_size_calculation::InfoAnswer;
use upload_queue::trigger_initial_size_calculation::PollAction;

#[test]
fn exactly_one_explicit_target_is_taken() {
    let one = TenantTimelineId { tenant_id: 1, timeline_id: 2 };
    assert_eq!(explicit_target(&None), Ok(None));
    assert_eq!(explicit_target(&Some(vec![one])), Ok(Some(one)));
    assert_eq!(
        explicit_target(&Some(Vec::new())),
        Err(AuxFilesError::NotExactlyOneTarget { given: 0 })
    );
    assert_eq!(
        explicit_target(&Some(vec![one, one])),
        Err(AuxFilesError::NotExactlyOneTarget { given: 2 })
    );
}

#[test]
fn retries_double_the_delay_and_end_at_the_fifth_failure() {
    let mut state = RetryState::new();
    let mut delays = Vec::new();
    loop {
        let (next, action) = state.after_attempt(false);
        state = next;
        match action {
            RetryAction::SleepAndRetry { delay_ms } => delays.push(delay_ms),
            RetryAction::GiveUp => break,
            RetryAction::Proceed => panic!("a failure does not proceed"),
        }
    }
    assert_eq!(delays, vec![200, 400, 800, 1600]);
    assert_eq!(state.attempt, 5);
    assert_eq!(state.delay_ms, 3200);
}

#[test]
fn delay_is_capped() {
    let state = RetryState { attempt: 0, delay_ms: 3000 };
    let (next, action) = state.after_attempt(false);
    assert_eq!(action, RetryAction::SleepAndRetry { delay_ms: 3000 });
    assert_eq!(next, RetryState { attempt: 1, delay_ms: 5000 });
    let (last, _) = RetryState { attempt: 1, delay_ms: u64::MAX }.after_attempt(false);
    assert_eq!(last.delay_ms, 5000);
}

#[test]
fn success_ends_the_attempts() {
    let (state, action) = RetryState::new().after_attempt(true);
    assert_eq!(action, RetryAction::Proceed);
    assert_eq!(state, RetryState { attempt: 1, delay_ms: 200 });
    let (_, late) = RetryState { attempt: 4, delay_ms: 3200 }.after_attempt(true);
    assert_eq!(late, RetryAction::Proceed);
}

#[test]
fn files_are_named_by_batch_and_number() {
    assert_eq!(aux_file_path(0, 0), "pg_logical/mappings/000.000");
    assert_eq!(aux_file_path(7, 42), "pg_logical/mappings/007.042");
    assert_eq!(aux_file_path(99, 99), "pg_logical/mappings/099.099");
    assert_eq!(aux_file_path(1234, 100), format!("pg_logical/mappings/{:03}.{:03}", 1234, 100));
    assert_eq!(aux_file_content(0), "00000000");
    assert_eq!(aux_file_content(42), "00000042");
    assert_eq!(aux_file_content(u32::MAX), format!("{:08}", u32::MAX));
}

#[test]
fn a_batch_holds_a_hundred_files() {
    let items = aux_file_batch(3);
    assert_eq!(items.len(), 100);
    for (id, (path, content)) in items.iter().enumerate() {
        assert_eq!(path, &format!("pg_logical/mappings/{:03}.{:03}", 3, id));
        assert_eq!(content, &format!("{:08}", id));
    }
}

#[test]
fn stream_counts_up_to_a_million_are_accepted() {
    assert_eq!(check_stream_count(0), Ok(()));
    assert_eq!(check_stream_count(1_000_000), Ok(()));
    assert_eq!(
        check_stream_count(1_000_001),
        Err(StreamsError::TooManyStreams { count: 1_000_001, max_streams: 1_000_000 })
    );
}

#[test]
fn connections_rotate_after_their_share_of_streams() {
    assert_eq!(stream_step(0, 100), StreamStep { report_progress: true, reconnect: false });
    assert_eq!(stream_step(99, 100), StreamStep { report_progress: false, reconnect: false });
    assert_eq!(stream_step(100, 100), StreamStep { report_progress: false, reconnect: true });
    assert_eq!(stream_step(1000, 100), StreamStep { report_progress: true, reconnect: true });
    assert_eq!(stream_step(1000, 3), StreamStep { report_progress: true, reconnect: false });
    assert_eq!(stream_step(5, 1), StreamStep { report_progress: false, reconnect: true });
    let reconnects = (0..250).filter(|i| stream_step(*i, 100).reconnect).count();
    assert_eq!(reconnects, 2);
}

#[test]
fn settings_are_read_as_numbers() {
    assert_eq!(timeout_secs(None), 10);
    assert_eq!(timeout_secs(Some("45")), 45);
    assert_eq!(timeout_secs(Some("0")), 0);
    assert_eq!(timeout_secs(Some("forty")), 10);
    assert_eq!(timeout_secs(Some("-1")), 10);
    assert_eq!(timeout_secs(Some("")), 10);
    assert_eq!(max_concurrency(None), 32);
    assert_eq!(max_concurrency(Some("8")), 8);
    assert_eq!(max_concurrency(Some("8 ")), 32);
}

#[test]
fn polling_goes_on_until_the_size_is_accurate() {
    let rough = InfoAnswer::Info { current_logical_size_is_accurate: false };
    let exact = InfoAnswer::Info { current_logical_size_is_accurate: true };
    assert_eq!(after_answer(true, rough), PollAction::WaitAndAskAgain);
    assert_eq!(after_answer(true, exact), PollAction::Finish);
    assert_eq!(after_answer(false, rough), PollAction::Finish);
    assert_eq!(after_answer(true, InfoAnswer::Failed), PollAction::Finish);
    assert_eq!(after_answer(false, InfoAnswer::Failed), PollAction::Finish);
}
