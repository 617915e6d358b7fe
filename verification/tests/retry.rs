use asthetic_clipboard::retry::{
    backoff_delay_ms, contains_bytes, is_contention, Action, Failed, Retry, BASE_DELAY_MS,
    MAX_ATTEMPTS,
};
use asthetic_clipboard::ClipboardStorage;

fn failed(message: &str) -> Failed<String> {
    Failed { error: format!("error: {}", message), message: message.to_string() }
}

#[test]
fn backoff_doubles_from_the_base_delay() {
    assert_eq!(BASE_DELAY_MS, 50);
    assert_eq!(MAX_ATTEMPTS, 5);
    assert_eq!(backoff_delay_ms(1), 50);
    assert_eq!(backoff_delay_ms(2), 100);
    assert_eq!(backoff_delay_ms(3), 200);
    assert_eq!(backoff_delay_ms(4), 400);
    assert_eq!(backoff_delay_ms(5), 800);
}

#[test]
fn contention_is_found_anywhere_in_the_message() {
    assert!(is_contention("Failed to acquire lock"));
    assert!(is_contention("io: Failed to acquire"));
    assert!(is_contention("caf\u{e9} \u{2014} Failed to acquire file"));
    assert!(!is_contention("failed to acquire lock"));
    assert!(!is_contention("Failed to acquir"));
    assert!(!is_contention(""));
    assert!(!is_contention("expected value at line 1 column 1"));
}

#[test]
fn contains_bytes_agrees_with_a_direct_search() {
    assert!(contains_bytes(b"abc", b""));
    assert!(contains_bytes(b"", b""));
    assert!(!contains_bytes(b"", b"a"));
    assert!(contains_bytes(b"abc", b"abc"));
    assert!(contains_bytes(b"xxabc", b"abc"));
    assert!(contains_bytes(b"aab", b"ab"));
    assert!(!contains_bytes(b"abab", b"abb"));
    assert!(!contains_bytes(b"ab", b"abc"));
}

#[test]
fn save_is_retried_four_times_and_then_fails() {
    let mut retry = Retry::new();
    let mut pauses = Vec::new();
    let mut attempts = 0u32;
    let result = loop {
        attempts += 1;
        let step = retry.after_save(Err(failed(&format!("disk full {}", attempts))));
        let report = step.report.expect("a failure is reported");
        assert_eq!(report.attempt, attempts);
        assert!(report.log_attempt);
        assert_eq!(report.message, format!("disk full {}", attempts));
        match step.action {
            Action::Sleep { delay_ms } => {
                assert!(!report.exhausted);
                pauses.push(delay_ms);
            }
            Action::Return(result) => {
                assert!(report.exhausted);
                break result;
            }
        }
    };
    assert_eq!(attempts, 5);
    assert_eq!(pauses, vec![50, 100, 200, 400]);
    assert_eq!(result, Err("error: disk full 5".to_string()));
}

#[test]
fn save_that_succeeds_returns_at_once() {
    let mut retry = Retry::new();
    let step = retry.after_save::<String>(Ok(()));
    assert!(step.report.is_none());
    assert!(matches!(step.action, Action::Return(Ok(()))));
    assert_eq!(retry.failures, 0);
}

#[test]
fn save_succeeds_after_failures() {
    let mut retry = Retry::new();
    assert!(matches!(
        retry.after_save(Err(failed("busy"))).action,
        Action::Sleep { delay_ms: 50 }
    ));
    assert!(matches!(
        retry.after_save(Err(failed("busy"))).action,
        Action::Sleep { delay_ms: 100 }
    ));
    let step = retry.after_save::<String>(Ok(()));
    assert!(matches!(step.action, Action::Return(Ok(()))));
    assert_eq!(retry.failures, 2);
}

#[test]
fn load_falls_back_to_the_empty_history() {
    let mut retry = Retry::new();
    let mut pauses = Vec::new();
    let storage = loop {
        let step = retry.after_load(Err(failed("Failed to acquire lock on history")));
        let report = step.report.expect("a failure is reported");
        assert!(!report.log_attempt);
        match step.action {
            Action::Sleep { delay_ms } => pauses.push(delay_ms),
            Action::Return(storage) => {
                assert!(report.exhausted);
                assert_eq!(report.attempt, 5);
                break storage;
            }
        }
    };
    assert_eq!(pauses, vec![50, 100, 200, 400]);
    assert!(storage.is_empty());
}

#[test]
fn load_returns_what_was_read() {
    let mut retry = Retry::new();
    let step = retry.after_load(Err(failed("busy")));
    assert!(matches!(step.action, Action::Sleep { delay_ms: 50 }));
    let mut read = ClipboardStorage::new();
    read.add("a".to_string(), "text".to_string(), None, 10);
    let step = retry.after_load::<String>(Ok(read));
    assert!(step.report.is_none());
    match step.action {
        Action::Return(storage) => {
            assert_eq!(storage.len(), 1);
            assert_eq!(storage.history[0].content, "a");
        }
        Action::Sleep { .. } => panic!("a history that was read is returned"),
    }
}

#[test]
fn failures_are_not_counted_past_the_ceiling() {
    let mut retry = Retry::new();
    for _ in 0..7 {
        let _ = retry.record_failure("busy".to_string());
    }
    assert_eq!(retry.failures, 5);
    let (report, pause) = retry.record_failure("busy".to_string());
    assert!(report.exhausted);
    assert_eq!(report.attempt, 5);
    assert_eq!(pause, None);
}
