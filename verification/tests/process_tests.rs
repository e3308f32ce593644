use dsh_desktop::process::{
    decide_wait, group_kill_target, parse_url, relaunch_needed, wait_slice_nanos, CleanupAction, ProcessState,
    ReadyWatcher, SpawnRetry, WaitDecision, WaitOutcome, MAX_ATTEMPTS,
};

#[test]
fn parses_loopback_url() {
    assert_eq!(
        parse_url("dsh web: http://127.0.0.1:62958"),
        Some("http://127.0.0.1:62958".to_string())
    );
}

#[test]
fn takes_only_the_url_token() {
    assert_eq!(
        parse_url("info dsh web: http://127.0.0.1:1 extra words"),
        Some("http://127.0.0.1:1".to_string())
    );
}

#[test]
fn missing_marker_is_none() {
    assert_eq!(parse_url("server listening on port 1234"), None);
    assert_eq!(parse_url(""), None);
}

#[test]
fn non_http_url_is_none() {
    assert_eq!(parse_url("dsh web: https://127.0.0.1:62958"), None);
    assert_eq!(parse_url("dsh web: "), None);
}

#[test]
fn url_after_extra_whitespace_and_tabs() {
    assert_eq!(
        parse_url("dsh web:   \thttp://127.0.0.1:5\tnext"),
        Some("http://127.0.0.1:5".to_string())
    );
}

#[test]
fn first_marker_wins() {
    assert_eq!(
        parse_url("dsh web: ftp://x dsh web: http://127.0.0.1:9"),
        None
    );
}

#[test]
fn unicode_before_marker() {
    assert_eq!(
        parse_url("启动 dsh web: http://127.0.0.1:7"),
        Some("http://127.0.0.1:7".to_string())
    );
}

#[test]
fn watcher_reports_url_once() {
    let mut w = ReadyWatcher::new();
    assert_eq!(w.on_line("booting"), None);
    assert_eq!(
        w.on_line("dsh web: http://127.0.0.1:1"),
        Some("http://127.0.0.1:1".to_string())
    );
    assert_eq!(w.on_line("dsh web: http://127.0.0.1:2"), None);
}

#[test]
fn cleanup_follows_assignment() {
    let mut s = ProcessState::new();
    assert_eq!(s.cleanup_action(), CleanupAction::Nothing);
    s.record_pid(42);
    assert_eq!(s.cleanup_action(), CleanupAction::KillProcess { pid: 42 });
    s.record_assignment(true);
    assert_eq!(s.cleanup_action(), CleanupAction::KillTree { pid: 42 });
    s.record_pid(43);
    assert_eq!(s.cleanup_action(), CleanupAction::KillTree { pid: 43 });
    s.record_assignment(false);
    assert_eq!(s.cleanup_action(), CleanupAction::KillProcess { pid: 43 });
}

#[test]
fn group_target_negates_pid() {
    assert_eq!(group_kill_target(1234), -1234);
    assert_eq!(group_kill_target(0), 0);
    assert_eq!(group_kill_target(0xFFFF_FFFF), 1);
}

#[test]
fn retry_plan_makes_six_attempts() {
    let mut r = SpawnRetry::new();
    let mut plans = Vec::new();
    while let Some(p) = r.next_attempt() {
        plans.push(p);
        r.record_failure(format!("failure {}", p.attempt));
    }
    assert_eq!(plans.len() as u32, MAX_ATTEMPTS);
    assert_eq!(plans[0].wait_secs, 180);
    assert!(!plans[0].wipe_profile);
    assert_eq!(plans[0].backoff_ms, 0);
    for (i, p) in plans.iter().enumerate().skip(1) {
        assert_eq!(p.attempt as usize, i);
        assert!(p.wipe_profile);
        assert_eq!(p.backoff_ms, 8000);
        assert_eq!(p.wait_secs, 30);
    }
    assert_eq!(r.final_error(), "failure 5");
}

#[test]
fn retry_without_error_reports_generic_message() {
    let r = SpawnRetry::new();
    assert_eq!(r.final_error(), "dsh web failed to start after retries");
}

#[test]
fn wait_decisions() {
    assert!(matches!(
        decide_wait(WaitOutcome::Ready, false, 7, 180),
        WaitDecision::Started { pid: 7 }
    ));
    match decide_wait(WaitOutcome::Exited, false, 7, 180) {
        WaitDecision::Fail { pid, message } => {
            assert_eq!(pid, 7);
            assert_eq!(message, "dsh web exited before printing its URL");
        }
        _ => panic!("expected a failure"),
    }
    match decide_wait(WaitOutcome::Timeout, true, 8, 180) {
        WaitDecision::Fail { pid, message } => {
            assert_eq!(pid, 8);
            assert_eq!(message, "dsh web did not print its URL within 180 seconds");
        }
        _ => panic!("expected a failure"),
    }
    assert!(matches!(
        decide_wait(WaitOutcome::Timeout, false, 8, 30),
        WaitDecision::KeepWaiting
    ));
}

#[test]
fn wait_slices_are_capped_at_five_seconds() {
    assert_eq!(wait_slice_nanos(1_000), 1_000);
    assert_eq!(wait_slice_nanos(5_000_000_000), 5_000_000_000);
    assert_eq!(wait_slice_nanos(u128::MAX), 5_000_000_000);
}

#[test]
fn relaunch_guarded_for_a_minute() {
    assert!(relaunch_needed(true, None));
    assert!(!relaunch_needed(true, Some(0)));
    assert!(!relaunch_needed(true, Some(59)));
    assert!(relaunch_needed(true, Some(60)));
    assert!(!relaunch_needed(false, None));
}
