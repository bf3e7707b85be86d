use eve_l_preview::daemon::DaemonStatus;
use eve_l_preview::daemon::PollResult;

#[test]
fn test_labels() {
    assert_eq!(DaemonStatus::Running.label(), "\u{25CF}  Running");
    assert_eq!(DaemonStatus::Starting.label(), "\u{25CF}  Starting...");
    assert_eq!(DaemonStatus::Stopped.label(), "\u{25CF}  Stopped");
    assert_eq!(DaemonStatus::Crashed(None).label(), "\u{25CF}  Crashed");
    assert_eq!(
        DaemonStatus::Crashed(Some(137)).label(),
        "\u{25CF}  Crashed (exit 137)"
    );
    assert_eq!(
        DaemonStatus::Crashed(Some(0)).label(),
        "\u{25CF}  Crashed (exit 0)"
    );
    assert_eq!(
        DaemonStatus::Crashed(Some(-9)).label(),
        "\u{25CF}  Crashed (exit -9)"
    );
    assert_eq!(
        DaemonStatus::Crashed(Some(i32::MIN)).label(),
        "\u{25CF}  Crashed (exit -2147483648)"
    );
}

#[test]
fn test_poll_transitions() {
    assert_eq!(
        DaemonStatus::Starting.after_poll(PollResult::StillRunning),
        DaemonStatus::Running
    );
    assert_eq!(
        DaemonStatus::Running.after_poll(PollResult::StillRunning),
        DaemonStatus::Running
    );
    assert_eq!(
        DaemonStatus::Running.after_poll(PollResult::Exited { success: true, code: Some(0) }),
        DaemonStatus::Stopped
    );
    assert_eq!(
        DaemonStatus::Running.after_poll(PollResult::Exited { success: false, code: Some(1) }),
        DaemonStatus::Crashed(Some(1))
    );
    assert_eq!(
        DaemonStatus::Stopped.after_poll(PollResult::QueryFailed),
        DaemonStatus::Stopped
    );
}
