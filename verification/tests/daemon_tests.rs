use moves::daemon::check_can_start;
use moves::daemon::check_can_stop;
use moves::daemon::daemon_status;
use moves::daemon::pause_daemon;
use moves::daemon::resume_daemon;
use moves::errors::DaemonError;
use moves::state::State;
use moves::state::StateStore;

#[test]
fn test_lifecycle_preconditions() {
    assert_eq!(check_can_start(false), Ok(()));
    assert_eq!(check_can_start(true), Err(DaemonError::AlreadyRunning));
    assert_eq!(check_can_stop(true), Ok(()));
    assert_eq!(check_can_stop(false), Err(DaemonError::NotRunning));
}

#[test]
fn test_pause_and_resume_write_the_state() {
    let mut store = StateStore::new(None);
    assert_eq!(pause_daemon(&mut store, true), Ok(()));
    assert!(store.load().unwrap().paused);
    assert_eq!(resume_daemon(&mut store, true), Ok(()));
    assert!(!store.load().unwrap().paused);
}

#[test]
fn test_control_commands_require_a_running_daemon() {
    let mut store = StateStore::new(None);
    assert_eq!(pause_daemon(&mut store, false), Err(DaemonError::NotRunning));
    assert_eq!(resume_daemon(&mut store, false), Err(DaemonError::NotRunning));
    assert!(store.contents.is_none());
}

#[test]
fn test_control_commands_propagate_corrupt_state() {
    let mut store = StateStore::new(Some(b"???".to_vec()));
    assert_eq!(pause_daemon(&mut store, true), Err(DaemonError::CorruptState));
    assert_eq!(resume_daemon(&mut store, true), Err(DaemonError::CorruptState));
    assert_eq!(daemon_status(&store, true), Err(DaemonError::CorruptState));
    // nothing was overwritten
    assert_eq!(store.contents, Some(b"???".to_vec()));
}

#[test]
fn test_status_lines() {
    let mut store = StateStore::new(None);
    assert_eq!(
        daemon_status(&store, false).unwrap(),
        "Daemon is not running"
    );
    assert_eq!(
        daemon_status(&store, true).unwrap(),
        "Daemon is running (active)"
    );
    store.save(State { paused: true });
    assert_eq!(
        daemon_status(&store, true).unwrap(),
        "Daemon is running (paused)"
    );
}

#[test]
fn test_error_messages() {
    assert_eq!(
        DaemonError::Format.message(),
        "Invalid interval format. Use: 1h, 30m, 1h30m, 90m"
    );
    assert_eq!(
        DaemonError::ZeroDuration.message(),
        "Interval must be greater than 0"
    );
    assert_eq!(DaemonError::AlreadyRunning.message(), "Daemon is already running");
    assert_eq!(DaemonError::NotRunning.message(), "No daemon is running");
    assert_eq!(DaemonError::CorruptState.message(), "State file is corrupt");
}
