use std::collections::HashMap;

use den::clock::Timestamp;
use den::error::DenError;
use den::sandbox::{Sandbox, SandboxState};

fn make_sandbox() -> Sandbox {
    Sandbox::new(
        "test-1".into(),
        "container-abc".into(),
        "den-vol-test-1".into(),
        "standard".into(),
        60,
        HashMap::new(),
        Vec::new(),
        4,
    )
}

fn at(secs: i64) -> Timestamp {
    Timestamp::from_unix(secs, 0).unwrap()
}

#[test]
fn valid_transitions() {
    let mut s = make_sandbox();
    assert_eq!(s.state, SandboxState::Pending);

    assert!(s.transition(SandboxState::Starting).is_ok());
    assert_eq!(s.state, SandboxState::Starting);

    assert!(s.transition(SandboxState::Running).is_ok());
    assert_eq!(s.state, SandboxState::Running);
    assert!(s.started_at.is_some());

    assert!(s.transition(SandboxState::Completed).is_ok());
    assert!(s.state.is_terminal());
}

#[test]
fn invalid_transition_from_pending_to_running() {
    let mut s = make_sandbox();
    assert!(s.transition(SandboxState::Running).is_err());
}

#[test]
fn invalid_transition_from_terminal() {
    let mut s = make_sandbox();
    s.state = SandboxState::Completed;
    assert!(s.transition(SandboxState::Running).is_err());
}

#[test]
fn pending_to_failed() {
    let mut s = make_sandbox();
    assert!(s.transition(SandboxState::Failed).is_ok());
    assert!(s.state.is_terminal());
}

#[test]
fn running_to_timeout() {
    let mut s = make_sandbox();
    s.state = SandboxState::Running;
    assert!(s.transition(SandboxState::Timeout).is_ok());
}

#[test]
fn running_to_defunct() {
    let mut s = make_sandbox();
    s.state = SandboxState::Running;
    assert!(s.transition(SandboxState::Defunct).is_ok());
    assert_eq!(s.state, SandboxState::Defunct);
    assert!(!s.state.is_terminal()); // resumable
    assert!(!s.state.is_usable()); // not exec-able
}

#[test]
fn defunct_is_not_terminal() {
    assert!(!SandboxState::Defunct.is_terminal());
}

#[test]
fn is_expired_false_when_not_started() {
    let s = make_sandbox();
    assert!(!s.is_expired());
}

#[test]
fn touch_updates_last_activity() {
    let mut s = make_sandbox();
    let before = s.last_activity;
    while Timestamp::now() <= before {}
    s.touch();
    assert!(s.last_activity > before);
}

#[test]
fn every_transition_is_as_listed() {
    let all = [
        SandboxState::Pending,
        SandboxState::Starting,
        SandboxState::Running,
        SandboxState::Defunct,
        SandboxState::Completed,
        SandboxState::Failed,
        SandboxState::Timeout,
    ];
    let mut permitted = 0;
    for from in all {
        for to in all {
            let mut s = make_sandbox();
            s.state = from;
            let moved = s.transition(to).is_ok();
            assert_eq!(moved, from.valid_transitions().contains(&to));
            assert_eq!(s.state, if moved { to } else { from });
            if moved {
                permitted += 1;
            }
        }
    }
    assert_eq!(permitted, 8);
    assert!(SandboxState::Defunct.valid_transitions().is_empty());
    assert!(SandboxState::Timeout.valid_transitions().is_empty());
}

#[test]
fn a_refused_transition_names_both_states() {
    let mut s = make_sandbox();
    let e = s.transition(SandboxState::Running).unwrap_err();
    assert_eq!(
        e.message(),
        "sandbox test-1 in state Pending, cannot transition to Running"
    );
    assert!(matches!(e, DenError::InvalidState { current: SandboxState::Pending, .. }));
    assert!(s.started_at.is_none());
}

#[test]
fn only_a_running_sandbox_is_usable() {
    assert!(SandboxState::Running.is_usable());
    for s in [
        SandboxState::Pending,
        SandboxState::Starting,
        SandboxState::Defunct,
        SandboxState::Completed,
        SandboxState::Failed,
        SandboxState::Timeout,
    ] {
        assert!(!s.is_usable());
    }
}

#[test]
fn a_sandbox_expires_after_its_time_and_no_sooner() {
    let mut s = make_sandbox();
    s.transition_at(SandboxState::Starting, at(100)).unwrap();
    s.transition_at(SandboxState::Running, at(100)).unwrap();
    assert_eq!(s.started_at, Some(at(100)));
    assert!(!s.expired_by(&Timestamp::from_unix(159, 999_999_999).unwrap()));
    assert!(s.expired_by(&at(160)));
    assert!(!s.expired_by(&at(100)));
}

#[test]
fn a_sandbox_is_idle_after_the_given_time() {
    let mut s = make_sandbox();
    s.touch_at(at(1000));
    assert!(!s.idle_by(&at(1299), 300));
    assert!(s.idle_by(&at(1300), 300));
    // a clock set back by a second or more counts as a very long time
    assert!(s.idle_by(&at(999), 300));
    assert!(!s.idle_by(&Timestamp::from_unix(999, 1).unwrap(), 300));
    // touching puts it off
    s.touch_at(at(1300));
    assert!(!s.idle_by(&at(1300), 300));
}

#[test]
fn a_new_sandbox_is_not_idle() {
    let s = make_sandbox();
    assert!(!s.is_idle(300));
    assert!(s.is_idle(0));
}

#[test]
fn a_copy_is_the_same() {
    let mut s = make_sandbox();
    s.bind_mounts.push("/host:/c:ro".into());
    s.metadata.insert("k".into(), "v".into());
    let c = s.clone();
    assert_eq!(c.id, "test-1");
    assert_eq!(c.container_id, "container-abc");
    assert_eq!(c.volume_name, "den-vol-test-1");
    assert_eq!(c.bind_mounts, vec!["/host:/c:ro".to_string()]);
    assert_eq!(c.metadata.get("k"), Some(&"v".to_string()));
    assert_eq!(c.created_at, s.created_at);
    assert_eq!(c.max_concurrent_execs, 4);
    assert_eq!(c.active_execs, 0);
}

#[test]
fn states_have_names() {
    assert_eq!(SandboxState::Defunct.name(), "Defunct");
    assert_eq!(SandboxState::Defunct.lower_name(), "defunct");
    assert_eq!(SandboxState::Timeout.lower_name(), "timeout");
}
