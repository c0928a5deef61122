//! Floor control.

use oxlens_sfu::room::floor::{FloorAction, FloorConfig, FloorController};

fn now() -> u64 {
    1000000
}

#[test]
fn test_basic_grant_release() {
    let mut fc = FloorController::new();
    let actions = fc.request("A", 0, now());
    assert_eq!(actions.len(), 1);
    assert!(matches!(&actions[0], FloorAction::Granted { speaker, .. } if speaker == "A"));

    let actions = fc.release("A");
    assert_eq!(actions.len(), 1);
    assert!(matches!(&actions[0], FloorAction::Released { .. }));
}

#[test]
fn test_preemption() {
    let mut fc = FloorController::new();
    fc.request("A", 2, now());

    let actions = fc.request("B", 5, now());
    assert_eq!(actions.len(), 2);
    assert!(matches!(&actions[0], FloorAction::Revoked { prev_speaker, cause }
        if prev_speaker == "A" && cause == "preempted"));
    assert!(matches!(&actions[1], FloorAction::Granted { speaker, priority, .. }
        if speaker == "B" && *priority == 5));
}

#[test]
fn test_no_preemption_same_priority() {
    let mut fc = FloorController::new();
    fc.request("A", 3, now());

    let actions = fc.request("B", 3, now());
    assert_eq!(actions.len(), 1);
    assert!(matches!(&actions[0], FloorAction::Queued { .. }));
}

#[test]
fn test_queue_fifo_same_priority() {
    let mut fc = FloorController::new();
    fc.request("A", 5, now());
    fc.request("B", 2, now());
    fc.request("C", 2, now() + 1);

    let actions = fc.release("A");
    assert!(actions.len() >= 2);
    assert!(matches!(&actions[1], FloorAction::Granted { speaker, .. } if speaker == "B"));
}

#[test]
fn test_queue_priority_order() {
    let mut fc = FloorController::new();
    fc.request("A", 10, now());
    fc.request("B", 1, now());
    fc.request("C", 5, now());
    fc.request("D", 3, now());

    let actions = fc.release("A");
    assert!(actions.len() >= 2);
    assert!(matches!(&actions[1], FloorAction::Granted { speaker, .. } if speaker == "C"));
}

#[test]
fn test_queue_full_deny() {
    let config = FloorConfig {
        max_queue_size: 2,
        ..FloorConfig::default()
    };
    let mut fc = FloorController::with_config(config);
    fc.request("A", 0, now());
    fc.request("B", 0, now());
    fc.request("C", 0, now());

    let actions = fc.request("D", 0, now());
    assert_eq!(actions.len(), 1);
    assert!(matches!(&actions[0], FloorAction::Denied { reason, .. } if reason == "queue full"));
}

#[test]
fn test_queue_disabled_deny() {
    let config = FloorConfig {
        queuing_enabled: false,
        ..FloorConfig::default()
    };
    let mut fc = FloorController::with_config(config);
    fc.request("A", 0, now());

    let actions = fc.request("B", 0, now());
    assert_eq!(actions.len(), 1);
    assert!(matches!(&actions[0], FloorAction::Denied { reason, .. } if reason == "channel busy"));
}

#[test]
fn test_participant_leave_speaker_queue_pop() {
    let mut fc = FloorController::new();
    fc.request("A", 5, now());
    fc.request("B", 2, now());

    let actions = fc.on_participant_leave("A");
    assert!(actions.len() >= 2);
    assert!(matches!(&actions[0], FloorAction::Released { prev_speaker } if prev_speaker == "A"));
    assert!(matches!(&actions[1], FloorAction::Granted { speaker, .. } if speaker == "B"));
}

#[test]
fn test_participant_leave_queued() {
    let mut fc = FloorController::new();
    fc.request("A", 5, now());
    fc.request("B", 2, now());

    let actions = fc.on_participant_leave("B");
    assert!(actions.is_empty());
    assert_eq!(fc.queue_size(), 0);
}

#[test]
fn test_idempotent_request() {
    let mut fc = FloorController::new();
    fc.request("A", 3, now());

    let actions = fc.request("A", 3, now());
    assert_eq!(actions.len(), 1);
    assert!(matches!(&actions[0], FloorAction::Granted { speaker, .. } if speaker == "A"));
}

#[test]
fn test_duplicate_queue() {
    let mut fc = FloorController::new();
    fc.request("A", 5, now());
    fc.request("B", 2, now());

    let actions = fc.request("B", 2, now());
    assert_eq!(actions.len(), 1);
    assert!(matches!(&actions[0], FloorAction::Queued { position, .. } if *position == 1));
    assert_eq!(fc.queue_size(), 1);
}

#[test]
fn test_check_timers_revoke_queue_pop() {
    let config = FloorConfig {
        max_burst_ms: 100,
        ..FloorConfig::default()
    };
    let mut fc = FloorController::with_config(config);
    fc.request("A", 5, 1000);
    fc.request("B", 2, 1000);

    let actions = fc.check_timers(1200);
    assert_eq!(actions.len(), 2);
    assert!(matches!(&actions[0], FloorAction::Revoked { prev_speaker, .. } if prev_speaker == "A"));
    assert!(matches!(&actions[1], FloorAction::Granted { speaker, .. } if speaker == "B"));
}
