use vibe_kanban::guard::{guard_arguments, guard_step, ChildState, GuardArgError, GuardStep};
use vibe_kanban::lease::{Fence, Lease, PermissionError, MAX_RUN_MS};

fn lease() -> Lease {
    Lease {
        version: 1,
        id: "lease".into(),
        allocation_id: "old-week:day".into(),
        execution_id: "execution".into(),
        expires_at_ms: 20_000,
        stop_at_ms: 100_000,
        sequence: 0,
        revoked: false,
    }
}

#[test]
fn expiry_cannot_be_resurrected() {
    let mut fence = Fence::new(lease(), 1000, 0).unwrap();
    let mut next = lease();
    next.sequence = 1;
    next.expires_at_ms = 40_000;
    assert!(fence.observe(&next, 20_000, 19_000).is_err());
    assert!(fence.observe(&next, 20_001, 19_001).is_err());
}

#[test]
fn timely_renewals_still_stop_at_original_deadline() {
    let mut fence = Fence::new(lease(), 1000, 0).unwrap();
    let mut next = lease();
    for now in (10_000..100_000).step_by(10_000) {
        next.sequence += 1;
        next.expires_at_ms = (now + 20_000).min(100_000);
        fence.observe(&next, now, now - 1000).unwrap();
    }
    assert!(fence.observe(&next, 100_000, 99_000).is_err());
}

#[test]
fn changed_cycle_execution_deadline_sequence_or_revocation_stops() {
    for field in 0..6 {
        let mut fence = Fence::new(lease(), 1000, 0).unwrap();
        let mut next = lease();
        match field {
            0 => next.allocation_id = "fresh-week".into(),
            1 => next.execution_id = "other".into(),
            2 => next.stop_at_ms += 1000,
            3 => next.expires_at_ms += 1000,
            4 => next.revoked = true,
            _ => next.id = "other".into(),
        }
        assert!(fence.observe(&next, 2000, 1000).is_err());
    }
}

#[test]
fn clock_adjustments_fail_closed() {
    let mut fence = Fence::new(lease(), 1000, 0).unwrap();
    assert!(fence.observe(&lease(), 999, 100).is_err());
    let mut fence = Fence::new(lease(), 1000, 0).unwrap();
    assert!(fence.observe(&lease(), 9000, 100).is_err());
}

#[test]
fn invalid_or_unbounded_permissions_are_rejected() {
    for field in 0..5 {
        let mut next = lease();
        match field {
            0 => next.expires_at_ms = 1000,
            1 => next.expires_at_ms = 99_000,
            2 => next.stop_at_ms = MAX_RUN_MS + 2000,
            3 => next.version = 2,
            _ => next.allocation_id.clear(),
        }
        assert!(Fence::new(next, 1000, 0).is_err());
    }
}

#[test]
fn a_closed_fence_stays_closed_even_for_a_valid_renewal() {
    let mut fence = Fence::new(lease(), 1000, 0).unwrap();
    let mut bad = lease();
    bad.revoked = true;
    assert!(fence.observe(&bad, 2000, 1000).is_err());
    assert!(fence.is_stopped());
    let mut next = lease();
    next.sequence = 1;
    next.expires_at_ms = 30_000;
    assert!(fence.observe(&next, 3000, 2000).is_err());
}

#[test]
fn renewal_moves_the_expiry_but_never_the_deadline() {
    let mut fence = Fence::new(lease(), 1000, 0).unwrap();
    let mut next = lease();
    next.sequence = 1;
    next.expires_at_ms = 50_000;
    assert!(fence.observe(&next, 10_000, 9_000).is_ok());
    assert_eq!(fence.lease().expires_at_ms, 50_000);
    assert_eq!(fence.lease().stop_at_ms, 100_000);
    assert_eq!(fence.lease().sequence, 1);
}

#[test]
fn permission_errors_have_messages() {
    assert_eq!(PermissionError::Revoked.message(), "permission revoked");
    assert_eq!(PermissionError::ClockChanged.message(), "clock changed; fresh execution required");
    let mut revoked = lease();
    revoked.revoked = true;
    assert_eq!(Fence::new(revoked, 1000, 0).err(), Some(PermissionError::Revoked));
}

#[test]
fn guard_arguments_are_checked_in_order() {
    assert_eq!(guard_arguments(vec![], true).err(), Some(GuardArgError::MissingPermissionFile));
    assert_eq!(
        guard_arguments(vec!["/p/lease.json".to_string()], true).err(),
        Some(GuardArgError::MissingExecutable)
    );
    assert_eq!(
        guard_arguments(vec!["/p/lease.json".to_string(), "codex".to_string()], false).err(),
        Some(GuardArgError::NotContained)
    );
    let (file, program, rest) = guard_arguments(
        vec!["/p/lease.json".to_string(), "codex".to_string(), "app-server".to_string()],
        true,
    )
    .unwrap();
    assert_eq!(file, "/p/lease.json");
    assert_eq!(program, "codex");
    assert_eq!(rest, vec!["app-server".to_string()]);
    assert_eq!(GuardArgError::NotContained.message(), "capacity guard must run in a systemd service");
}

#[test]
fn guard_steps_follow_the_child_and_the_permission() {
    let mut fence = Fence::new(lease(), 1000, 0).unwrap();
    assert_eq!(guard_step(&mut fence, ChildState::Succeeded, None, 2000, 1000), (GuardStep::Done, None));
    assert_eq!(guard_step(&mut fence, ChildState::Failed, None, 2000, 1000), (GuardStep::ChildFailed, None));
    assert_eq!(guard_step(&mut fence, ChildState::Running, None, 2000, 1000), (GuardStep::StopChild, None));
    assert_eq!(
        guard_step(&mut fence, ChildState::Running, Some(&lease()), 2000, 1000),
        (GuardStep::KeepWatching, None)
    );
    let mut revoked = lease();
    revoked.revoked = true;
    assert_eq!(
        guard_step(&mut fence, ChildState::Running, Some(&revoked), 3000, 2000),
        (GuardStep::StopChild, Some(PermissionError::Revoked))
    );
    assert!(fence.is_stopped());
}
