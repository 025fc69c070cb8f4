use vibe_kanban::capacity::{unit_name, CapacityExecution, PrepareError};
use vibe_kanban::controller::{
    check_native, open_state, Controller, ControllerError, LoadedState, ManagedGoal, State,
};
use vibe_kanban::goals::{Entry, NativeGoal, Progress};
use vibe_kanban::lease::Lease;

struct Fixture {
    session: u128,
    c: Controller,
    lease_written: bool,
}

fn goal(session: u128) -> ManagedGoal {
    ManagedGoal {
        session_id: session,
        thread_id: "native-thread".into(),
        objective: "Preserve full development objective".into(),
        created_at: 123,
        eligible: true,
        reason: String::new(),
        grant: None,
    }
}

fn copy_goal(g: &ManagedGoal) -> ManagedGoal {
    ManagedGoal {
        session_id: g.session_id,
        thread_id: g.thread_id.clone(),
        objective: g.objective.clone(),
        created_at: g.created_at,
        eligible: g.eligible,
        reason: g.reason.clone(),
        grant: None,
    }
}

fn new_id() -> u128 {
    uuid::Uuid::new_v4().as_u128()
}

fn goal_of(state: &State, session: u128) -> &ManagedGoal {
    state.goals.iter().find(|g| g.session_id == session).unwrap()
}

impl Fixture {
    fn new() -> Self {
        let state = open_state(None, "test-epoch".into()).unwrap();
        let mut c = Controller {
            root: "/tmp/vk-capacity-controller".into(),
            guard: "/usr/local/bin/vk-capacity-guard".into(),
            state,
        };
        let session = new_id();
        c.state = c.enroll(goal(session)).unwrap();
        Fixture {
            session,
            c,
            lease_written: false,
        }
    }

    fn issue(&mut self) -> CapacityExecution {
        let (next, request) = match self.c.issue(
            self.session,
            new_id(),
            "old-week:day".into(),
            30_000,
            90_000,
            1000,
            false,
            false,
        ) {
            Ok(x) => x,
            Err(e) => panic!("{}", e.message()),
        };
        self.c.state = next;
        request
    }

    fn launch(&mut self, request: &CapacityExecution) -> Lease {
        let execution = uuid::Uuid::new_v4();
        self.c.state = self
            .c
            .bind(request, "native-thread", execution.as_u128(), 1000)
            .unwrap();
        self.lease_written = true;
        Lease {
            version: 1,
            id: request.id.clone(),
            allocation_id: request.allocation_id.clone(),
            execution_id: execution.to_string(),
            expires_at_ms: request.expires_at_ms,
            stop_at_ms: request.stop_at_ms,
            sequence: 0,
            revoked: false,
        }
    }
}

#[test]
fn revoke_during_launch_closes_authority_before_lease_creation() {
    let mut f = Fixture::new();
    let request = f.issue();
    f.c.state = f.c.revoke_all("Interactive", Some(600_000)).unwrap();
    assert!(f
        .c
        .bind(&request, "native-thread", new_id(), 1001)
        .is_err());
    assert!(!f.lease_written);
    assert!(f
        .c
        .issue(
            f.session,
            new_id(),
            "old-week:day".into(),
            30_000,
            90_000,
            1001,
            false,
            false
        )
        .is_err());
}

#[test]
fn renewals_are_shared_bounded_and_cannot_reopen_expiry() {
    let mut f = Fixture::new();
    let request = f.issue();
    let file = f.launch(&request);
    let id = uuid::Uuid::parse_str(&request.id).unwrap().as_u128();
    let other = new_id();
    let mut g = copy_goal(goal_of(&f.c.state, f.session));
    g.session_id = other;
    f.c.state = f.c.enroll(g).unwrap();
    assert!(f
        .c
        .issue(
            other,
            new_id(),
            "old-week:day".into(),
            40_000,
            90_000,
            10_000,
            false,
            false
        )
        .is_err());
    assert!(f
        .c
        .renew(f.session, id, "new-week", 0, 40_000, 10_000, &file)
        .is_err());
    assert!(f
        .c
        .renew(f.session, id, "old-week:day", 0, 91_000, 20_000, &file)
        .is_err());
    let (next, lease) = f
        .c
        .renew(f.session, id, "old-week:day", 0, 40_000, 10_000, &file)
        .unwrap();
    f.c.state = next;
    assert_eq!(lease.sequence, 1);
    assert_eq!(lease.stop_at_ms, 90_000);
    assert!(f
        .c
        .renew(f.session, id, "old-week:day", 0, 50_000, 20_000, &lease)
        .is_err());
    assert!(f
        .c
        .renew(f.session, id, "old-week:day", 1, 60_000, 40_000, &lease)
        .is_err());
}

#[test]
fn restart_revokes_running_grants_and_requires_reconciled_fresh_authority() {
    let mut f = Fixture::new();
    let request = f.issue();
    let file = f.launch(&request);
    let revision = f.c.state.revision;
    let keys: Vec<u128> = f.c.state.goals.iter().map(|g| g.session_id).collect();
    let persisted = std::mem::replace(&mut f.c.state, open_state(None, "x".into()).unwrap());
    let state = open_state(
        Some(LoadedState {
            state: persisted,
            keys,
        }),
        "new-epoch".into(),
    )
    .unwrap();
    let c = Controller {
        root: f.c.root.clone(),
        guard: f.c.guard.clone(),
        state,
    };
    let mut c = c;
    let grant_id;
    {
        let grant = goal_of(&c.state, f.session).grant.as_ref().unwrap();
        assert!(grant.stopping);
        grant_id = grant.id;
    }
    assert_eq!(c.stopping_grants(), vec![grant_id]);
    assert!(c.check_revision("test-epoch", revision).is_err());
    let mut revoked = file;
    revoked.revoked = true;
    assert!(c
        .renew(f.session, grant_id, "old-week:day", 0, 40_000, 10_000, &revoked)
        .is_err());
    assert!(c
        .issue(
            f.session,
            new_id(),
            "old-week:day".into(),
            40_000,
            90_000,
            10_000,
            false,
            false
        )
        .is_err());
    c.state = c
        .stopped(f.session, grant_id, "Verified stopped".into())
        .unwrap();
    assert!(c
        .bind(&request, "native-thread", new_id(), 10_000)
        .is_err());
    assert!(c
        .issue(
            f.session,
            grant_id,
            "old-week:day".into(),
            40_000,
            90_000,
            10_000,
            true,
            false
        )
        .is_err());
    let (next, issued) = match c.issue(
        f.session,
        new_id(),
        "old-week:day".into(),
        40_000,
        90_000,
        10_000,
        false,
        false,
    ) {
        Ok(x) => x,
        Err(e) => panic!("{}", e.message()),
    };
    c.state = next;
    assert_eq!(issued.issuer_epoch, "new-epoch");
    assert_eq!(
        goal_of(&c.state, f.session).objective,
        "Preserve full development objective"
    );
}

#[test]
fn cancelled_unbound_grant_id_cannot_be_replayed() {
    let mut f = Fixture::new();
    let request = f.issue();
    let id = uuid::Uuid::parse_str(&request.id).unwrap().as_u128();
    f.c.state = f.c.revoke_all("Cancelled before launch", None).unwrap();
    f.c.state = f
        .c
        .stopped(f.session, id, "No execution was bound".into())
        .unwrap();
    assert!(!f.lease_written);
    assert!(f
        .c
        .issue(
            f.session,
            id,
            "old-week:day".into(),
            30_000,
            90_000,
            1001,
            false,
            false
        )
        .is_err());
    assert!(f
        .c
        .bind(&request, "native-thread", new_id(), 1001)
        .is_err());
}

#[test]
fn second_controller_cannot_take_ownership_and_wrong_thread_cannot_bind() {
    let mut f = Fixture::new();
    let request = f.issue();
    assert!(f
        .c
        .bind(&request, "other-native-thread", new_id(), 1000)
        .is_err());
    f.c.state = f
        .c
        .bind(&request, "native-thread", new_id(), 1000)
        .unwrap();
    assert!(f
        .c
        .bind(&request, "native-thread", new_id(), 1000)
        .is_err());
}

#[test]
fn persisted_request_from_previous_vk_process_cannot_launch() {
    let request = CapacityExecution {
        issuer_epoch: uuid::Uuid::new_v4().to_string(),
        id: uuid::Uuid::new_v4().to_string(),
        allocation_id: "old-week:day".into(),
        expires_at_ms: 1_000_000 + 30_000,
        stop_at_ms: 1_000_000 + 120_000,
        lease_file: "/unused-permission-path".into(),
        guard_binary: "/unused-guard-path".into(),
    };
    let this_process = uuid::Uuid::new_v4().to_string();
    let error = match request.prepare(
        &uuid::Uuid::new_v4().to_string(),
        &this_process,
        true,
        true,
        1_000_000,
    ) {
        Ok(_) => panic!("a request from another process must not launch"),
        Err(e) => e,
    };
    assert_eq!(error, PrepareError::StaleEpoch);
    assert!(error.message().contains("predates this VK process"));
}

#[test]
fn prepare_binds_the_first_permission_to_the_execution() {
    let execution = uuid::Uuid::new_v4().to_string();
    let request = CapacityExecution {
        issuer_epoch: "epoch".into(),
        id: uuid::Uuid::new_v4().to_string(),
        allocation_id: "week:day".into(),
        expires_at_ms: 40_000,
        stop_at_ms: 90_000,
        lease_file: "/state/lease.json".into(),
        guard_binary: "/bin/guard".into(),
    };
    let prepared = match request.prepare(&execution, "epoch", true, true, 10_000) {
        Ok(p) => p,
        Err(e) => panic!("{}", e.message()),
    };
    assert_eq!(prepared.lease.execution_id, execution);
    assert_eq!(prepared.lease.sequence, 0);
    assert_eq!(prepared.file, "/state/lease.json");
    assert!(matches!(
        request.prepare(&execution, "epoch", false, true, 10_000),
        Err(PrepareError::NoContainment)
    ));
    assert!(matches!(
        request.prepare("not-a-uuid", "epoch", true, true, 10_000),
        Err(PrepareError::InvalidExecutionId)
    ));
    assert!(matches!(
        request.prepare(&execution, "epoch", true, false, 10_000),
        Err(PrepareError::RelativePaths)
    ));
    assert!(matches!(
        request.prepare(&execution, "epoch", true, true, 40_000),
        Err(PrepareError::Permission(_))
    ));
}

#[test]
fn unit_names_use_the_simple_uuid_form() {
    let id = uuid::Uuid::parse_str("67e55044-10b1-426f-9247-bb680e5fe0c8").unwrap();
    assert_eq!(
        unit_name(id.as_u128()),
        "vk-capacity-67e5504410b1426f9247bb680e5fe0c8.service"
    );
}

#[test]
fn foreground_priority_blocks_new_grants_until_it_passes() {
    let mut f = Fixture::new();
    f.c.state = f.c.revoke_all("Interactive", Some(5_000)).unwrap();
    let r = f.c.issue(
        f.session,
        new_id(),
        "old-week:day".into(),
        30_000,
        90_000,
        4_000,
        false,
        false,
    );
    assert!(matches!(r, Err(ControllerError::PriorityOrUnreconciled)));
    assert!(f
        .c
        .issue(
            f.session,
            new_id(),
            "old-week:day".into(),
            30_000,
            90_000,
            5_000,
            false,
            false
        )
        .is_ok());
}

#[test]
fn enrollment_rejects_blank_objectives_and_grants() {
    let f = Fixture::new();
    let mut g = goal(new_id());
    g.objective = "   ".into();
    assert!(matches!(
        f.c.enroll(g),
        Err(ControllerError::InvalidEnrollment)
    ));
    let mut g = goal(new_id());
    g.eligible = false;
    let next = f.c.enroll(g).unwrap();
    assert_eq!(next.revision, f.c.state.revision + 1);
    assert_eq!(next.goals.len(), 2);
}

#[test]
fn scheduled_capacity_never_overrides_a_pause_or_a_budget_limit() {
    let g = goal(1);
    let mut progress = Progress::new(g.objective.clone(), 123);
    progress.requirements.push(Entry {
        key: "r".into(),
        value: "Ship".into(),
    });
    let native = |status: &str| NativeGoal {
        thread_id: "native-thread".into(),
        objective: "Preserve full development objective".into(),
        status: status.into(),
        created_at: 123,
    };
    let mut waiting = Progress::new(g.objective.clone(), 123);
    waiting.pause_reason = Some("Operator decision required".into());
    assert_eq!(
        check_native(&g, &native("paused"), &waiting),
        Err(ControllerError::UserInvolvementRequired)
    );
    assert_eq!(
        check_native(&g, &native("budget_limited"), &progress),
        Err(ControllerError::UserInvolvementRequired)
    );
    assert_eq!(check_native(&g, &native("paused"), &progress), Ok(()));
    let mut moved = native("active");
    moved.objective = "Something else".into();
    assert_eq!(
        check_native(&g, &moved, &progress),
        Err(ControllerError::NativeGoalChanged)
    );
}

#[test]
fn renewal_targets_lease_owners_and_interactive_launches() {
    let mut f = Fixture::new();
    assert_eq!(f.c.renew_target(f.session), Err(ControllerError::NoCurrentGrant));
    assert_eq!(f.c.renew_target(new_id()), Err(ControllerError::UnknownGoal));
    let request = f.issue();
    let id = uuid::Uuid::parse_str(&request.id).unwrap().as_u128();
    assert_eq!(f.c.renew_target(f.session), Ok(id));
    match f.c.goal_for_lease(&request.id) {
        Ok(g) => assert_eq!(g.session_id, f.session),
        Err(e) => panic!("{}", e.message()),
    }
    assert!(matches!(f.c.goal_for_lease("not-a-lease"), Err(ControllerError::AuthorityChanged)));
    let (next, verdict) = match f.c.before_interactive_launch(f.session, 1000) {
        Ok(x) => x,
        Err(e) => panic!("{}", e.message()),
    };
    assert_eq!(verdict, Err(ControllerError::ManualContinuationBlocked));
    assert_eq!(next.foreground_until_ms, 601_000);
    assert!(goal_of(&next, f.session).grant.as_ref().map_or(true, |g| g.stopping));
    let (_, other) = match f.c.before_interactive_launch(new_id(), 1000) {
        Ok(x) => x,
        Err(e) => panic!("{}", e.message()),
    };
    assert_eq!(other, Ok(()));
}
