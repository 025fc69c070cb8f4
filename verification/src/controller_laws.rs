//! Properties every controller transition keeps, stated over the transition
//! specifications the controller's operations are proved against.
use vstd::prelude::*;
use crate::capacity::CapacityExecutionView;
use crate::controller::{
    any_grant, bind_spec, enroll_spec, first_holder, grant_ids, holds_grant, issue_spec, open_spec,
    renew_spec, renewed_lease, revoke_all_spec, revoke_goal, stopped_spec, ControllerError,
    GoalView, LoadedView, StateView,
};
use crate::ids::uuid_parse;
use crate::lease::{lease_validity, LeaseView, MAX_LEASE_MS};

verus! {

/// One request to the controller.
pub enum Step {
    Enroll { goal: GoalView },
    Issue {
        session: u128,
        id: u128,
        allocation: Seq<char>,
        expires: u64,
        stop: u64,
        now: u64,
        lease_present: bool,
        started_present: bool,
    },
    Bind { request: CapacityExecutionView, thread: Seq<char>, execution: u128, now: u64 },
    Renew {
        session: u128,
        id: u128,
        allocation: Seq<char>,
        sequence: u64,
        expires: u64,
        now: u64,
        file: LeaseView,
    },
    RevokeAll { reason: Seq<char>, foreground_until: Option<u64> },
    Stopped { session: u128, id: u128, reason: Seq<char> },
}

/// Outcome of one request.
pub open spec fn step_spec(s: StateView, root: Seq<char>, guard: Seq<char>, step: Step) -> Result<
    StateView,
    ControllerError,
> {
    match step {
        Step::Enroll { goal } => enroll_spec(s, goal),
        Step::Issue { session, id, allocation, expires, stop, now, lease_present, started_present } =>
            issue_spec(s, session, id, allocation, expires, stop, now, lease_present, started_present),
        Step::Bind { request, thread, execution, now } => bind_spec(
            s,
            root,
            guard,
            request,
            thread,
            execution,
            now,
        ),
        Step::Renew { session, id, allocation, sequence, expires, now, file } => renew_spec(
            s,
            session,
            id,
            allocation,
            sequence,
            expires,
            now,
            file,
        ),
        Step::RevokeAll { reason, foreground_until } => revoke_all_spec(s, reason, foreground_until),
        Step::Stopped { session, id, reason } => stopped_spec(s, session, id, reason),
    }
}

/// The state after a run of requests; a refused request leaves it unchanged.
pub open spec fn run_steps(s: StateView, root: Seq<char>, guard: Seq<char>, steps: Seq<Step>) -> StateView
    decreases steps.len(),
{
    if steps.len() == 0 {
        s
    } else {
        let next = match step_spec(s, root, guard, steps[0]) {
            Ok(t) => t,
            Err(_) => s,
        };
        run_steps(next, root, guard, steps.drop_first())
    }
}

/// No two goals hold a grant at the same time.
pub open spec fn at_most_one_grant(goals: Map<u128, GoalView>) -> bool {
    forall|a: u128, b: u128|
        goals.contains_key(a) && goals.contains_key(b) && (#[trigger] goals[a]).grant is Some && (
        #[trigger] goals[b]).grant is Some ==> a == b
}

/// Every accepted request advances the revision by exactly one and keeps the
/// epoch and the format version; ids once used stay used.
pub proof fn lemma_step_advances_revision(s: StateView, root: Seq<char>, guard: Seq<char>, step: Step)
    requires
        step_spec(s, root, guard, step) is Ok,
    ensures
        ({
            let t = step_spec(s, root, guard, step)->Ok_0;
            &&& t.revision == s.revision + 1
            &&& t.epoch == s.epoch
            &&& t.version == s.version
            &&& s.issued_ids.subset_of(t.issued_ids)
        }),
{
}

/// At most one goal holds a grant: issuing needs every goal to be without
/// one, and no other request creates grants.
pub proof fn lemma_step_keeps_single_grant(
    s: StateView,
    root: Seq<char>,
    guard: Seq<char>,
    step: Step,
)
    requires
        at_most_one_grant(s.goals),
        step_spec(s, root, guard, step) is Ok,
    ensures
        at_most_one_grant(step_spec(s, root, guard, step)->Ok_0.goals),
{
    let t = step_spec(s, root, guard, step)->Ok_0;
    match step {
        Step::Issue { session, .. } => {
            assert(!any_grant(s.goals));
            assert forall|a: u128, b: u128|
                t.goals.contains_key(a) && t.goals.contains_key(b) && (#[trigger] t.goals[a]).grant is Some
                    && (#[trigger] t.goals[b]).grant is Some implies a == b by {
                if a != session {
                    assert(s.goals.contains_key(a) && s.goals[a].grant is Some);
                }
                if b != session {
                    assert(s.goals.contains_key(b) && s.goals[b].grant is Some);
                }
            }
        },
        Step::Enroll { goal } => {
            assert forall|a: u128, b: u128|
                t.goals.contains_key(a) && t.goals.contains_key(b) && (#[trigger] t.goals[a]).grant is Some
                    && (#[trigger] t.goals[b]).grant is Some implies a == b by {
                assert(a != goal.session_id && b != goal.session_id);
                assert(s.goals[a].grant is Some && s.goals[b].grant is Some);
            }
        },
        Step::Bind { request, thread, execution, now } => {
            let k = first_holder(s.goals, uuid_parse(request.id)->0)->0;
            assert forall|a: u128, b: u128|
                t.goals.contains_key(a) && t.goals.contains_key(b) && (#[trigger] t.goals[a]).grant is Some
                    && (#[trigger] t.goals[b]).grant is Some implies a == b by {
                assert(s.goals[a].grant is Some);
                assert(s.goals[b].grant is Some);
            }
        },
        Step::Renew { session, .. } => {
            assert forall|a: u128, b: u128|
                t.goals.contains_key(a) && t.goals.contains_key(b) && (#[trigger] t.goals[a]).grant is Some
                    && (#[trigger] t.goals[b]).grant is Some implies a == b by {
                assert(s.goals[a].grant is Some);
                assert(s.goals[b].grant is Some);
            }
        },
        Step::RevokeAll { reason, .. } => {
            assert forall|a: u128, b: u128|
                t.goals.contains_key(a) && t.goals.contains_key(b) && (#[trigger] t.goals[a]).grant is Some
                    && (#[trigger] t.goals[b]).grant is Some implies a == b by {
                assert(t.goals[a] == revoke_goal(s.goals[a], reason));
                assert(t.goals[b] == revoke_goal(s.goals[b], reason));
                assert(s.goals[a].grant is Some);
                assert(s.goals[b].grant is Some);
            }
        },
        Step::Stopped { session, .. } => {
            assert forall|a: u128, b: u128|
                t.goals.contains_key(a) && t.goals.contains_key(b) && (#[trigger] t.goals[a]).grant is Some
                    && (#[trigger] t.goals[b]).grant is Some implies a == b by {
                assert(s.goals[a].grant is Some);
                assert(s.goals[b].grant is Some);
            }
        },
    }
}

/// A grant id that was ever issued stays used through any later run of
/// requests, so it can never be issued again: cancelled or stopped
/// permission cannot be replayed.
pub proof fn lemma_used_id_never_reissued(
    s: StateView,
    root: Seq<char>,
    guard: Seq<char>,
    steps: Seq<Step>,
    session: u128,
    id: u128,
    allocation: Seq<char>,
    expires: u64,
    stop: u64,
    now: u64,
    lease_present: bool,
    started_present: bool,
)
    requires
        s.issued_ids.contains(id),
    ensures
        run_steps(s, root, guard, steps).issued_ids.contains(id),
        issue_spec(
            run_steps(s, root, guard, steps),
            session,
            id,
            allocation,
            expires,
            stop,
            now,
            lease_present,
            started_present,
        ) is Err,
    decreases steps.len(),
{
    if steps.len() > 0 {
        let next = match step_spec(s, root, guard, steps[0]) {
            Ok(t) => t,
            Err(_) => s,
        };
        if step_spec(s, root, guard, steps[0]) is Ok {
            lemma_step_advances_revision(s, root, guard, steps[0]);
        }
        lemma_used_id_never_reissued(
            next,
            root,
            guard,
            steps.drop_first(),
            session,
            id,
            allocation,
            expires,
            stop,
            now,
            lease_present,
            started_present,
        );
    }
}

/// An issued grant's id is recorded as used, and the grant starts unbound.
pub proof fn lemma_issue_records_id(
    s: StateView,
    session: u128,
    id: u128,
    allocation: Seq<char>,
    expires: u64,
    stop: u64,
    now: u64,
    lease_present: bool,
    started_present: bool,
)
    requires
        issue_spec(s, session, id, allocation, expires, stop, now, lease_present, started_present) is Ok,
    ensures
        ({
            let t = issue_spec(
                s,
                session,
                id,
                allocation,
                expires,
                stop,
                now,
                lease_present,
                started_present,
            )->Ok_0;
            &&& !s.issued_ids.contains(id)
            &&& t.issued_ids.contains(id)
            &&& !any_grant(s.goals)
            &&& s.goals.contains_key(session) && s.goals[session].eligible
            &&& t.goals[session].grant matches Some(g) && g.id == id && g.execution_id is None
                && !g.stopping && g.expires_at_ms <= g.stop_at_ms && g.expires_at_ms - now
                <= MAX_LEASE_MS
        }),
{
}

/// While the machine is reserved for interactive work, no grant is issued,
/// bound or renewed.
pub proof fn lemma_foreground_has_priority(
    s: StateView,
    root: Seq<char>,
    guard: Seq<char>,
    step: Step,
)
    requires
        match step {
            Step::Issue { now, .. } => s.foreground_until_ms > now,
            Step::Bind { now, .. } => s.foreground_until_ms > now,
            Step::Renew { now, .. } => s.foreground_until_ms > now,
            _ => false,
        },
    ensures
        step_spec(s, root, guard, step) is Err,
{
}

/// What the first holder of a grant is.
proof fn lemma_first_holder(goals: Map<u128, GoalView>, id: u128)
    ensures
        first_holder(goals, id) matches Some(k) ==> holds_grant(goals, k, id) && forall|k2: u128|
            #[trigger] holds_grant(goals, k2, id) ==> k <= k2,
        first_holder(goals, id) is None ==> forall|k2: u128| !#[trigger] holds_grant(goals, k2, id),
{
    if exists|k: u128| holds_grant(goals, k, id) {
        let w = choose|k: u128| holds_grant(goals, k, id);
        // The least holder exists: holders form a set of integers with a member.
        lemma_least_holder(goals, id, w);
    }
}

proof fn lemma_least_holder(goals: Map<u128, GoalView>, id: u128, w: u128)
    requires
        holds_grant(goals, w, id),
    ensures
        exists|k: u128|
            holds_grant(goals, k, id) && forall|k2: u128| #[trigger] holds_grant(goals, k2, id) ==> k <= k2,
    decreases w,
{
    if exists|k2: u128| holds_grant(goals, k2, id) && k2 < w {
        let k2 = choose|k2: u128| holds_grant(goals, k2, id) && k2 < w;
        lemma_least_holder(goals, id, k2);
    } else {
        assert forall|k2: u128| #[trigger] holds_grant(goals, k2, id) implies w <= k2 by {
            if k2 < w {
                assert(holds_grant(goals, k2, id) && k2 < w);
            }
        }
    }
}

/// After revoking all authority every grant is stopping and the interactive
/// reservation never shrinks.
pub proof fn lemma_revoke_all_stops_every_grant(
    s: StateView,
    reason: Seq<char>,
    foreground_until: Option<u64>,
)
    requires
        revoke_all_spec(s, reason, foreground_until) is Ok,
    ensures
        ({
            let t = revoke_all_spec(s, reason, foreground_until)->Ok_0;
            &&& t.foreground_until_ms >= s.foreground_until_ms
            &&& foreground_until matches Some(u) ==> t.foreground_until_ms >= u
            &&& forall|k: u128| #[trigger] t.goals.contains_key(k) && t.goals[k].grant is Some
                ==> t.goals[k].grant->0.stopping
        }),
{
    let t = revoke_all_spec(s, reason, foreground_until)->Ok_0;
    assert forall|k: u128| #[trigger] t.goals.contains_key(k) && t.goals[k].grant is Some implies t.goals[k].grant->0.stopping by {
        assert(t.goals[k] == revoke_goal(s.goals[k], reason));
    }
}

/// A grant that is stopping can never be bound to a launch.
pub proof fn lemma_stopping_grant_cannot_bind(
    t: StateView,
    root: Seq<char>,
    guard: Seq<char>,
    request: CapacityExecutionView,
    thread: Seq<char>,
    execution: u128,
    now: u64,
)
    requires
        forall|k: u128| #[trigger] t.goals.contains_key(k) && t.goals[k].grant is Some
            ==> t.goals[k].grant->0.stopping,
    ensures
        bind_spec(t, root, guard, request, thread, execution, now) is Err,
{
    match uuid_parse(request.id) {
        None => {},
        Some(id) => {
            lemma_first_holder(t.goals, id);
            if first_holder(t.goals, id) is Some {
                let k = first_holder(t.goals, id)->0;
                assert(t.goals.contains_key(k) && t.goals[k].grant is Some);
            }
        },
    }
}

/// A grant that is stopping can never be renewed.
pub proof fn lemma_stopping_grant_cannot_renew(
    t: StateView,
    session: u128,
    id: u128,
    allocation: Seq<char>,
    sequence: u64,
    expires: u64,
    now: u64,
    file: LeaseView,
)
    requires
        forall|k: u128| #[trigger] t.goals.contains_key(k) && t.goals[k].grant is Some
            ==> t.goals[k].grant->0.stopping,
    ensures
        renew_spec(t, session, id, allocation, sequence, expires, now, file) is Err,
{
    if t.goals.contains_key(session) && t.goals[session].grant is Some {
        assert(t.goals[session].grant->0.stopping);
    }
}

/// A restarted controller adopts the new epoch, revokes every grant it
/// finds and remembers their ids as used; none of them can then be bound or
/// renewed until reconciled.
pub proof fn lemma_restart_revokes(loaded: LoadedView, epoch: Seq<char>)
    requires
        open_spec(Some(loaded), epoch) is Ok,
    ensures
        ({
            let t = open_spec(Some(loaded), epoch)->Ok_0;
            &&& t.epoch == epoch
            &&& forall|k: u128| #[trigger] t.goals.contains_key(k) && t.goals[k].grant is Some
                ==> t.goals[k].grant->0.stopping && t.issued_ids.contains(t.goals[k].grant->0.id)
        }),
{
    let t = open_spec(Some(loaded), epoch)->Ok_0;
    let g = crate::controller::goal_map(loaded.goals);
    let reason = crate::controller::restart_reason();
    assert forall|k: u128| #[trigger] t.goals.contains_key(k) && t.goals[k].grant is Some implies t.goals[k].grant->0.stopping
        && t.issued_ids.contains(t.goals[k].grant->0.id) by {
        assert(t.goals[k] == revoke_goal(g[k], reason));
        assert(holds_grant(g, k, g[k].grant->0.id));
        assert(grant_ids(g).contains(g[k].grant->0.id));
    }
}

/// A renewal keeps the grant's identity, allocation and hard deadline,
/// strictly extends its expiry by a bounded amount and advances its sequence.
pub proof fn lemma_renewal_is_bounded(
    s: StateView,
    session: u128,
    id: u128,
    allocation: Seq<char>,
    sequence: u64,
    expires: u64,
    now: u64,
    file: LeaseView,
)
    requires
        renew_spec(s, session, id, allocation, sequence, expires, now, file) is Ok,
    ensures
        ({
            let t = renew_spec(s, session, id, allocation, sequence, expires, now, file)->Ok_0;
            let g0 = s.goals[session].grant->0;
            let g1 = t.goals[session].grant->0;
            &&& t.goals[session].grant is Some
            &&& g1.id == g0.id && g1.id == id
            &&& g1.allocation_id == g0.allocation_id
            &&& g1.stop_at_ms == g0.stop_at_ms
            &&& g1.execution_id == g0.execution_id
            &&& g1.sequence == g0.sequence + 1
            &&& g0.expires_at_ms < g1.expires_at_ms
            &&& g1.expires_at_ms <= g1.stop_at_ms
            &&& g1.expires_at_ms - now <= MAX_LEASE_MS
            &&& lease_validity(renewed_lease(file, sequence, expires), now) is Ok
        }),
{
}

/// A launch request binds at most once: after binding, the same request is
/// refused.
pub proof fn lemma_bind_is_once(
    s: StateView,
    root: Seq<char>,
    guard: Seq<char>,
    request: CapacityExecutionView,
    thread: Seq<char>,
    execution: u128,
    execution2: u128,
    now: u64,
    now2: u64,
)
    requires
        bind_spec(s, root, guard, request, thread, execution, now) is Ok,
    ensures
        bind_spec(
            bind_spec(s, root, guard, request, thread, execution, now)->Ok_0,
            root,
            guard,
            request,
            thread,
            execution2,
            now2,
        ) is Err,
{
    let id = uuid_parse(request.id)->0;
    lemma_first_holder(s.goals, id);
    let k = first_holder(s.goals, id)->0;
    let t = bind_spec(s, root, guard, request, thread, execution, now)->Ok_0;
    assert(holds_grant(t.goals, k, id));
    lemma_first_holder(t.goals, id);
    let k2 = first_holder(t.goals, id)->0;
    if k2 != k {
        assert(holds_grant(s.goals, k2, id));
        assert(k <= k2);
        assert(k2 <= k);
    }
    assert(t.goals[k].grant->0.execution_id is Some);
}

} // verus!
