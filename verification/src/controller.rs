//! Durable authority for scheduled sessions, as a state machine. Quota
//! decisions remain with the scheduler; every transition here is a pure
//! function from the current state (and what the caller read from disk) to
//! the next state, which the caller persists before adopting it.
use vstd::prelude::*;
use crate::ids::{format_uuid, parse_uuid, uuid_parse, uuid_text};
use crate::lease::{byte_len, copy_lease, lease_validity, Lease, LeaseView, PermissionError};
use crate::text::{is_blank, trim, str_eq};
use crate::capacity::{CapacityExecution, CapacityExecutionView};
use crate::goals::{all_complete_spec, NativeGoal, Progress, ProgressView};

verus! {

/// Most managed goals the controller keeps.
pub const MAX_GOALS: usize = 100;

/// Permission currently granted to one managed goal.
pub struct Grant {
    pub id: u128,
    pub allocation_id: String,
    pub epoch: String,
    pub expires_at_ms: u64,
    pub stop_at_ms: u64,
    pub sequence: u64,
    pub execution_id: Option<u128>,
    pub stopping: bool,
}

pub struct GrantView {
    pub id: u128,
    pub allocation_id: Seq<char>,
    pub epoch: Seq<char>,
    pub expires_at_ms: u64,
    pub stop_at_ms: u64,
    pub sequence: u64,
    pub execution_id: Option<u128>,
    pub stopping: bool,
}

impl View for Grant {
    type V = GrantView;

    open spec fn view(&self) -> GrantView {
        GrantView {
            id: self.id,
            allocation_id: self.allocation_id@,
            epoch: self.epoch@,
            expires_at_ms: self.expires_at_ms,
            stop_at_ms: self.stop_at_ms,
            sequence: self.sequence,
            execution_id: self.execution_id,
            stopping: self.stopping,
        }
    }
}

/// A native goal selected for unattended continuation.
pub struct ManagedGoal {
    pub session_id: u128,
    pub thread_id: String,
    pub objective: String,
    pub created_at: i64,
    pub eligible: bool,
    pub reason: String,
    pub grant: Option<Grant>,
}

pub struct GoalView {
    pub session_id: u128,
    pub thread_id: Seq<char>,
    pub objective: Seq<char>,
    pub created_at: i64,
    pub eligible: bool,
    pub reason: Seq<char>,
    pub grant: Option<GrantView>,
}

pub open spec fn grant_view(g: Option<Grant>) -> Option<GrantView> {
    match g {
        Some(x) => Some(x@),
        None => None,
    }
}

impl View for ManagedGoal {
    type V = GoalView;

    open spec fn view(&self) -> GoalView {
        GoalView {
            session_id: self.session_id,
            thread_id: self.thread_id@,
            objective: self.objective@,
            created_at: self.created_at,
            eligible: self.eligible,
            reason: self.reason@,
            grant: grant_view(self.grant),
        }
    }
}

/// Persisted controller state. `goals` is kept ordered by session id, so it
/// behaves as the map from session to goal that is persisted.
pub struct State {
    pub version: u32,
    pub epoch: String,
    pub revision: u64,
    pub foreground_until_ms: u64,
    pub goals: Vec<ManagedGoal>,
    pub issued_ids: Vec<u128>,
}

pub struct StateView {
    pub version: u32,
    pub epoch: Seq<char>,
    pub revision: u64,
    pub foreground_until_ms: u64,
    pub goals: Map<u128, GoalView>,
    pub issued_ids: Set<u128>,
}

/// Views of a sequence of goals.
pub open spec fn goal_views(goals: Seq<ManagedGoal>) -> Seq<GoalView> {
    goals.map_values(|g: ManagedGoal| g@)
}

/// Session ids strictly increase along the sequence.
pub open spec fn sorted_goals(gs: Seq<GoalView>) -> bool {
    forall|i: int, j: int| 0 <= i < j < gs.len() ==> gs[i].session_id < gs[j].session_id
}

/// Some goal in the sequence belongs to session `k`.
pub open spec fn has_session(gs: Seq<GoalView>, k: u128) -> bool {
    exists|i: int| 0 <= i < gs.len() && gs[i].session_id == k
}

/// The map from session id to goal that an ordered sequence stands for.
pub open spec fn goal_map(gs: Seq<GoalView>) -> Map<u128, GoalView> {
    Map::new(
        |k: u128| has_session(gs, k),
        |k: u128| gs[choose|i: int| 0 <= i < gs.len() && gs[i].session_id == k],
    )
}

/// The set a list of issued ids stands for.
pub open spec fn id_set(ids: Seq<u128>) -> Set<u128> {
    Set::new(|x: u128| ids.contains(x))
}

impl View for State {
    type V = StateView;

    open spec fn view(&self) -> StateView {
        StateView {
            version: self.version,
            epoch: self.epoch@,
            revision: self.revision,
            foreground_until_ms: self.foreground_until_ms,
            goals: goal_map(goal_views(self.goals@)),
            issued_ids: id_set(self.issued_ids@),
        }
    }
}

impl State {
    /// The goals are ordered by session id without repetition.
    pub open spec fn wf(&self) -> bool {
        sorted_goals(goal_views(self.goals@))
    }
}

proof fn lemma_goal_at(gs: Seq<GoalView>, i: int)
    requires
        sorted_goals(gs),
        0 <= i < gs.len(),
    ensures
        goal_map(gs).contains_key(gs[i].session_id),
        goal_map(gs)[gs[i].session_id] == gs[i],
{
    let k = gs[i].session_id;
    assert(has_session(gs, k));
    let j = choose|j: int| 0 <= j < gs.len() && gs[j].session_id == k;
    if j < i {
        assert(gs[j].session_id < gs[i].session_id);
    } else if j > i {
        assert(gs[i].session_id < gs[j].session_id);
    }
}

proof fn lemma_goal_update(gs: Seq<GoalView>, i: int, g: GoalView)
    requires
        sorted_goals(gs),
        0 <= i < gs.len(),
        g.session_id == gs[i].session_id,
    ensures
        sorted_goals(gs.update(i, g)),
        goal_map(gs.update(i, g)) =~= goal_map(gs).insert(g.session_id, g),
{
    let hs = gs.update(i, g);
    assert(sorted_goals(hs)) by {
        assert forall|a: int, b: int| 0 <= a < b < hs.len() implies hs[a].session_id
            < hs[b].session_id by {
            assert(hs[a].session_id == gs[a].session_id);
            assert(hs[b].session_id == gs[b].session_id);
        }
    }
    assert forall|k: u128| #[trigger] has_session(hs, k) == has_session(gs, k) by {
        if has_session(hs, k) {
            let j = choose|j: int| 0 <= j < hs.len() && hs[j].session_id == k;
            assert(gs[j].session_id == k);
        }
        if has_session(gs, k) {
            let j = choose|j: int| 0 <= j < gs.len() && gs[j].session_id == k;
            assert(hs[j].session_id == k);
        }
    }
    assert forall|k: u128| #[trigger] goal_map(hs).contains_key(k) implies goal_map(hs)[k] == goal_map(
        gs,
    ).insert(g.session_id, g)[k] by {
        let j = choose|j: int| 0 <= j < hs.len() && hs[j].session_id == k;
        lemma_goal_at(hs, j);
        if j != i {
            lemma_goal_at(gs, j);
        }
    }
}

proof fn lemma_goal_insert(gs: Seq<GoalView>, p: int, g: GoalView)
    requires
        sorted_goals(gs),
        0 <= p <= gs.len(),
        forall|j: int| 0 <= j < p ==> gs[j].session_id < g.session_id,
        forall|j: int| p <= j < gs.len() ==> gs[j].session_id > g.session_id,
    ensures
        sorted_goals(gs.insert(p, g)),
        goal_map(gs.insert(p, g)) =~= goal_map(gs).insert(g.session_id, g),
        !goal_map(gs).contains_key(g.session_id),
{
    let hs = gs.insert(p, g);
    assert(!has_session(gs, g.session_id));
    assert(sorted_goals(hs)) by {
        assert forall|a: int, b: int| 0 <= a < b < hs.len() implies hs[a].session_id
            < hs[b].session_id by {
            if a < p && b < p {
            } else if a < p && b == p {
            } else if a < p {
                assert(hs[b] == gs[b - 1]);
            } else if a == p {
                assert(hs[b] == gs[b - 1]);
            } else {
                assert(hs[a] == gs[a - 1]);
                assert(hs[b] == gs[b - 1]);
            }
        }
    }
    assert forall|k: u128| #[trigger] has_session(hs, k) == (has_session(gs, k) || k
        == g.session_id) by {
        if has_session(hs, k) {
            let j = choose|j: int| 0 <= j < hs.len() && hs[j].session_id == k;
            if j < p {
                assert(gs[j].session_id == k);
            } else if j > p {
                assert(gs[j - 1].session_id == k);
            }
        }
        if has_session(gs, k) {
            let j = choose|j: int| 0 <= j < gs.len() && gs[j].session_id == k;
            if j < p {
                assert(hs[j].session_id == k);
            } else {
                assert(hs[j + 1].session_id == k);
            }
        }
        if k == g.session_id {
            assert(hs[p].session_id == k);
        }
    }
    assert forall|k: u128| #[trigger] goal_map(hs).contains_key(k) implies goal_map(hs)[k] == goal_map(
        gs,
    ).insert(g.session_id, g)[k] by {
        let j = choose|j: int| 0 <= j < hs.len() && hs[j].session_id == k;
        lemma_goal_at(hs, j);
        if j < p {
            lemma_goal_at(gs, j);
        } else if j > p {
            lemma_goal_at(gs, j - 1);
        }
    }
}

proof fn lemma_goal_count(gs: Seq<GoalView>)
    requires
        sorted_goals(gs),
    ensures
        goal_map(gs).dom().finite(),
        goal_map(gs).dom().len() == gs.len(),
{
    let ks = gs.map_values(|g: GoalView| g.session_id);
    assert(ks.no_duplicates()) by {
        assert forall|i: int, j: int| 0 <= i < ks.len() && 0 <= j < ks.len() && i != j implies ks[i]
            != ks[j] by {
            if i < j {
                assert(gs[i].session_id < gs[j].session_id);
            } else {
                assert(gs[j].session_id < gs[i].session_id);
            }
        }
    }
    assert(goal_map(gs).dom() =~= ks.to_set()) by {
        assert forall|k: u128| goal_map(gs).dom().contains(k) == ks.to_set().contains(k) by {
            if has_session(gs, k) {
                let j = choose|j: int| 0 <= j < gs.len() && gs[j].session_id == k;
                assert(ks[j] == k);
            }
            if ks.to_set().contains(k) {
                assert(ks.contains(k));
                let j = choose|j: int| 0 <= j < ks.len() && ks[j] == k;
                assert(gs[j].session_id == k);
            }
        }
    }
    ks.unique_seq_to_set();
    vstd::seq_lib::seq_to_set_is_finite(ks);
}


/// Why the controller refused a transition.
#[derive(Clone, Copy, Debug, PartialEq, Eq)]
pub enum ControllerError {
    RevisionExhausted,
    StaleState,
    UnsupportedState,
    InvalidSessionIdentity,
    InvalidEnrollment,
    ReconcileBeforeChange,
    TooManyGoals,
    PriorityOrUnreconciled,
    PermissionIdUsed,
    NotEligible,
    Permission(PermissionError),
    TooCloseToExpiry,
    InvalidGrantId,
    NoDurableGrant,
    OtherNativeGoal,
    LaunchRevoked,
    UnknownGoal,
    NoCurrentGrant,
    PermissionFileChanged,
    RenewalRejected,
    SequenceExhausted,
    RenewalMustExtend,
    GrantChanged,
    ManualContinuationBlocked,
    AuthorityChanged,
    UserInvolvementRequired,
    NativeGoalChanged,
}

impl ControllerError {
    /// The message reported to the scheduler.
    pub fn message(&self) -> (r: &'static str)
        ensures
            r@ == match *self {
                ControllerError::RevisionExhausted => "Revision exhausted"@,
                ControllerError::StaleState => "Stale capacity controller state; read and reconcile again"@,
                ControllerError::UnsupportedState => "Unsupported capacity state"@,
                ControllerError::InvalidSessionIdentity => "Invalid managed session identity"@,
                ControllerError::InvalidEnrollment => "Invalid goal enrollment"@,
                ControllerError::ReconcileBeforeChange => "Reconcile current execution before changing eligibility"@,
                ControllerError::TooManyGoals => "Too many eligible goals"@,
                ControllerError::PriorityOrUnreconciled => "Interactive priority or unreconciled background execution"@,
                ControllerError::PermissionIdUsed => "Permission ID already used"@,
                ControllerError::NotEligible => "Goal is not eligible"@,
                ControllerError::Permission(e) => crate::lease::permission_message(e),
                ControllerError::TooCloseToExpiry => "Permission is too close to expiry"@,
                ControllerError::InvalidGrantId => "invalid grant id"@,
                ControllerError::NoDurableGrant => "No durable grant for launch"@,
                ControllerError::OtherNativeGoal => "Launch refers to another native goal"@,
                ControllerError::LaunchRevoked => "Launch permission was revoked, changed, expired or already bound"@,
                ControllerError::UnknownGoal => "Unknown goal"@,
                ControllerError::NoCurrentGrant => "No current grant"@,
                ControllerError::PermissionFileChanged => "Permission file identity or deadline changed"@,
                ControllerError::RenewalRejected => "Renewal rejected; reconcile stopped or changed permission"@,
                ControllerError::SequenceExhausted => "Sequence exhausted"@,
                ControllerError::RenewalMustExtend => "Renewal must extend current expiry"@,
                ControllerError::GrantChanged => "Grant changed during stop reconciliation"@,
                ControllerError::ManualContinuationBlocked => "Take this goal out of unused-capacity mode before manual continuation"@,
                ControllerError::AuthorityChanged => "Scheduled goal authority changed"@,
                ControllerError::UserInvolvementRequired => "Goal requires user involvement before scheduled continuation"@,
                ControllerError::NativeGoalChanged => "Native goal changed; select its new objective explicitly"@,
            },
    {
        match self {
            ControllerError::RevisionExhausted => "Revision exhausted",
            ControllerError::StaleState => "Stale capacity controller state; read and reconcile again",
            ControllerError::UnsupportedState => "Unsupported capacity state",
            ControllerError::InvalidSessionIdentity => "Invalid managed session identity",
            ControllerError::InvalidEnrollment => "Invalid goal enrollment",
            ControllerError::ReconcileBeforeChange => "Reconcile current execution before changing eligibility",
            ControllerError::TooManyGoals => "Too many eligible goals",
            ControllerError::PriorityOrUnreconciled => "Interactive priority or unreconciled background execution",
            ControllerError::PermissionIdUsed => "Permission ID already used",
            ControllerError::NotEligible => "Goal is not eligible",
            ControllerError::Permission(e) => e.message(),
            ControllerError::TooCloseToExpiry => "Permission is too close to expiry",
            ControllerError::InvalidGrantId => "invalid grant id",
            ControllerError::NoDurableGrant => "No durable grant for launch",
            ControllerError::OtherNativeGoal => "Launch refers to another native goal",
            ControllerError::LaunchRevoked => "Launch permission was revoked, changed, expired or already bound",
            ControllerError::UnknownGoal => "Unknown goal",
            ControllerError::NoCurrentGrant => "No current grant",
            ControllerError::PermissionFileChanged => "Permission file identity or deadline changed",
            ControllerError::RenewalRejected => "Renewal rejected; reconcile stopped or changed permission",
            ControllerError::SequenceExhausted => "Sequence exhausted",
            ControllerError::RenewalMustExtend => "Renewal must extend current expiry",
            ControllerError::GrantChanged => "Grant changed during stop reconciliation",
            ControllerError::ManualContinuationBlocked => "Take this goal out of unused-capacity mode before manual continuation",
            ControllerError::AuthorityChanged => "Scheduled goal authority changed",
            ControllerError::UserInvolvementRequired => "Goal requires user involvement before scheduled continuation",
            ControllerError::NativeGoalChanged => "Native goal changed; select its new objective explicitly",
        }
    }
}

pub fn copy_grant(g: &Grant) -> (r: Grant)
    ensures
        r@ == g@,
{
    Grant {
        id: g.id,
        allocation_id: g.allocation_id.clone(),
        epoch: g.epoch.clone(),
        expires_at_ms: g.expires_at_ms,
        stop_at_ms: g.stop_at_ms,
        sequence: g.sequence,
        execution_id: g.execution_id,
        stopping: g.stopping,
    }
}

pub fn copy_goal(g: &ManagedGoal) -> (r: ManagedGoal)
    ensures
        r@ == g@,
{
    ManagedGoal {
        session_id: g.session_id,
        thread_id: g.thread_id.clone(),
        objective: g.objective.clone(),
        created_at: g.created_at,
        eligible: g.eligible,
        reason: g.reason.clone(),
        grant: match &g.grant {
            Some(x) => Some(copy_grant(x)),
            None => None,
        },
    }
}

/// A deep copy of the state.
pub fn copy_state(s: &State) -> (r: State)
    ensures
        r@ == s@,
        goal_views(r.goals@) == goal_views(s.goals@),
        r.goals.len() == s.goals.len(),
        forall|j: int| 0 <= j < s.goals.len() ==> #[trigger] r.goals@[j].session_id == s.goals@[j].session_id,
        r.issued_ids@ == s.issued_ids@,
{
    let mut goals: Vec<ManagedGoal> = Vec::new();
    let mut i: usize = 0;
    while i < s.goals.len()
        invariant
            i <= s.goals.len(),
            goal_views(goals@) =~= goal_views(s.goals@.subrange(0, i as int)),
        decreases s.goals.len() - i,
    {
        goals.push(copy_goal(&s.goals[i]));
        proof {
            assert(goal_views(s.goals@.subrange(0, i + 1)) =~= goal_views(
                s.goals@.subrange(0, i as int),
            ).push(s.goals@[i as int]@));
        }
        i = i + 1;
    }
    proof {
        assert(s.goals@.subrange(0, s.goals.len() as int) =~= s.goals@);
        assert(goal_views(goals@).len() == goal_views(s.goals@).len());
        assert forall|j: int| 0 <= j < s.goals.len() implies #[trigger] goals@[j].session_id
            == s.goals@[j].session_id by {
            assert(goal_views(goals@)[j] == goal_views(s.goals@)[j]);
        }
    }
    let mut issued: Vec<u128> = Vec::new();
    let mut j: usize = 0;
    while j < s.issued_ids.len()
        invariant
            j <= s.issued_ids.len(),
            issued@ =~= s.issued_ids@.subrange(0, j as int),
        decreases s.issued_ids.len() - j,
    {
        issued.push(s.issued_ids[j]);
        j = j + 1;
    }
    proof {
        assert(s.issued_ids@.subrange(0, s.issued_ids.len() as int) =~= s.issued_ids@);
    }
    State {
        version: s.version,
        epoch: s.epoch.clone(),
        revision: s.revision,
        foreground_until_ms: s.foreground_until_ms,
        goals,
        issued_ids: issued,
    }
}

/// Adopts `next` with the following revision, unless revisions ran out.
pub open spec fn commit(s: StateView, next: StateView) -> Result<StateView, ControllerError> {
    if s.revision == u64::MAX {
        Err(ControllerError::RevisionExhausted)
    } else {
        Ok(StateView { revision: (s.revision + 1) as u64, ..next })
    }
}

/// The caller read the current epoch and revision.
pub open spec fn revision_check(s: StateView, epoch: Seq<char>, revision: u64) -> Result<
    (),
    ControllerError,
> {
    if epoch != s.epoch || revision != s.revision {
        Err(ControllerError::StaleState)
    } else {
        Ok(())
    }
}

/// Reason recorded for an enrolled goal.
pub open spec fn enrolled_reason(eligible: bool) -> Seq<char> {
    if eligible {
        "Waiting for unused capacity"@
    } else {
        "Not eligible"@
    }
}

/// Selecting (or deselecting) a goal for unattended continuation.
pub open spec fn enroll_spec(s: StateView, g: GoalView) -> Result<StateView, ControllerError> {
    if g.grant is Some || g.thread_id.len() == 0 || trim(g.objective).len() == 0 || byte_len(
        g.objective,
    ) > 16_000 {
        Err(ControllerError::InvalidEnrollment)
    } else if s.goals.contains_key(g.session_id) && s.goals[g.session_id].grant is Some {
        Err(ControllerError::ReconcileBeforeChange)
    } else if s.goals.dom().len() >= MAX_GOALS && !s.goals.contains_key(g.session_id) {
        Err(ControllerError::TooManyGoals)
    } else {
        commit(
            s,
            StateView {
                goals: s.goals.insert(
                    g.session_id,
                    GoalView { reason: enrolled_reason(g.eligible), ..g },
                ),
                ..s
            },
        )
    }
}

/// Position of `sid` in the ordered goals: `(p, true)` if `goals[p]` is its
/// goal, `(p, false)` if it belongs before position `p`.
fn find_session(goals: &Vec<ManagedGoal>, sid: u128) -> (r: (usize, bool))
    requires
        sorted_goals(goal_views(goals@)),
    ensures
        r.0 <= goals.len(),
        forall|j: int| 0 <= j < r.0 ==> goals@[j].session_id < sid,
        r.1 ==> r.0 < goals.len() && goals@[r.0 as int].session_id == sid,
        !r.1 ==> forall|j: int| r.0 <= j < goals.len() ==> goals@[j].session_id > sid,
{
    let mut i: usize = 0;
    while i < goals.len()
        invariant
            i <= goals.len(),
            sorted_goals(goal_views(goals@)),
            forall|j: int| 0 <= j < i ==> goals@[j].session_id < sid,
        decreases goals.len() - i,
    {
        if goals[i].session_id == sid {
            return (i, true);
        }
        if goals[i].session_id > sid {
            proof {
                assert forall|j: int| i <= j < goals.len() implies goals@[j].session_id > sid by {
                    if j > i {
                        assert(goal_views(goals@)[i as int].session_id < goal_views(
                            goals@,
                        )[j].session_id);
                    }
                }
            }
            return (i, false);
        }
        i = i + 1;
    }
    (i, false)
}

proof fn lemma_lookup(goals: Seq<ManagedGoal>, r: (usize, bool), sid: u128)
    requires
        sorted_goals(goal_views(goals)),
        r.0 <= goals.len(),
        forall|j: int| 0 <= j < r.0 ==> goals[j].session_id < sid,
        r.1 ==> r.0 < goals.len() && goals[r.0 as int].session_id == sid,
        !r.1 ==> forall|j: int| r.0 <= j < goals.len() ==> goals[j].session_id > sid,
    ensures
        goal_map(goal_views(goals)).contains_key(sid) == r.1,
        r.1 ==> goal_map(goal_views(goals))[sid] == goals[r.0 as int]@,
{
    let gs = goal_views(goals);
    if r.1 {
        lemma_goal_at(gs, r.0 as int);
    } else {
        if has_session(gs, sid) {
            let j = choose|j: int| 0 <= j < gs.len() && gs[j].session_id == sid;
            assert(goals[j].session_id == sid);
        }
    }
}

/// Replaces the goal at position `i` by one of the same session.
fn replace_goal(goals: &mut Vec<ManagedGoal>, i: usize, g: ManagedGoal)
    requires
        sorted_goals(goal_views(old(goals)@)),
        i < old(goals).len(),
        g.session_id == old(goals)@[i as int].session_id,
    ensures
        sorted_goals(goal_views(final(goals)@)),
        goal_map(goal_views(final(goals)@)) == goal_map(goal_views(old(goals)@)).insert(
            g.session_id,
            g@,
        ),
        final(goals).len() == old(goals).len(),
{
    let ghost before = goal_views(goals@);
    let _ = goals.remove(i);
    goals.insert(i, g);
    proof {
        assert(goal_views(goals@) =~= before.update(i as int, g@));
        lemma_goal_update(before, i as int, g@);
    }
}

/// Inserts the goal of a new session at its ordered position.
fn insert_goal(goals: &mut Vec<ManagedGoal>, p: usize, g: ManagedGoal)
    requires
        sorted_goals(goal_views(old(goals)@)),
        p <= old(goals).len(),
        forall|j: int| 0 <= j < p ==> old(goals)@[j].session_id < g.session_id,
        forall|j: int| p <= j < old(goals).len() ==> old(goals)@[j].session_id > g.session_id,
    ensures
        sorted_goals(goal_views(final(goals)@)),
        goal_map(goal_views(final(goals)@)) == goal_map(goal_views(old(goals)@)).insert(
            g.session_id,
            g@,
        ),
{
    let ghost before = goal_views(goals@);
    goals.insert(p, g);
    proof {
        assert(goal_views(goals@) =~= before.insert(p as int, g@));
        lemma_goal_insert(before, p as int, g@);
    }
}


/// Some managed goal currently holds a grant.
pub open spec fn any_grant(goals: Map<u128, GoalView>) -> bool {
    exists|k: u128| goals.contains_key(k) && (#[trigger] goals[k]).grant is Some
}

/// `Path::join` of a relative name onto a directory, on Unix.
pub open spec fn join_path(root: Seq<char>, name: Seq<char>) -> Seq<char> {
    if root.len() == 0 || root.last() == '/' {
        root + name
    } else {
        root + seq!['/'] + name
    }
}

/// Where the permission file for grant `id` lives.
pub open spec fn lease_file(root: Seq<char>, id: u128) -> Seq<char> {
    join_path(root, uuid_text(id) + ".json"@)
}

/// The permission a fresh grant starts with.
pub open spec fn issued_lease(
    session: u128,
    id: u128,
    allocation: Seq<char>,
    expires: u64,
    stop: u64,
) -> LeaseView {
    LeaseView {
        version: 1,
        id: uuid_text(id),
        allocation_id: allocation,
        execution_id: uuid_text(session),
        expires_at_ms: expires,
        stop_at_ms: stop,
        sequence: 0,
        revoked: false,
    }
}

/// `a.saturating_sub(b)`.
pub open spec fn sat_sub(a: u64, b: u64) -> u64 {
    if a >= b {
        (a - b) as u64
    } else {
        0
    }
}

/// Issuing grant `id` for `session`. `lease_present` / `started_present` tell
/// whether the permission file or its start marker already exist on disk.
pub open spec fn issue_spec(
    s: StateView,
    session: u128,
    id: u128,
    allocation: Seq<char>,
    expires: u64,
    stop: u64,
    now: u64,
    lease_present: bool,
    started_present: bool,
) -> Result<StateView, ControllerError> {
    if s.foreground_until_ms > now || any_grant(s.goals) {
        Err(ControllerError::PriorityOrUnreconciled)
    } else if s.issued_ids.contains(id) || lease_present || started_present {
        Err(ControllerError::PermissionIdUsed)
    } else if !(s.goals.contains_key(session) && s.goals[session].eligible) {
        Err(ControllerError::NotEligible)
    } else if lease_validity(issued_lease(session, id, allocation, expires, stop), now) is Err {
        Err(
            ControllerError::Permission(
                lease_validity(issued_lease(session, id, allocation, expires, stop), now)->Err_0,
            ),
        )
    } else if sat_sub(expires, now) < 3000 {
        Err(ControllerError::TooCloseToExpiry)
    } else {
        commit(
            s,
            StateView {
                goals: s.goals.insert(
                    session,
                    GoalView {
                        grant: Some(
                            GrantView {
                                id,
                                allocation_id: allocation,
                                epoch: s.epoch,
                                expires_at_ms: expires,
                                stop_at_ms: stop,
                                sequence: 0,
                                execution_id: None,
                                stopping: false,
                            },
                        ),
                        reason: "Starting scheduled goal"@,
                        ..s.goals[session]
                    },
                ),
                issued_ids: s.issued_ids.insert(id),
                ..s
            },
        )
    }
}

/// The launch request a successful issue hands to the executor.
pub open spec fn issued_request(
    s: StateView,
    root: Seq<char>,
    guard: Seq<char>,
    id: u128,
    allocation: Seq<char>,
    expires: u64,
    stop: u64,
) -> CapacityExecutionView {
    CapacityExecutionView {
        issuer_epoch: s.epoch,
        id: uuid_text(id),
        allocation_id: allocation,
        expires_at_ms: expires,
        stop_at_ms: stop,
        lease_file: lease_file(root, id),
        guard_binary: guard,
    }
}

/// Whether any goal holds a grant.
fn has_any_grant(goals: &Vec<ManagedGoal>) -> (r: bool)
    requires
        sorted_goals(goal_views(goals@)),
    ensures
        r == any_grant(goal_map(goal_views(goals@))),
{
    let ghost gs = goal_views(goals@);
    let mut i: usize = 0;
    while i < goals.len()
        invariant
            i <= goals.len(),
            gs == goal_views(goals@),
            sorted_goals(gs),
            forall|j: int| 0 <= j < i ==> goals@[j].grant is None,
        decreases goals.len() - i,
    {
        if goals[i].grant.is_some() {
            proof {
                lemma_goal_at(gs, i as int);
                assert(goal_map(gs)[gs[i as int].session_id].grant is Some);
            }
            return true;
        }
        i = i + 1;
    }
    proof {
        if any_grant(goal_map(gs)) {
            let k = choose|k: u128| goal_map(gs).contains_key(k) && (#[trigger] goal_map(
                gs,
            )[k]).grant is Some;
            let j = choose|j: int| 0 <= j < gs.len() && gs[j].session_id == k;
            lemma_goal_at(gs, j);
            assert(goals@[j].grant is Some);
        }
    }
    false
}

/// Whether `id` is in the list.
fn contains_id(ids: &Vec<u128>, id: u128) -> (r: bool)
    ensures
        r == id_set(ids@).contains(id),
{
    let mut i: usize = 0;
    while i < ids.len()
        invariant
            i <= ids.len(),
            forall|j: int| 0 <= j < i ==> ids@[j] != id,
        decreases ids.len() - i,
    {
        if ids[i] == id {
            assert(ids@[i as int] == id);
            return true;
        }
        i = i + 1;
    }
    false
}

/// Adds `id` to the list unless present.
fn add_id(ids: &mut Vec<u128>, id: u128)
    ensures
        id_set(final(ids)@) == id_set(old(ids)@).insert(id),
{
    if !contains_id(ids, id) {
        ids.push(id);
    }
    proof {
        assert(id_set(ids@) =~= id_set(old(ids)@).insert(id)) by {
            assert forall|x: u128| ids@.contains(x) == (old(ids)@.contains(x) || x == id) by {
                if old(ids)@.contains(x) {
                    let j = choose|j: int| 0 <= j < old(ids)@.len() && old(ids)@[j] == x;
                    assert(ids@[j] == x);
                }
                if x == id && !old(ids)@.contains(x) {
                    assert(ids@[ids@.len() - 1] == x);
                }
            }
        }
    }
}

/// `join_path` on strings.
pub fn join_path_str(root: &str, name: &str) -> (r: String)
    ensures
        r@ == join_path(root@, name@),
{
    let n = root.unicode_len();
    let s = String::from_str(root);
    if n == 0 || root.get_char(n - 1) == '/' {
        s.concat(name)
    } else {
        let s = s.concat("/");
        proof {
            reveal_strlit("/");
        }
        s.concat(name)
    }
}


/// Goal `k` holds grant `id`.
pub open spec fn holds_grant(goals: Map<u128, GoalView>, k: u128, id: u128) -> bool {
    goals.contains_key(k) && goals[k].grant is Some && goals[k].grant->0.id == id
}

/// The first session (in session order) whose goal holds grant `id`.
pub open spec fn first_holder(goals: Map<u128, GoalView>, id: u128) -> Option<u128> {
    if exists|k: u128| holds_grant(goals, k, id) {
        Some(
            choose|k: u128|
                holds_grant(goals, k, id) && forall|k2: u128| #[trigger]
                    holds_grant(goals, k2, id) ==> k <= k2,
        )
    } else {
        None
    }
}

/// Binding the launch request `req` to the execution that actually started
/// on native goal `thread`, at the executor's lease-creation boundary.
pub open spec fn bind_spec(
    s: StateView,
    root: Seq<char>,
    guard: Seq<char>,
    req: CapacityExecutionView,
    thread: Seq<char>,
    execution: u128,
    now: u64,
) -> Result<StateView, ControllerError> {
    match uuid_parse(req.id) {
        None => Err(ControllerError::InvalidGrantId),
        Some(id) => match first_holder(s.goals, id) {
            None => Err(ControllerError::NoDurableGrant),
            Some(k) => {
                let goal = s.goals[k];
                let grant = goal.grant->0;
                if goal.thread_id != thread {
                    Err(ControllerError::OtherNativeGoal)
                } else if !goal.eligible || grant.stopping || grant.execution_id is Some
                    || grant.epoch != s.epoch || req.issuer_epoch != s.epoch || grant.expires_at_ms
                    <= now || s.foreground_until_ms > now || grant.allocation_id
                    != req.allocation_id || grant.expires_at_ms != req.expires_at_ms
                    || grant.stop_at_ms != req.stop_at_ms || req.lease_file != lease_file(root, id)
                    || req.guard_binary != guard {
                    Err(ControllerError::LaunchRevoked)
                } else {
                    commit(
                        s,
                        StateView {
                            goals: s.goals.insert(
                                k,
                                GoalView {
                                    grant: Some(
                                        GrantView { execution_id: Some(execution), ..grant },
                                    ),
                                    reason: "Running with unused daily capacity"@,
                                    ..goal
                                },
                            ),
                            ..s
                        },
                    )
                }
            },
        },
    }
}

/// The grant a renewal of `session` refers to.
pub open spec fn renew_target_spec(s: StateView, session: u128) -> Result<u128, ControllerError> {
    if !s.goals.contains_key(session) {
        Err(ControllerError::UnknownGoal)
    } else if s.goals[session].grant is None {
        Err(ControllerError::NoCurrentGrant)
    } else {
        Ok(s.goals[session].grant->0.id)
    }
}

/// The permission file names an execution other than the bound one.
pub open spec fn execution_mismatch(file_execution: Seq<char>, bound: Option<u128>) -> bool {
    match bound {
        None => true,
        Some(e) => file_execution != uuid_text(e),
    }
}

/// The permission after a renewal.
pub open spec fn renewed_lease(file: LeaseView, sequence: u64, expires: u64) -> LeaseView {
    LeaseView { sequence: (sequence + 1) as u64, expires_at_ms: expires, ..file }
}

/// Renewing grant `id` of `session` from `sequence` to a later expiry, given
/// the permission currently on disk.
pub open spec fn renew_spec(
    s: StateView,
    session: u128,
    id: u128,
    allocation: Seq<char>,
    sequence: u64,
    expires: u64,
    now: u64,
    file: LeaseView,
) -> Result<StateView, ControllerError> {
    if !s.goals.contains_key(session) {
        Err(ControllerError::UnknownGoal)
    } else if s.goals[session].grant is None {
        Err(ControllerError::NoCurrentGrant)
    } else {
        let goal = s.goals[session];
        let grant = goal.grant->0;
        if file.id != uuid_text(grant.id) || file.allocation_id != grant.allocation_id
            || file.stop_at_ms != grant.stop_at_ms {
            Err(ControllerError::PermissionFileChanged)
        } else if !goal.eligible || grant.stopping || grant.epoch != s.epoch || grant.id != id
            || grant.allocation_id != allocation || grant.sequence != sequence || sat_sub(
            grant.expires_at_ms,
            now,
        ) <= 2000 || s.foreground_until_ms > now || file.sequence != sequence
            || file.expires_at_ms != grant.expires_at_ms || file.revoked || execution_mismatch(
            file.execution_id,
            grant.execution_id,
        ) {
            Err(ControllerError::RenewalRejected)
        } else if sequence == u64::MAX {
            Err(ControllerError::SequenceExhausted)
        } else if lease_validity(renewed_lease(file, sequence, expires), now) is Err {
            Err(
                ControllerError::Permission(
                    lease_validity(renewed_lease(file, sequence, expires), now)->Err_0,
                ),
            )
        } else if expires <= grant.expires_at_ms {
            Err(ControllerError::RenewalMustExtend)
        } else {
            commit(
                s,
                StateView {
                    goals: s.goals.insert(
                        session,
                        GoalView {
                            grant: Some(
                                GrantView {
                                    sequence: (sequence + 1) as u64,
                                    expires_at_ms: expires,
                                    ..grant
                                },
                            ),
                            ..goal
                        },
                    ),
                    ..s
                },
            )
        }
    }
}

/// A goal after all authority was revoked for `reason`.
pub open spec fn revoke_goal(g: GoalView, reason: Seq<char>) -> GoalView {
    match g.grant {
        Some(x) => GoalView { grant: Some(GrantView { stopping: true, ..x }), reason, ..g },
        None => g,
    }
}

/// Revoking every grant; optionally reserving the machine for interactive
/// work until `foreground_until`.
pub open spec fn revoke_all_spec(s: StateView, reason: Seq<char>, foreground_until: Option<u64>) -> Result<
    StateView,
    ControllerError,
> {
    commit(
        s,
        StateView {
            foreground_until_ms: match foreground_until {
                Some(u) => if u > s.foreground_until_ms {
                    u
                } else {
                    s.foreground_until_ms
                },
                None => s.foreground_until_ms,
            },
            goals: s.goals.map_values(|g: GoalView| revoke_goal(g, reason)),
            ..s
        },
    )
}

/// Recording that the execution of grant `id` has verifiably stopped.
pub open spec fn stopped_spec(s: StateView, session: u128, id: u128, reason: Seq<char>) -> Result<
    StateView,
    ControllerError,
> {
    if !s.goals.contains_key(session) {
        Err(ControllerError::UnknownGoal)
    } else if !(s.goals[session].grant is Some && s.goals[session].grant->0.id == id) {
        Err(ControllerError::GrantChanged)
    } else {
        commit(
            s,
            StateView {
                goals: s.goals.insert(
                    session,
                    GoalView { grant: None, reason, ..s.goals[session] },
                ),
                ..s
            },
        )
    }
}

proof fn lemma_goal_map_values(gs: Seq<GoalView>, hs: Seq<GoalView>, reason: Seq<char>)
    requires
        sorted_goals(gs),
        hs.len() == gs.len(),
        forall|i: int| 0 <= i < gs.len() ==> hs[i] == revoke_goal(gs[i], reason),
    ensures
        sorted_goals(hs),
        goal_map(hs) =~= goal_map(gs).map_values(|g: GoalView| revoke_goal(g, reason)),
{
    assert(sorted_goals(hs)) by {
        assert forall|a: int, b: int| 0 <= a < b < hs.len() implies hs[a].session_id
            < hs[b].session_id by {
            assert(hs[a].session_id == gs[a].session_id);
            assert(hs[b].session_id == gs[b].session_id);
        }
    }
    assert forall|k: u128| #[trigger] has_session(hs, k) == has_session(gs, k) by {
        if has_session(hs, k) {
            let j = choose|j: int| 0 <= j < hs.len() && hs[j].session_id == k;
            assert(gs[j].session_id == k);
        }
        if has_session(gs, k) {
            let j = choose|j: int| 0 <= j < gs.len() && gs[j].session_id == k;
            assert(hs[j].session_id == k);
        }
    }
    assert forall|k: u128| #[trigger] goal_map(hs).contains_key(k) implies goal_map(hs)[k]
        == revoke_goal(goal_map(gs)[k], reason) by {
        let j = choose|j: int| 0 <= j < hs.len() && hs[j].session_id == k;
        lemma_goal_at(hs, j);
        lemma_goal_at(gs, j);
    }
}


/// Position of the first goal holding grant `id`.
fn find_grant_holder(goals: &Vec<ManagedGoal>, id: u128) -> (r: Option<usize>)
    ensures
        match r {
            Some(i) => i < goals.len() && goal_views(goals@)[i as int].grant is Some
                && goal_views(goals@)[i as int].grant->0.id == id && forall|j: int|
                0 <= j < i ==> !(goal_views(goals@)[j].grant is Some && goal_views(goals@)[j].grant->0.id
                == id),
            None => forall|j: int|
                0 <= j < goals.len() ==> !(goal_views(goals@)[j].grant is Some && goal_views(
                    goals@,
                )[j].grant->0.id == id),
        },
{
    let mut i: usize = 0;
    while i < goals.len()
        invariant
            i <= goals.len(),
            forall|j: int|
                0 <= j < i ==> !(goal_views(goals@)[j].grant is Some && goal_views(goals@)[j].grant->0.id
                    == id),
        decreases goals.len() - i,
    {
        let holds = match &goals[i].grant {
            Some(g) => g.id == id,
            None => false,
        };
        if holds {
            return Some(i);
        }
        i = i + 1;
    }
    None
}


/// Reason recorded for grants found running when the controller restarts.
pub open spec fn restart_reason() -> Seq<char> {
    "VK restarted; reconciling stopped execution"@
}

/// Ids of all grants currently held.
pub open spec fn grant_ids(goals: Map<u128, GoalView>) -> Set<u128> {
    Set::new(|x: u128| exists|k: u128| holds_grant(goals, k, x))
}

/// A state as read back from disk, with the map keys it was stored under.
pub struct LoadedState {
    pub state: State,
    pub keys: Vec<u128>,
}

pub struct LoadedView {
    pub version: u32,
    pub revision: u64,
    pub foreground_until_ms: u64,
    pub goals: Seq<GoalView>,
    pub keys: Seq<u128>,
    pub issued_ids: Set<u128>,
}

impl View for LoadedState {
    type V = LoadedView;

    open spec fn view(&self) -> LoadedView {
        LoadedView {
            version: self.state.version,
            revision: self.state.revision,
            foreground_until_ms: self.state.foreground_until_ms,
            goals: goal_views(self.state.goals@),
            keys: self.keys@,
            issued_ids: id_set(self.state.issued_ids@),
        }
    }
}

impl LoadedState {
    /// Keys as a persisted ordered map yields them: one per goal, increasing.
    pub open spec fn wf(&self) -> bool {
        &&& self.keys.len() == self.state.goals.len()
        &&& forall|i: int, j: int| 0 <= i < j < self.keys.len() ==> self.keys@[i] < self.keys@[j]
    }
}

/// Some goal among the first `n` holds grant `x`.
pub open spec fn granted_prefix(gs: Seq<GoalView>, n: int, x: u128) -> bool {
    exists|j: int| 0 <= j < n && gs[j].grant is Some && gs[j].grant->0.id == x
}

/// Opening the controller in a new process with `epoch`: every grant found
/// is marked stopping (and its id remembered as used) until reconciled.
pub open spec fn open_spec(loaded: Option<LoadedView>, epoch: Seq<char>) -> Result<
    StateView,
    ControllerError,
> {
    match loaded {
        None => Ok(
            StateView {
                version: 1,
                epoch,
                revision: 1,
                foreground_until_ms: 0,
                goals: Map::empty(),
                issued_ids: Set::empty(),
            },
        ),
        Some(l) => if l.version != 1 || l.goals.len() > MAX_GOALS {
            Err(ControllerError::UnsupportedState)
        } else if exists|i: int| 0 <= i < l.goals.len() && l.keys[i] != l.goals[i].session_id {
            Err(ControllerError::InvalidSessionIdentity)
        } else {
            let g = goal_map(l.goals);
            commit(
                StateView {
                    version: l.version,
                    epoch,
                    revision: l.revision,
                    foreground_until_ms: l.foreground_until_ms,
                    goals: g,
                    issued_ids: l.issued_ids,
                },
                StateView {
                    version: l.version,
                    epoch,
                    revision: l.revision,
                    foreground_until_ms: l.foreground_until_ms,
                    goals: g.map_values(|x: GoalView| revoke_goal(x, restart_reason())),
                    issued_ids: l.issued_ids.union(grant_ids(g)),
                },
            )
        },
    }
}

/// Opens the controller state for this process; returns the state to persist,
/// after which the caller revokes the permission files of stopping grants.
pub fn open_state(loaded: Option<LoadedState>, epoch: String) -> (r: Result<State, ControllerError>)
    requires
        loaded matches Some(l) ==> l.wf(),
    ensures
        match r {
            Ok(t) => t.wf() && open_spec(
                match loaded {
                    Some(l) => Some(l@),
                    None => None,
                },
                epoch@,
            ) == Ok::<StateView, ControllerError>(t@),
            Err(e) => open_spec(
                match loaded {
                    Some(l) => Some(l@),
                    None => None,
                },
                epoch@,
            ) == Err::<StateView, ControllerError>(e),
        },
{
    let loaded_state = match loaded {
        None => {
            let t = State {
                version: 1,
                epoch,
                revision: 1,
                foreground_until_ms: 0,
                goals: Vec::new(),
                issued_ids: Vec::new(),
            };
            proof {
                assert(t@.goals =~= Map::<u128, GoalView>::empty());
                assert(t@.issued_ids =~= Set::<u128>::empty());
            }
            return Ok(t);
        },
        Some(l) => l,
    };
    let ghost lv = loaded_state@;
    let state = loaded_state.state;
    let keys = loaded_state.keys;
    if state.version != 1 || state.goals.len() > MAX_GOALS {
        return Err(ControllerError::UnsupportedState);
    }
    let ghost gs = goal_views(state.goals@);
    let mut i: usize = 0;
    while i < state.goals.len()
        invariant
            i <= state.goals.len(),
            keys.len() == state.goals.len(),
            gs == goal_views(state.goals@),
            lv.goals == gs,
            lv.keys == keys@,
            lv.version == 1,
            lv.goals.len() <= MAX_GOALS,
            match loaded {
                Some(l) => l@ == lv,
                None => false,
            },
            forall|j: int| 0 <= j < i ==> keys@[j] == gs[j].session_id,
        decreases state.goals.len() - i,
    {
        if keys[i] != state.goals[i].session_id {
            proof {
                assert(lv.keys[i as int] != lv.goals[i as int].session_id);
            }
            return Err(ControllerError::InvalidSessionIdentity);
        }
        i = i + 1;
    }
    assert(sorted_goals(gs)) by {
        assert forall|a: int, b: int| 0 <= a < b < gs.len() implies gs[a].session_id
            < gs[b].session_id by {
            assert(keys@[a] < keys@[b]);
        }
    }
    if state.revision == u64::MAX {
        return Err(ControllerError::RevisionExhausted);
    }
    let reason = "VK restarted; reconciling stopped execution";
    let mut goals: Vec<ManagedGoal> = Vec::new();
    let mut issued = state.issued_ids;
    let ghost issued0 = id_set(issued@);
    let mut k: usize = 0;
    while k < state.goals.len()
        invariant
            k <= state.goals.len(),
            gs == goal_views(state.goals@),
            goals.len() == k,
            forall|j: int| 0 <= j < k ==> (#[trigger] goals@[j])@ == revoke_goal(gs[j], reason@),
            id_set(issued@) =~= issued0.union(Set::new(|x: u128| granted_prefix(gs, k as int, x))),
        decreases state.goals.len() - k,
    {
        let mut g = copy_goal(&state.goals[k]);
        match &state.goals[k].grant {
            Some(x) => {
                add_id(&mut issued, x.id);
                let mut x2 = copy_grant(x);
                x2.stopping = true;
                g.grant = Some(x2);
                g.reason = String::from_str(reason);
            },
            None => {},
        }
        goals.push(g);
        proof {
            assert forall|x: u128| #[trigger] granted_prefix(gs, k + 1, x) == (granted_prefix(
                gs,
                k as int,
                x,
            ) || (gs[k as int].grant is Some && gs[k as int].grant->0.id == x)) by {
                if granted_prefix(gs, k + 1, x) {
                    let j = choose|j: int|
                        0 <= j < k + 1 && gs[j].grant is Some && gs[j].grant->0.id == x;
                    if j < k {
                        assert(granted_prefix(gs, k as int, x));
                    }
                }
                if granted_prefix(gs, k as int, x) {
                    let j = choose|j: int|
                        0 <= j < k && gs[j].grant is Some && gs[j].grant->0.id == x;
                    assert(0 <= j < k + 1 && gs[j].grant is Some && gs[j].grant->0.id == x);
                }
                if gs[k as int].grant is Some && gs[k as int].grant->0.id == x {
                    let j = k as int;
                    assert(0 <= j < k + 1 && gs[j].grant is Some && gs[j].grant->0.id == x);
                }
            }
            assert(id_set(issued@) =~= issued0.union(
                Set::new(|x: u128| granted_prefix(gs, k + 1, x)),
            ));
        }
        k = k + 1;
    }
    proof {
        assert forall|j: int| 0 <= j < gs.len() implies goal_views(goals@)[j] == revoke_goal(
            gs[j],
            reason@,
        ) by {
            assert(goals@[j]@ == revoke_goal(gs[j], reason@));
        }
        lemma_goal_map_values(gs, goal_views(goals@), reason@);
        assert(Set::new(|x: u128| granted_prefix(gs, gs.len() as int, x)) =~= grant_ids(
            goal_map(gs),
        )) by {
            assert forall|x: u128| #[trigger] granted_prefix(gs, gs.len() as int, x)
                == grant_ids(goal_map(gs)).contains(x) by {
                if granted_prefix(gs, gs.len() as int, x) {
                    let j = choose|j: int|
                        0 <= j < gs.len() && gs[j].grant is Some && gs[j].grant->0.id == x;
                    lemma_goal_at(gs, j);
                    assert(holds_grant(goal_map(gs), gs[j].session_id, x));
                }
                if grant_ids(goal_map(gs)).contains(x) {
                    let kk = choose|kk: u128| holds_grant(goal_map(gs), kk, x);
                    let j = choose|j: int| 0 <= j < gs.len() && gs[j].session_id == kk;
                    lemma_goal_at(gs, j);
                    assert(0 <= j < gs.len() && gs[j].grant is Some && gs[j].grant->0.id == x);
                }
            }
        }
        assert(!(exists|i: int| 0 <= i < lv.goals.len() && lv.keys[i] != lv.goals[i].session_id));
    }
    let t = State {
        version: state.version,
        epoch,
        revision: state.revision + 1,
        foreground_until_ms: state.foreground_until_ms,
        goals,
        issued_ids: issued,
    };
    Ok(t)
}


/// Goal `k` holds the grant whose permission id is `lease_id`, not stopping.
pub open spec fn holds_active_lease(goals: Map<u128, GoalView>, k: u128, lease_id: Seq<char>) -> bool {
    &&& goals.contains_key(k)
    &&& goals[k].grant is Some
    &&& uuid_text(goals[k].grant->0.id) == lease_id
    &&& !goals[k].grant->0.stopping
}

/// The native goal still needs the user before unattended continuation.
pub open spec fn needs_user(status: Seq<char>, p: ProgressView) -> bool {
    ||| p.pause_reason is Some
    ||| all_complete_spec(p)
    ||| !(status == "paused"@ || status == "active"@ || status == "usage_limited"@)
}

/// Whether the native goal reported by the app server may continue under
/// the authority of `goal`.
pub open spec fn native_check(goal: GoalView, native_thread: Seq<char>, native_objective: Seq<char>,
    native_status: Seq<char>, native_created_at: i64, p: ProgressView) -> Result<(), ControllerError> {
    if needs_user(native_status, p) {
        Err(ControllerError::UserInvolvementRequired)
    } else if native_thread != goal.thread_id || native_objective != goal.objective
        || native_created_at != goal.created_at || native_status == "complete"@ {
        Err(ControllerError::NativeGoalChanged)
    } else {
        Ok(())
    }
}

/// Checks a native goal snapshot against the managed goal holding the
/// running permission.
pub fn check_native(goal: &ManagedGoal, native: &NativeGoal, progress: &Progress) -> (r: Result<
    (),
    ControllerError,
>)
    ensures
        r == native_check(
            goal@,
            native.thread_id@,
            native.objective@,
            native.status@,
            native.created_at,
            progress@,
        ),
{
    let status = native.status.as_str();
    if progress.pause_reason.is_some() || progress.all_complete() || !(str_eq(status, "paused")
        || str_eq(status, "active") || str_eq(status, "usage_limited")) {
        return Err(ControllerError::UserInvolvementRequired);
    }
    if !str_eq(native.thread_id.as_str(), goal.thread_id.as_str()) || !str_eq(
        native.objective.as_str(),
        goal.objective.as_str(),
    ) || native.created_at != goal.created_at || str_eq(status, "complete") {
        return Err(ControllerError::NativeGoalChanged);
    }
    Ok(())
}

/// Durable authority for scheduled sessions: the state plus where permission
/// files live and which guard binary may run them.
pub struct Controller {
    pub root: String,
    pub guard: String,
    pub state: State,
}

impl Controller {
    /// The state is well formed.
    pub open spec fn wf(&self) -> bool {
        self.state.wf()
    }

    /// Refuses callers that act on an outdated view of the state.
    pub fn check_revision(&self, epoch: &str, revision: u64) -> (r: Result<(), ControllerError>)
        ensures
            r == revision_check(self.state@, epoch@, revision),
    {
        if !crate::text::str_eq(epoch, self.state.epoch.as_str()) || revision != self.state.revision {
            return Err(ControllerError::StaleState);
        }
        Ok(())
    }

    /// Selects (or deselects) a goal; returns the next state to persist.
    pub fn enroll(&self, goal: ManagedGoal) -> (r: Result<State, ControllerError>)
        requires
            self.wf(),
        ensures
            match r {
                Ok(t) => t.wf() && enroll_spec(self.state@, goal@) == Ok::<
                    StateView,
                    ControllerError,
                >(t@),
                Err(e) => enroll_spec(self.state@, goal@) == Err::<StateView, ControllerError>(e),
            },
    {
        let mut goal = goal;
        if goal.grant.is_some() || goal.thread_id.as_str().is_empty() || is_blank(
            goal.objective.as_str(),
        ) || goal.objective.as_str().len() > 16_000 {
            return Err(ControllerError::InvalidEnrollment);
        }
        let (p, found) = find_session(&self.state.goals, goal.session_id);
        proof {
            lemma_lookup(self.state.goals@, (p, found), goal.session_id);
            lemma_goal_count(goal_views(self.state.goals@));
        }
        if found && self.state.goals[p].grant.is_some() {
            return Err(ControllerError::ReconcileBeforeChange);
        }
        if self.state.goals.len() >= MAX_GOALS && !found {
            return Err(ControllerError::TooManyGoals);
        }
        if self.state.revision == u64::MAX {
            return Err(ControllerError::RevisionExhausted);
        }
        goal.reason = if goal.eligible {
            String::from_str("Waiting for unused capacity")
        } else {
            String::from_str("Not eligible")
        };
        let mut next = copy_state(&self.state);
        let sid = goal.session_id;
        if found {
            replace_goal(&mut next.goals, p, goal);
        } else {
            insert_goal(&mut next.goals, p, goal);
        }
        next.revision = self.state.revision + 1;
        proof {
            assert(next@.goals =~= self.state@.goals.insert(
                sid,
                GoalView { reason: enrolled_reason(goal@.eligible), ..goal@ },
            ));
        }
        Ok(next)
    }
    /// Where the permission file for grant `id` lives.
    pub fn lease_path(&self, id: u128) -> (r: String)
        ensures
            r@ == lease_file(self.root@, id),
    {
        let name = format_uuid(id).concat(".json");
        join_path_str(self.root.as_str(), name.as_str())
    }

    /// Issues grant `id` to an eligible goal; returns the next state to
    /// persist and the launch request for the executor.
    pub fn issue(
        &self,
        session: u128,
        id: u128,
        allocation: String,
        expires: u64,
        stop: u64,
        now: u64,
        lease_present: bool,
        started_present: bool,
    ) -> (r: Result<(State, CapacityExecution), ControllerError>)
        requires
            self.wf(),
        ensures
            match r {
                Ok((t, req)) => {
                    &&& t.wf()
                    &&& issue_spec(
                        self.state@,
                        session,
                        id,
                        allocation@,
                        expires,
                        stop,
                        now,
                        lease_present,
                        started_present,
                    ) == Ok::<StateView, ControllerError>(t@)
                    &&& req@ == issued_request(
                        self.state@,
                        self.root@,
                        self.guard@,
                        id,
                        allocation@,
                        expires,
                        stop,
                    )
                },
                Err(e) => issue_spec(
                    self.state@,
                    session,
                    id,
                    allocation@,
                    expires,
                    stop,
                    now,
                    lease_present,
                    started_present,
                ) == Err::<StateView, ControllerError>(e),
            },
    {
        if self.state.foreground_until_ms > now || has_any_grant(&self.state.goals) {
            return Err(ControllerError::PriorityOrUnreconciled);
        }
        if contains_id(&self.state.issued_ids, id) || lease_present || started_present {
            return Err(ControllerError::PermissionIdUsed);
        }
        let (p, found) = find_session(&self.state.goals, session);
        proof {
            lemma_lookup(self.state.goals@, (p, found), session);
        }
        if !found || !self.state.goals[p].eligible {
            return Err(ControllerError::NotEligible);
        }
        let lease = Lease {
            version: 1,
            id: format_uuid(id),
            allocation_id: allocation.clone(),
            execution_id: format_uuid(session),
            expires_at_ms: expires,
            stop_at_ms: stop,
            sequence: 0,
            revoked: false,
        };
        match lease.validate(now) {
            Err(e) => {
                return Err(ControllerError::Permission(e));
            },
            Ok(()) => {},
        }
        if expires.saturating_sub(now) < 3000 {
            return Err(ControllerError::TooCloseToExpiry);
        }
        if self.state.revision == u64::MAX {
            return Err(ControllerError::RevisionExhausted);
        }
        let mut next = copy_state(&self.state);
        let mut goal = copy_goal(&self.state.goals[p]);
        goal.grant = Some(
            Grant {
                id,
                allocation_id: allocation.clone(),
                epoch: self.state.epoch.clone(),
                expires_at_ms: expires,
                stop_at_ms: stop,
                sequence: 0,
                execution_id: None,
                stopping: false,
            },
        );
        goal.reason = String::from_str("Starting scheduled goal");
        let ghost gv = goal@;
        replace_goal(&mut next.goals, p, goal);
        add_id(&mut next.issued_ids, id);
        next.revision = self.state.revision + 1;
        let request = CapacityExecution {
            issuer_epoch: self.state.epoch.clone(),
            id: format_uuid(id),
            allocation_id: allocation,
            expires_at_ms: expires,
            stop_at_ms: stop,
            lease_file: self.lease_path(id),
            guard_binary: self.guard.clone(),
        };
        proof {
            assert(next@.goals =~= self.state@.goals.insert(session, gv));
        }
        Ok((next, request))
    }
    /// Binds a launch request to the execution that started; returns the next
    /// state to persist.
    #[verifier::spinoff_prover]
    #[verifier::rlimit(30)]
    pub fn bind(&self, request: &CapacityExecution, thread: &str, execution: u128, now: u64) -> (r:
        Result<State, ControllerError>)
        requires
            self.wf(),
        ensures
            match r {
                Ok(t) => t.wf() && bind_spec(
                    self.state@,
                    self.root@,
                    self.guard@,
                    request@,
                    thread@,
                    execution,
                    now,
                ) == Ok::<StateView, ControllerError>(t@),
                Err(e) => bind_spec(
                    self.state@,
                    self.root@,
                    self.guard@,
                    request@,
                    thread@,
                    execution,
                    now,
                ) == Err::<StateView, ControllerError>(e),
            },
    {
        let id = match parse_uuid(request.id.as_str()) {
            None => {
                return Err(ControllerError::InvalidGrantId);
            },
            Some(id) => id,
        };
        let ghost gs = goal_views(self.state.goals@);
        let found = find_grant_holder(&self.state.goals, id);
        let i: usize = match found {
            Some(i) => i,
            None => self.state.goals.len(),
        };
        if i == self.state.goals.len() {
            proof {
                if exists|k: u128| holds_grant(self.state@.goals, k, id) {
                    let k = choose|k: u128| holds_grant(self.state@.goals, k, id);
                    let j = choose|j: int| 0 <= j < gs.len() && gs[j].session_id == k;
                    lemma_goal_at(gs, j);
                }
            }
            return Err(ControllerError::NoDurableGrant);
        }
        let goal = &self.state.goals[i];
        let ghost k = goal.session_id;
        proof {
            lemma_goal_at(gs, i as int);
            assert(holds_grant(self.state@.goals, k, id));
            assert forall|k2: u128| #[trigger] holds_grant(self.state@.goals, k2, id) implies k
                <= k2 by {
                let j = choose|j: int| 0 <= j < gs.len() && gs[j].session_id == k2;
                lemma_goal_at(gs, j);
                if j < i {
                } else if j > i {
                    assert(gs[i as int].session_id < gs[j].session_id);
                }
            }
            let m = first_holder(self.state@.goals, id)->0;
            assert(holds_grant(self.state@.goals, m, id));
            assert(m <= k && k <= m);
        }
        let grant = match &goal.grant {
            Some(g) => g,
            None => {
                return Err(ControllerError::NoDurableGrant);
            },
        };
        if !str_eq(goal.thread_id.as_str(), thread) {
            return Err(ControllerError::OtherNativeGoal);
        }
        let lease_path = self.lease_path(id);
        if !goal.eligible || grant.stopping || grant.execution_id.is_some() || !str_eq(
            grant.epoch.as_str(),
            self.state.epoch.as_str(),
        ) || !str_eq(request.issuer_epoch.as_str(), self.state.epoch.as_str())
            || grant.expires_at_ms <= now || self.state.foreground_until_ms > now || !str_eq(
            grant.allocation_id.as_str(),
            request.allocation_id.as_str(),
        ) || grant.expires_at_ms != request.expires_at_ms || grant.stop_at_ms
            != request.stop_at_ms || !str_eq(request.lease_file.as_str(), lease_path.as_str())
            || !str_eq(request.guard_binary.as_str(), self.guard.as_str()) {
            return Err(ControllerError::LaunchRevoked);
        }
        if self.state.revision == u64::MAX {
            return Err(ControllerError::RevisionExhausted);
        }
        let mut next = copy_state(&self.state);
        let mut updated = copy_goal(goal);
        let mut g2 = copy_grant(grant);
        g2.execution_id = Some(execution);
        updated.grant = Some(g2);
        updated.reason = String::from_str("Running with unused daily capacity");
        let ghost gv = updated@;
        replace_goal(&mut next.goals, i, updated);
        next.revision = self.state.revision + 1;
        proof {
            assert(next@.goals =~= self.state@.goals.insert(k, gv));
        }
        Ok(next)
    }

    /// The grant a renewal of `session` refers to (whose permission file the
    /// caller reads next).
    pub fn renew_target(&self, session: u128) -> (r: Result<u128, ControllerError>)
        requires
            self.wf(),
        ensures
            r == renew_target_spec(self.state@, session),
    {
        let (p, found) = find_session(&self.state.goals, session);
        proof {
            lemma_lookup(self.state.goals@, (p, found), session);
        }
        if !found {
            return Err(ControllerError::UnknownGoal);
        }
        match &self.state.goals[p].grant {
            None => Err(ControllerError::NoCurrentGrant),
            Some(g) => Ok(g.id),
        }
    }

    /// Renews a running grant given the permission read from its file;
    /// returns the next state to persist and the permission to write after.
    pub fn renew(
        &self,
        session: u128,
        id: u128,
        allocation: &str,
        sequence: u64,
        expires: u64,
        now: u64,
        file: &Lease,
    ) -> (r: Result<(State, Lease), ControllerError>)
        requires
            self.wf(),
        ensures
            match r {
                Ok((t, l)) => t.wf() && renew_spec(
                    self.state@,
                    session,
                    id,
                    allocation@,
                    sequence,
                    expires,
                    now,
                    file@,
                ) == Ok::<StateView, ControllerError>(t@) && l@ == renewed_lease(
                    file@,
                    sequence,
                    expires,
                ),
                Err(e) => renew_spec(
                    self.state@,
                    session,
                    id,
                    allocation@,
                    sequence,
                    expires,
                    now,
                    file@,
                ) == Err::<StateView, ControllerError>(e),
            },
    {
        let (p, found) = find_session(&self.state.goals, session);
        proof {
            lemma_lookup(self.state.goals@, (p, found), session);
        }
        if !found {
            return Err(ControllerError::UnknownGoal);
        }
        let goal = &self.state.goals[p];
        let grant = match &goal.grant {
            None => {
                return Err(ControllerError::NoCurrentGrant);
            },
            Some(g) => g,
        };
        let grant_text = format_uuid(grant.id);
        if !str_eq(file.id.as_str(), grant_text.as_str()) || !str_eq(
            file.allocation_id.as_str(),
            grant.allocation_id.as_str(),
        ) || file.stop_at_ms != grant.stop_at_ms {
            return Err(ControllerError::PermissionFileChanged);
        }
        let mismatch = match grant.execution_id {
            None => true,
            Some(e) => {
                let t = format_uuid(e);
                !str_eq(file.execution_id.as_str(), t.as_str())
            },
        };
        if !goal.eligible || grant.stopping || !str_eq(
            grant.epoch.as_str(),
            self.state.epoch.as_str(),
        ) || grant.id != id || !str_eq(grant.allocation_id.as_str(), allocation)
            || grant.sequence != sequence || grant.expires_at_ms.saturating_sub(now) <= 2000
            || self.state.foreground_until_ms > now || file.sequence != sequence
            || file.expires_at_ms != grant.expires_at_ms || file.revoked || mismatch {
            return Err(ControllerError::RenewalRejected);
        }
        if sequence == u64::MAX {
            return Err(ControllerError::SequenceExhausted);
        }
        let mut lease = copy_lease(file);
        lease.sequence = sequence + 1;
        lease.expires_at_ms = expires;
        match lease.validate(now) {
            Err(e) => {
                return Err(ControllerError::Permission(e));
            },
            Ok(()) => {},
        }
        if expires <= grant.expires_at_ms {
            return Err(ControllerError::RenewalMustExtend);
        }
        if self.state.revision == u64::MAX {
            return Err(ControllerError::RevisionExhausted);
        }
        let mut next = copy_state(&self.state);
        let mut updated = copy_goal(goal);
        let mut g2 = copy_grant(grant);
        g2.sequence = sequence + 1;
        g2.expires_at_ms = expires;
        updated.grant = Some(g2);
        let ghost gv = updated@;
        replace_goal(&mut next.goals, p, updated);
        next.revision = self.state.revision + 1;
        proof {
            assert(next@.goals =~= self.state@.goals.insert(session, gv));
        }
        Ok((next, lease))
    }

    /// Revokes every grant; returns the next state to persist, after which
    /// the caller marks their permission files revoked.
    pub fn revoke_all(&self, reason: &str, foreground_until: Option<u64>) -> (r: Result<
        State,
        ControllerError,
    >)
        requires
            self.wf(),
        ensures
            match r {
                Ok(t) => t.wf() && revoke_all_spec(self.state@, reason@, foreground_until)
                    == Ok::<StateView, ControllerError>(t@),
                Err(e) => revoke_all_spec(self.state@, reason@, foreground_until) == Err::<
                    StateView,
                    ControllerError,
                >(e),
            },
    {
        if self.state.revision == u64::MAX {
            return Err(ControllerError::RevisionExhausted);
        }
        let ghost gs = goal_views(self.state.goals@);
        let mut goals: Vec<ManagedGoal> = Vec::new();
        let mut i: usize = 0;
        while i < self.state.goals.len()
            invariant
                i <= self.state.goals.len(),
                gs == goal_views(self.state.goals@),
                goals.len() == i,
                forall|j: int| 0 <= j < i ==> (#[trigger] goals@[j])@ == revoke_goal(gs[j], reason@),
            decreases self.state.goals.len() - i,
        {
            let mut g = copy_goal(&self.state.goals[i]);
            match &self.state.goals[i].grant {
                Some(x) => {
                    let mut x2 = copy_grant(x);
                    x2.stopping = true;
                    g.grant = Some(x2);
                    g.reason = String::from_str(reason);
                },
                None => {},
            }
            goals.push(g);
            i = i + 1;
        }
        let mut next = copy_state(&self.state);
        proof {
            assert forall|j: int| 0 <= j < gs.len() implies goal_views(goals@)[j] == revoke_goal(
                gs[j],
                reason@,
            ) by {
                assert(goals@[j]@ == revoke_goal(gs[j], reason@));
            }
            lemma_goal_map_values(gs, goal_views(goals@), reason@);
        }
        next.goals = goals;
        match foreground_until {
            Some(u) => {
                if u > next.foreground_until_ms {
                    next.foreground_until_ms = u;
                }
            },
            None => {},
        }
        next.revision = self.state.revision + 1;
        Ok(next)
    }

    /// Records that the execution of grant `id` has stopped; returns the next
    /// state to persist. The caller must have established process exit.
    pub fn stopped(&self, session: u128, id: u128, reason: String) -> (r: Result<
        State,
        ControllerError,
    >)
        requires
            self.wf(),
        ensures
            match r {
                Ok(t) => t.wf() && stopped_spec(self.state@, session, id, reason@) == Ok::<
                    StateView,
                    ControllerError,
                >(t@),
                Err(e) => stopped_spec(self.state@, session, id, reason@) == Err::<
                    StateView,
                    ControllerError,
                >(e),
            },
    {
        let (p, found) = find_session(&self.state.goals, session);
        proof {
            lemma_lookup(self.state.goals@, (p, found), session);
        }
        if !found {
            return Err(ControllerError::UnknownGoal);
        }
        let holds = match &self.state.goals[p].grant {
            Some(g) => g.id == id,
            None => false,
        };
        if !holds {
            return Err(ControllerError::GrantChanged);
        }
        if self.state.revision == u64::MAX {
            return Err(ControllerError::RevisionExhausted);
        }
        let mut next = copy_state(&self.state);
        let mut updated = copy_goal(&self.state.goals[p]);
        updated.grant = None;
        updated.reason = reason;
        let ghost gv = updated@;
        replace_goal(&mut next.goals, p, updated);
        next.revision = self.state.revision + 1;
        proof {
            assert(next@.goals =~= self.state@.goals.insert(session, gv));
        }
        Ok(next)
    }
    /// The managed goal whose running (not stopping) grant issued permission
    /// `lease_id`, first in session order.
    pub fn goal_for_lease(&self, lease_id: &str) -> (r: Result<&ManagedGoal, ControllerError>)
        requires
            self.wf(),
        ensures
            match r {
                Ok(g) => holds_active_lease(self.state@.goals, g.session_id, lease_id@)
                    && self.state@.goals[g.session_id] == g@ && forall|k: u128|
                    #[trigger] holds_active_lease(self.state@.goals, k, lease_id@) ==> g.session_id
                        <= k,
                Err(e) => e == ControllerError::AuthorityChanged && forall|k: u128|
                    !#[trigger] holds_active_lease(self.state@.goals, k, lease_id@),
            },
    {
        let ghost gs = goal_views(self.state.goals@);
        let mut i: usize = 0;
        while i < self.state.goals.len()
            invariant
                i <= self.state.goals.len(),
                gs == goal_views(self.state.goals@),
                sorted_goals(gs),
                forall|j: int|
                    0 <= j < i ==> !(gs[j].grant is Some && uuid_text(gs[j].grant->0.id) == lease_id@
                        && !gs[j].grant->0.stopping),
            decreases self.state.goals.len() - i,
        {
            let g = &self.state.goals[i];
            let hit = match &g.grant {
                Some(x) => {
                    let t = format_uuid(x.id);
                    str_eq(t.as_str(), lease_id) && !x.stopping
                },
                None => false,
            };
            if hit {
                proof {
                    lemma_goal_at(gs, i as int);
                    assert forall|k: u128| #[trigger]
                        holds_active_lease(self.state@.goals, k, lease_id@) implies gs[i as int].session_id
                        <= k by {
                        let j = choose|j: int| 0 <= j < gs.len() && gs[j].session_id == k;
                        lemma_goal_at(gs, j);
                        if j > i {
                            assert(gs[i as int].session_id < gs[j].session_id);
                        }
                    }
                }
                return Ok(g);
            }
            i = i + 1;
        }
        proof {
            assert forall|k: u128| !#[trigger] holds_active_lease(self.state@.goals, k, lease_id@) by {
                if holds_active_lease(self.state@.goals, k, lease_id@) {
                    let j = choose|j: int| 0 <= j < gs.len() && gs[j].session_id == k;
                    lemma_goal_at(gs, j);
                }
            }
        }
        Err(ControllerError::AuthorityChanged)
    }

    /// Ids of the grants being stopped, whose permission files the caller
    /// marks revoked (or removes when unreadable).
    pub fn stopping_grants(&self) -> (r: Vec<u128>)
        requires
            self.wf(),
        ensures
            forall|x: u128|
                r@.contains(x) <==> exists|k: u128| #[trigger] holds_grant(self.state@.goals, k, x)
                    && self.state@.goals[k].grant->0.stopping,
    {
        let ghost gs = goal_views(self.state.goals@);
        let mut out: Vec<u128> = Vec::new();
        let mut i: usize = 0;
        while i < self.state.goals.len()
            invariant
                i <= self.state.goals.len(),
                gs == goal_views(self.state.goals@),
                sorted_goals(gs),
                forall|x: u128|
                    out@.contains(x) <==> exists|j: int|
                        0 <= j < i && #[trigger] gs[j].grant is Some && gs[j].grant->0.id == x
                            && gs[j].grant->0.stopping,
            decreases self.state.goals.len() - i,
        {
            let ghost before = out@;
            match &self.state.goals[i].grant {
                Some(x) => {
                    if x.stopping {
                        out.push(x.id);
                    }
                },
                None => {},
            }
            proof {
                assert forall|x: u128|
                    out@.contains(x) <==> exists|j: int|
                        0 <= j < i + 1 && #[trigger] gs[j].grant is Some && gs[j].grant->0.id == x
                            && gs[j].grant->0.stopping by {
                    if out@.contains(x) {
                        let t = choose|t: int| 0 <= t < out@.len() && out@[t] == x;
                        if t < before.len() {
                            assert(before.contains(x));
                        } else {
                            assert(gs[i as int].grant is Some);
                        }
                    }
                    if exists|j: int|
                        0 <= j < i + 1 && #[trigger] gs[j].grant is Some && gs[j].grant->0.id == x
                            && gs[j].grant->0.stopping {
                        let j = choose|j: int|
                            0 <= j < i + 1 && #[trigger] gs[j].grant is Some && gs[j].grant->0.id
                                == x && gs[j].grant->0.stopping;
                        if j < i {
                            assert(before.contains(x));
                            let t = choose|t: int| 0 <= t < before.len() && before[t] == x;
                            assert(out@[t] == x);
                        } else {
                            assert(out@[out@.len() - 1] == x);
                        }
                    }
                }
            }
            i = i + 1;
        }
        proof {
            assert forall|x: u128|
                out@.contains(x) <==> exists|k: u128| #[trigger] holds_grant(self.state@.goals, k, x)
                    && self.state@.goals[k].grant->0.stopping by {
                if out@.contains(x) {
                    let j = choose|j: int|
                        0 <= j < gs.len() && #[trigger] gs[j].grant is Some && gs[j].grant->0.id == x
                            && gs[j].grant->0.stopping;
                    lemma_goal_at(gs, j);
                    assert(holds_grant(self.state@.goals, gs[j].session_id, x));
                }
                if exists|k: u128| #[trigger] holds_grant(self.state@.goals, k, x)
                    && self.state@.goals[k].grant->0.stopping {
                    let k = choose|k: u128| #[trigger] holds_grant(self.state@.goals, k, x)
                        && self.state@.goals[k].grant->0.stopping;
                    let j = choose|j: int| 0 <= j < gs.len() && gs[j].session_id == k;
                    lemma_goal_at(gs, j);
                    assert(gs[j].grant is Some && gs[j].grant->0.id == x && gs[j].grant->0.stopping);
                }
            }
        }
        out
    }

    /// Before an interactive (user-started) turn of `session`: all scheduled
    /// authority is revoked and the machine reserved for ten minutes. Returns
    /// the state to persist, and whether the turn may proceed.
    pub fn before_interactive_launch(&self, session: u128, now: u64) -> (r: Result<
        (State, Result<(), ControllerError>),
        ControllerError,
    >)
        requires
            self.wf(),
            now + 600_000 <= u64::MAX,
        ensures
            match r {
                Ok((t, verdict)) => {
                    &&& t.wf()
                    &&& revoke_all_spec(
                        self.state@,
                        "Interactive work takes priority"@,
                        Some((now + 600_000) as u64),
                    ) == Ok::<StateView, ControllerError>(t@)
                    &&& (verdict is Err <==> (t@.goals.contains_key(session) && (
                    t@.goals[session].eligible || t@.goals[session].grant is Some)))
                    &&& verdict is Err ==> verdict == Err::<(), ControllerError>(
                        ControllerError::ManualContinuationBlocked,
                    )
                },
                Err(e) => revoke_all_spec(
                    self.state@,
                    "Interactive work takes priority"@,
                    Some((now + 600_000) as u64),
                ) == Err::<StateView, ControllerError>(e),
            },
    {
        let next = match self.revoke_all("Interactive work takes priority", Some(now + 600_000)) {
            Err(e) => {
                return Err(e);
            },
            Ok(t) => t,
        };
        let (p, found) = find_session(&next.goals, session);
        proof {
            lemma_lookup(next.goals@, (p, found), session);
        }
        let blocked = found && (next.goals[p].eligible || next.goals[p].grant.is_some());
        if blocked {
            Ok((next, Err(ControllerError::ManualContinuationBlocked)))
        } else {
            Ok((next, Ok(())))
        }
    }
}

} // verus!
