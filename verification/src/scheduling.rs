//! Rules of the private scheduling control plane: who may call it, which
//! native goals are candidates for unattended continuation, and when a
//! start is refused. No endpoint can redeem a reset.
use vstd::prelude::*;
use sha2::Digest;
use crate::controller::{GoalView, ManagedGoal, State};
use crate::goals::{all_complete_spec, NativeGoal, Progress};
use crate::lease::byte_len;
use crate::text::{has_prefix, is_blank, str_eq, strip_prefix_str, trim, trim_str};

verus! {

/// What SHA-256 gives for these bytes.
pub uninterp spec fn sha256(data: Seq<u8>) -> Seq<u8>;

/// `Sha256::digest`: the 32-byte SHA-256 digest of the bytes.
#[verifier::external_body]
fn sha256_digest(data: &[u8]) -> (r: Vec<u8>)
    ensures
        r@ == sha256(data@),
        r@.len() == 32,
{
    sha2::Sha256::digest(data).to_vec()
}

/// The token file may be trusted: an absolute path to a regular file of at
/// most 1024 bytes that neither its group nor others may access.
pub open spec fn token_file_usable(absolute: bool, mode: u32, is_file: bool, len: u64) -> bool {
    absolute && mode & 63 == 0 && is_file && len <= 1024
}

/// Whether the token file, as its metadata describes it, may be trusted.
pub fn check_token_file(absolute: bool, mode: u32, is_file: bool, len: u64) -> (r: bool)
    ensures
        r == token_file_usable(absolute, mode, is_file, len),
{
    absolute && mode & 63 == 0 && is_file && len <= 1024
}

/// The UTF-8 bytes of a text.
pub open spec fn utf8(s: Seq<char>) -> Seq<u8> {
    vstd::utf8::encode_utf8(s)
}

/// A caller is authorized by a bearer token whose SHA-256 digest equals
/// that of the configured token, trimmed, which must be at least 32 bytes.
pub open spec fn authorized(expected: Seq<char>, authorization: Option<Seq<char>>) -> bool {
    match authorization {
        Some(h) => {
            let b = "Bearer "@;
            &&& has_prefix(h, b)
            &&& byte_len(trim(expected)) >= 32
            &&& sha256(utf8(trim(expected))) == sha256(utf8(h.subrange(b.len() as int, h.len() as int)))
        },
        None => false,
    }
}

/// A request without the right token.
#[derive(Clone, Copy, Debug, PartialEq, Eq, Structural)]
pub struct Unauthorized;

proof fn lemma_or_xor_zero(d: u8, x: u8, y: u8)
    ensures
        ((d | (x ^ y)) == 0) <==> (d == 0 && x == y),
{
    assert(((d | (x ^ y)) == 0) <==> (d == 0 && x == y)) by (bit_vector);
}

/// Checks the `authorization` header against the configured token, as
/// [`authorized`] says, comparing digests in constant time.
pub fn authorize_token(expected: &str, authorization: Option<&str>) -> (r: Result<(), Unauthorized>)
    ensures
        r is Ok <==> authorized(
            expected@,
            match authorization {
                Some(h) => Some(h@),
                None => None,
            },
        ),
{
    let supplied = match authorization {
        Some(h) => match strip_prefix_str(h, "Bearer ") {
            Some(s) => s,
            None => {
                return Err(Unauthorized);
            },
        },
        None => {
            return Err(Unauthorized);
        },
    };
    let e = trim_str(expected);
    if e.len() < 32 {
        return Err(Unauthorized);
    }
    let a = sha256_digest(e.as_bytes());
    let b = sha256_digest(supplied.as_bytes());
    let mut diff: u8 = 0;
    let mut i: usize = 0;
    while i < 32
        invariant
            a@.len() == 32,
            b@.len() == 32,
            i <= 32,
            (diff == 0) <==> (forall|k: int| 0 <= k < i ==> a@[k] == b@[k]),
        decreases 32 - i,
    {
        proof {
            lemma_or_xor_zero(diff, a@[i as int], b@[i as int]);
        }
        diff = diff | (a[i] ^ b[i]);
        i = i + 1;
    }
    proof {
        if diff == 0 {
            assert(a@ =~= b@);
        } else {
            if a@ == b@ {
                assert(forall|k: int| 0 <= k < 32 ==> a@[k] == b@[k]);
            }
        }
    }
    if diff != 0 {
        Err(Unauthorized)
    } else {
        Ok(())
    }
}

/// Why a session's goal is not a candidate for unattended continuation.
#[derive(Clone, Copy, Debug, PartialEq, Eq, Structural)]
pub enum CandidateError {
    /// The session has no native thread.
    NoNativeThread,
    /// The goal is blank, complete, or paused for the user.
    NoUnfinishedGoal,
    /// The native goal was deleted.
    NativeGoalGone,
    /// The native goal is not the one the progress belongs to.
    GoalChanged,
}

impl CandidateError {
    /// The message of the refusal.
    pub fn message(&self) -> (r: &'static str)
        ensures
            r@ == match *self {
                CandidateError::NoNativeThread => "No existing native thread"@,
                CandidateError::NoUnfinishedGoal => "No unfinished goal available without user input"@,
                CandidateError::NativeGoalGone => "Native goal no longer exists"@,
                CandidateError::GoalChanged => "Goal changed; refresh its progress before selecting it"@,
            },
    {
        match self {
            CandidateError::NoNativeThread => "No existing native thread",
            CandidateError::NoUnfinishedGoal => "No unfinished goal available without user input",
            CandidateError::NativeGoalGone => "Native goal no longer exists",
            CandidateError::GoalChanged => "Goal changed; refresh its progress before selecting it",
        }
    }
}

/// The wire spelling of a goal status stored in the native goal database.
pub open spec fn wire_status(stored: Seq<char>) -> Seq<char> {
    if stored == "usage_limited"@ {
        "usageLimited"@
    } else if stored == "budget_limited"@ {
        "budgetLimited"@
    } else {
        stored
    }
}

/// Seconds of a time in milliseconds, rounded toward zero.
pub open spec fn whole_seconds(ms: i64) -> i64 {
    if ms >= 0 {
        (ms / 1000) as i64
    } else {
        (-((-ms) / 1000)) as i64
    }
}

/// A native goal as its database row records it: its status in wire
/// spelling, its creation time in seconds.
pub fn native_goal_from_row(thread_id: String, objective: String, status: String, created_at_ms: i64) -> (r:
    NativeGoal)
    ensures
        r.thread_id@ == thread_id@,
        r.objective@ == objective@,
        r.status@ == wire_status(status@),
        r.created_at == whole_seconds(created_at_ms),
{
    let status = if str_eq(status.as_str(), "usage_limited") {
        String::from_str("usageLimited")
    } else if str_eq(status.as_str(), "budget_limited") {
        String::from_str("budgetLimited")
    } else {
        status
    };
    NativeGoal { thread_id, objective, status, created_at: created_at_ms / 1000 }
}

/// The managed goal a session offers for unattended continuation: its
/// goal must be unfinished and not waiting for the user, and the native
/// goal must still exist with the same objective and creation time.
pub open spec fn candidate_spec(
    session_id: u128,
    thread_id: Option<Seq<char>>,
    progress: crate::goals::ProgressView,
    native: Option<(Seq<char>, i64)>,
) -> Result<GoalView, CandidateError> {
    match thread_id {
        None => Err(CandidateError::NoNativeThread),
        Some(t) => if trim(progress.objective).len() == 0 || all_complete_spec(progress)
            || progress.pause_reason is Some {
            Err(CandidateError::NoUnfinishedGoal)
        } else {
            match native {
                None => Err(CandidateError::NativeGoalGone),
                Some((objective, created_at)) => if objective != progress.objective || created_at
                    != progress.created_at {
                    Err(CandidateError::GoalChanged)
                } else {
                    Ok(
                        GoalView {
                            session_id,
                            thread_id: t,
                            objective: progress.objective,
                            created_at: progress.created_at,
                            eligible: true,
                            reason: Seq::empty(),
                            grant: None,
                        },
                    )
                },
            }
        },
    }
}

/// The candidate goal of a session, as [`candidate_spec`] says, from the
/// session's native thread, its stored progress and its native goal.
pub fn candidate_goal(
    session_id: u128,
    thread_id: Option<String>,
    progress: &Progress,
    native: Option<&NativeGoal>,
) -> (r: Result<ManagedGoal, CandidateError>)
    ensures
        match r {
            Ok(g) => candidate_spec(
                session_id,
                match thread_id {
                    Some(t) => Some(t@),
                    None => None,
                },
                progress@,
                match native {
                    Some(n) => Some((n.objective@, n.created_at)),
                    None => None,
                },
            ) == Ok::<GoalView, CandidateError>(g@),
            Err(e) => candidate_spec(
                session_id,
                match thread_id {
                    Some(t) => Some(t@),
                    None => None,
                },
                progress@,
                match native {
                    Some(n) => Some((n.objective@, n.created_at)),
                    None => None,
                },
            ) == Err::<GoalView, CandidateError>(e),
        },
{
    let t = match thread_id {
        Some(t) => t,
        None => {
            return Err(CandidateError::NoNativeThread);
        },
    };
    if is_blank(progress.objective.as_str()) || progress.all_complete() || progress.pause_reason.is_some() {
        return Err(CandidateError::NoUnfinishedGoal);
    }
    let n = match native {
        Some(n) => n,
        None => {
            return Err(CandidateError::NativeGoalGone);
        },
    };
    if !str_eq(n.objective.as_str(), progress.objective.as_str()) || n.created_at != progress.created_at {
        return Err(CandidateError::GoalChanged);
    }
    let g = ManagedGoal {
        session_id,
        thread_id: t,
        objective: progress.objective.clone(),
        created_at: progress.created_at,
        eligible: true,
        reason: String::new(),
        grant: None,
    };
    proof {
        assert(g@.reason =~= Seq::<char>::empty());
    }
    Ok(g)
}

/// The goal selected for a session is still the one that is ready: same
/// thread, objective and creation time.
pub fn selection_matches(selected: &ManagedGoal, ready: &ManagedGoal) -> (r: bool)
    ensures
        r == (selected@.thread_id == ready@.thread_id && selected@.objective == ready@.objective
            && selected@.created_at == ready@.created_at),
{
    str_eq(selected.thread_id.as_str(), ready.thread_id.as_str()) && str_eq(
        selected.objective.as_str(),
        ready.objective.as_str(),
    ) && selected.created_at == ready.created_at
}

/// Some running coding-agent execution holds no grant: interactive work
/// is under way.
pub open spec fn foreground_spec(running: Seq<(u128, bool)>, goals: Seq<GoalView>) -> bool {
    exists|i: int|
        0 <= i < running.len() && running[i].1 && !exists|k: int|
            0 <= k < goals.len() && (#[trigger] goals[k]).grant is Some && goals[k].grant->0.execution_id
                == Some(#[trigger] running[i].0)
}

/// Whether interactive work is under way: `running` lists the running
/// executions, each with whether it runs a coding agent.
pub fn foreground_active(running: &Vec<(u128, bool)>, state: &State) -> (r: bool)
    ensures
        r == foreground_spec(running@, crate::controller::goal_views(state.goals@)),
{
    let ghost gv = crate::controller::goal_views(state.goals@);
    let mut i: usize = 0;
    while i < running.len()
        invariant
            i <= running@.len(),
            gv == crate::controller::goal_views(state.goals@),
            forall|j: int|
                0 <= j < i ==> !(running@[j].1 && !exists|k: int|
                    0 <= k < gv.len() && (#[trigger] gv[k]).grant is Some && gv[k].grant->0.execution_id
                        == Some(running@[j].0)),
        decreases running@.len() - i,
    {
        if running[i].1 {
            let id = running[i].0;
            let mut k: usize = 0;
            let mut bound = false;
            while k < state.goals.len()
                invariant
                    k <= state.goals@.len(),
                    gv == crate::controller::goal_views(state.goals@),
                    bound == exists|m: int|
                        0 <= m < k && (#[trigger] gv[m]).grant is Some && gv[m].grant->0.execution_id == Some(id),
                decreases state.goals@.len() - k,
            {
                let hit = match &state.goals[k].grant {
                    Some(g) => g.execution_id == Some(id),
                    None => false,
                };
                proof {
                    assert(gv[k as int] == state.goals@[k as int]@);
                }
                if hit {
                    bound = true;
                }
                proof {
                    if hit {
                        assert(gv[k as int].grant is Some && gv[k as int].grant->0.execution_id == Some(id));
                    }
                }
                k = k + 1;
            }
            if !bound {
                proof {
                    assert(running@[i as int].1 && !exists|m: int|
                        0 <= m < gv.len() && (#[trigger] gv[m]).grant is Some && gv[m].grant->0.execution_id
                            == Some(running@[i as int].0));
                }
                return true;
            }
        }
        i = i + 1;
    }
    false
}

/// A stop reason may hold at most 500 bytes.
pub fn stop_reason_ok(reason: &str) -> (r: bool)
    ensures
        r == (byte_len(reason@) <= 500),
{
    reason.len() <= 500
}


/// Whether a scheduled start uses the executor configuration saved with
/// the chat's draft rather than that of its latest execution: the draft's
/// selection, where there is one, counts when it was saved no earlier than
/// that execution's.
pub fn use_draft_config(selected_at_ms: i64, draft_updated_at_ms: Option<i64>) -> (r: bool)
    ensures
        r == (match draft_updated_at_ms {
            Some(d) => d >= selected_at_ms,
            None => false,
        }),
{
    match draft_updated_at_ms {
        Some(d) => d >= selected_at_ms,
        None => false,
    }
}

} // verus!
