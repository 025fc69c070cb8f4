//! Decisions the agent client takes around a thread's native goal: whether
//! the app server has a goal API at all, what a goal report changes, the
//! context a goal turn is steered with, how a pause ends, and when the
//! watchdog pauses a goal whose engine stalled.
use vstd::prelude::*;
use crate::goals::{NativeGoal, Progress, stagnant_guidance, steady_guidance};
use crate::text::{contains_seq, contains_str, is_blank, str_eq, trim, trim_str};

verus! {

/// What `str::to_lowercase` returns for `s` (full Unicode case mapping).
pub uninterp spec fn unicode_lowercase(s: Seq<char>) -> Seq<char>;

/// `str::to_lowercase`: the result is named [`unicode_lowercase`]; the
/// Unicode case tables it follows are not written out here.
#[verifier::external_body]
fn to_lowercase(s: &str) -> (r: String)
    ensures
        r@ == unicode_lowercase(s@),
{
    s.to_lowercase()
}

/// An error of a goal request that means the app server predates the goal
/// API (or has it switched off), given the error text and its lower-cased
/// form: then ordinary sessions go on without a goal.
pub open spec fn goal_api_missing_spec(error: Seq<char>, lowered: Seq<char>) -> bool {
    ||| contains_seq(error, "-32601"@)
    ||| contains_seq(lowered, "unknown method"@)
    ||| contains_seq(lowered, "method not found"@)
    ||| contains_seq(error, "unknown variant `thread/goal/get`"@)
    ||| contains_seq(error, "goals feature is disabled"@)
}

/// Whether an error, with `lowered` its lower-cased text, says that the goal
/// API is missing, as [`goal_api_missing_spec`] says.
pub fn goal_api_missing(error: &str, lowered: &str) -> (r: bool)
    ensures
        r == goal_api_missing_spec(error@, lowered@),
{
    contains_str(error, "-32601") || contains_str(lowered, "unknown method") || contains_str(
        lowered,
        "method not found",
    ) || contains_str(error, "unknown variant `thread/goal/get`") || contains_str(
        error,
        "goals feature is disabled",
    )
}

/// Whether the error of a goal request says that the goal API is missing.
pub fn goal_api_unavailable(error: &str) -> (r: bool)
    ensures
        r == goal_api_missing_spec(error@, unicode_lowercase(error@)),
{
    let lowered = to_lowercase(error);
    goal_api_missing(error, lowered.as_str())
}

/// What a goal report of the app server does to the goal the client holds.
#[derive(Clone, Copy, Debug, PartialEq, Eq, Structural)]
pub enum GoalReport {
    /// No goal is set: the client drops the one it held.
    Clear,
    /// The goal belongs to another thread (descendant agents never own the
    /// root goal): nothing changes.
    Ignore,
    /// The same goal, by objective and creation time: its reported state
    /// replaces the held one and the checklist is kept and saved.
    Refresh,
    /// A new goal: it is held with the checklist loaded for it.
    Load,
}

/// The action a goal report calls for, as plain values: `thread` is the
/// client's thread, `held` the objective and creation time of the goal it
/// holds, `reported` the thread, objective and creation time reported.
pub open spec fn goal_report_spec(
    thread: Option<Seq<char>>,
    held: Option<(Seq<char>, i64)>,
    reported: Option<(Seq<char>, Seq<char>, i64)>,
) -> GoalReport {
    match reported {
        None => GoalReport::Clear,
        Some((t, objective, created)) => if thread != Some(t) {
            GoalReport::Ignore
        } else if held == Some((objective, created)) {
            GoalReport::Refresh
        } else {
            GoalReport::Load
        },
    }
}

/// An optional text as a plain value.
pub open spec fn opt_str(o: Option<&str>) -> Option<Seq<char>> {
    match o {
        Some(s) => Some(s@),
        None => None,
    }
}

/// What a goal report does, as [`goal_report_spec`] says.
pub fn goal_report_action(thread: Option<&str>, held: Option<&NativeGoal>, reported: Option<&NativeGoal>) -> (r:
    GoalReport)
    ensures
        r == goal_report_spec(
            opt_str(thread),
            match held {
                Some(g) => Some((g.objective@, g.created_at)),
                None => None,
            },
            match reported {
                Some(g) => Some((g.thread_id@, g.objective@, g.created_at)),
                None => None,
            },
        ),
{
    let goal = match reported {
        None => {
            return GoalReport::Clear;
        },
        Some(g) => g,
    };
    let same_thread = match thread {
        Some(t) => str_eq(t, goal.thread_id.as_str()),
        None => false,
    };
    if !same_thread {
        return GoalReport::Ignore;
    }
    match held {
        Some(h) => {
            if str_eq(h.objective.as_str(), goal.objective.as_str()) && h.created_at == goal.created_at {
                GoalReport::Refresh
            } else {
                GoalReport::Load
            }
        },
        None => GoalReport::Load,
    }
}

/// The thread of a goal that an outside request may pause: only an active
/// goal is paused.
pub fn active_goal_thread(goal: Option<&NativeGoal>) -> (r: Option<String>)
    ensures
        match goal {
            Some(g) => if g.status@ == "active"@ {
                r is Some && r.unwrap()@ == g.thread_id@
            } else {
                r is None
            },
            None => r is None,
        },
{
    match goal {
        Some(g) => {
            if str_eq(g.status.as_str(), "active") {
                Some(g.thread_id.clone())
            } else {
                None
            }
        },
        None => None,
    }
}

/// The text a goal turn is steered with: the serialized checklist and the
/// guidance for the progress made.
pub open spec fn goal_context_spec(progress_json: Seq<char>, guidance: Seq<char>) -> Seq<char> {
    "VK durable goal checkpoint (supporting evidence; the full user objective and later corrections remain authoritative):\n"@
        + progress_json + "\n"@ + guidance
}

/// The context a new turn of the goal is steered with, for an active goal
/// only; `progress_json` is the serialized checklist.
pub fn goal_context(goal: &NativeGoal, progress: &Progress, progress_json: &str) -> (r: Option<String>)
    ensures
        goal.status@ == "active"@ ==> r is Some && r.unwrap()@ == goal_context_spec(
            progress_json@,
            if progress@.stagnant_turns >= 3 {
                stagnant_guidance()
            } else {
                steady_guidance()
            },
        ),
        goal.status@ != "active"@ ==> r is None,
{
    if !str_eq(goal.status.as_str(), "active") {
        return None;
    }
    let guidance = progress.guidance();
    Some(
        "VK durable goal checkpoint (supporting evidence; the full user objective and later corrections remain authoritative):\n".to_string().concat(
            progress_json,
        ).concat("\n").concat(guidance),
    )
}

/// How a goal pause ends once the pause was requested from the app server.
pub struct PauseOutcome {
    /// The line written to the execution log.
    pub message: String,
    /// The execution stops: the current turn, if any, is interrupted and the
    /// exit is signalled.
    pub stop: bool,
    /// The exit is a success (the pause was persisted).
    pub success: bool,
}

/// The log line of a pause: `persist_error` is the text of the error that
/// kept the pause from being persisted, if one did.
pub open spec fn pause_message_spec(reason: Seq<char>, persist_error: Option<Seq<char>>) -> Seq<char> {
    match persist_error {
        None => "Autonomous goal paused: "@ + reason,
        Some(e) => "Autonomous execution stopped; could not persist goal pause: "@ + e + ". "@ + reason,
    }
}

/// How a pause ends: the execution stops where the caller asked for it,
/// where the pause could not be persisted, or where no turn is running.
pub fn pause_outcome(reason: &str, persist_error: Option<&str>, exit_after_pause: bool, turn_running: bool) -> (r:
    PauseOutcome)
    ensures
        r.message@ == pause_message_spec(reason@, opt_str(persist_error)),
        r.stop == (exit_after_pause || persist_error is Some || !turn_running),
        r.success == (persist_error is None),
{
    let message = match persist_error {
        None => "Autonomous goal paused: ".to_string().concat(reason),
        Some(e) => "Autonomous execution stopped; could not persist goal pause: ".to_string().concat(e).concat(
            ". ",
        ).concat(reason),
    };
    PauseOutcome {
        message,
        stop: exit_after_pause || persist_error.is_some() || !turn_running,
        success: persist_error.is_none(),
    }
}

/// The reason the watchdog gives when the engine started no next turn.
pub open spec fn stalled_reason() -> Seq<char> {
    "The native goal engine did not start another turn; inspect the session before resuming."@
}

/// The watchdog's decision, some time after turn `completed_turn` of a goal
/// ended: it pauses the goal, for [`stalled_reason`], when the goal is still
/// active, that turn is still the last one counted and no turn is running.
pub fn watchdog_pause(goal_status: Option<&str>, last_turn: Option<&str>, completed_turn: &str, turn_running: bool) -> (r:
    Option<String>)
    ensures
        r is Some <==> (opt_str(goal_status) == Some("active"@) && opt_str(last_turn) == Some(completed_turn@)
            && !turn_running),
        r is Some ==> r.unwrap()@ == stalled_reason(),
{
    let active = match goal_status {
        Some(s) => str_eq(s, "active"),
        None => false,
    };
    let same_turn = match last_turn {
        Some(t) => str_eq(t, completed_turn),
        None => false,
    };
    if active && same_turn && !turn_running {
        Some(
            "The native goal engine did not start another turn; inspect the session before resuming.".to_string(),
        )
    } else {
        None
    }
}

/// The text a running turn is steered with: the message trimmed, where it
/// is not blank and both a thread and a running turn are known.
pub fn steer_text(message: &str, thread_id: Option<&str>, turn_id: Option<&str>) -> (r: Option<String>)
    ensures
        r is Some <==> (trim(message@).len() > 0 && thread_id is Some && turn_id is Some),
        r is Some ==> r.unwrap()@ == trim(message@),
{
    if is_blank(message) || thread_id.is_none() || turn_id.is_none() {
        return None;
    }
    Some(trim_str(message).to_string())
}

} // verus!
