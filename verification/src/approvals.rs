//! How the coding-agent client answers the app server: approvals of
//! commands and file changes, the review of a completed plan, answers to
//! the agent's questions, and the feedback queued for the next turn.
use vstd::prelude::*;
use crate::text::{str_eq, trim, trim_str};

verus! {

/// What the user decided on a tool approval request.
pub enum ApprovalStatus {
    Approved,
    /// Denied, with the reason the user gave, if any.
    Denied { reason: Option<String> },
    TimedOut,
    Pending,
}

/// The answer sent to an approval request.
#[derive(Clone, Copy, Debug, PartialEq, Eq, Structural)]
pub enum ApprovalDecision {
    /// Accept this and every later request of the session.
    AcceptForSession,
    Accept,
    /// Decline and stop the turn, so that feedback can follow.
    Cancel,
    Decline,
}

/// The feedback a denial carries: its reason, trimmed, where it is not blank.
pub open spec fn denial_feedback_spec(reason: Option<Seq<char>>) -> Option<Seq<char>> {
    match reason {
        Some(r) => if trim(r).len() > 0 {
            Some(trim(r))
        } else {
            None
        },
        None => None,
    }
}

/// An optional text as a plain value.
pub open spec fn opt_text(o: Option<String>) -> Option<Seq<char>> {
    match o {
        Some(s) => Some(s@),
        None => None,
    }
}

/// The feedback a denial carries, as [`denial_feedback_spec`] says.
pub fn denial_feedback(reason: &Option<String>) -> (r: Option<String>)
    ensures
        opt_text(r) == denial_feedback_spec(opt_text(*reason)),
{
    match reason {
        Some(text) => {
            let t = trim_str(text.as_str());
            if t.unicode_len() > 0 {
                Some(String::from_str(t))
            } else {
                None
            }
        },
        None => None,
    }
}

/// The answer to an approval request and the feedback to queue: with
/// automatic approval everything is accepted for the session; an approval
/// accepts; a denial with feedback cancels the turn and queues it; any
/// other denial, a timeout or a pending request declines.
pub open spec fn decision_spec(auto_approve: bool, status: ApprovalStatus) -> (ApprovalDecision, Option<Seq<char>>) {
    if auto_approve {
        (ApprovalDecision::AcceptForSession, None)
    } else {
        match status {
            ApprovalStatus::Approved => (ApprovalDecision::Accept, None),
            ApprovalStatus::Denied { reason } => match denial_feedback_spec(opt_text(reason)) {
                Some(f) => (ApprovalDecision::Cancel, Some(f)),
                None => (ApprovalDecision::Decline, None),
            },
            _ => (ApprovalDecision::Decline, None),
        }
    }
}

fn approval_decision(auto_approve: bool, status: &ApprovalStatus) -> (r: (ApprovalDecision, Option<String>))
    ensures
        (r.0, opt_text(r.1)) == decision_spec(auto_approve, *status),
{
    if auto_approve {
        return (ApprovalDecision::AcceptForSession, None);
    }
    match status {
        ApprovalStatus::Approved => (ApprovalDecision::Accept, None),
        ApprovalStatus::Denied { reason } => match denial_feedback(reason) {
            Some(f) => (ApprovalDecision::Cancel, Some(f)),
            None => (ApprovalDecision::Decline, None),
        },
        _ => (ApprovalDecision::Decline, None),
    }
}

/// The answer to a command execution approval request, as
/// [`decision_spec`] says.
pub fn command_execution_decision(auto_approve: bool, status: &ApprovalStatus) -> (r: (
    ApprovalDecision,
    Option<String>,
))
    ensures
        (r.0, opt_text(r.1)) == decision_spec(auto_approve, *status),
{
    approval_decision(auto_approve, status)
}

/// The answer to a file change approval request, as [`decision_spec`] says.
pub fn file_change_decision(auto_approve: bool, status: &ApprovalStatus) -> (r: (
    ApprovalDecision,
    Option<String>,
))
    ensures
        (r.0, opt_text(r.1)) == decision_spec(auto_approve, *status),
{
    approval_decision(auto_approve, status)
}

/// The collaboration mode of a turn the client starts.
#[derive(Clone, Copy, Debug, PartialEq, Eq, Structural)]
pub enum TurnMode {
    Default,
    Plan,
}

/// What follows the user's review of a completed plan.
pub enum PlanAction {
    /// The execution ends.
    Finish,
    /// A new turn starts with this message, in this mode.
    StartTurn { message: String, mode: TurnMode },
}

/// What follows the review of a completed plan: without a thread the
/// execution ends; an approval starts the implementation; a denial with
/// feedback starts another planning turn with it; anything else ends the
/// execution.
pub open spec fn plan_action_spec(has_thread: bool, status: ApprovalStatus) -> Option<(Seq<char>, TurnMode)> {
    if !has_thread {
        None
    } else {
        match status {
            ApprovalStatus::Approved => Some(("Implement the plan."@, TurnMode::Default)),
            ApprovalStatus::Denied { reason } => match denial_feedback_spec(opt_text(reason)) {
                Some(f) => Some(("User feedback on the plan: "@ + f, TurnMode::Plan)),
                None => None,
            },
            _ => None,
        }
    }
}

/// What follows the review of a completed plan, as [`plan_action_spec`]
/// says (`None` there is [`PlanAction::Finish`]).
pub fn plan_completed_action(has_thread: bool, status: &ApprovalStatus) -> (r: PlanAction)
    ensures
        match r {
            PlanAction::Finish => plan_action_spec(has_thread, *status) is None,
            PlanAction::StartTurn { message, mode } => plan_action_spec(has_thread, *status) == Some(
                (message@, mode),
            ),
        },
{
    if !has_thread {
        return PlanAction::Finish;
    }
    match status {
        ApprovalStatus::Approved => PlanAction::StartTurn {
            message: String::from_str("Implement the plan."),
            mode: TurnMode::Default,
        },
        ApprovalStatus::Denied { reason } => match denial_feedback(reason) {
            Some(f) => PlanAction::StartTurn {
                message: "User feedback on the plan: ".to_string().concat(f.as_str()),
                mode: TurnMode::Plan,
            },
            None => PlanAction::Finish,
        },
        _ => PlanAction::Finish,
    }
}

/// Notifications that are not written to the execution log: rate limit
/// updates.
pub fn should_log_notification(method: &str) -> (r: bool)
    ensures
        r == (method@ != "account/rateLimits/updated"@),
{
    !str_eq(method, "account/rateLimits/updated")
}

/// A checkpoint call is taken only from the current turn of the root
/// thread.
pub fn checkpoint_call_allowed(
    thread_id: Option<&str>,
    current_turn_id: Option<&str>,
    call_thread_id: &str,
    call_turn_id: &str,
) -> (r: bool)
    ensures
        r == (match (thread_id, current_turn_id) {
            (Some(t), Some(u)) => t@ == call_thread_id@ && u@ == call_turn_id@,
            _ => false,
        }),
{
    match (thread_id, current_turn_id) {
        (Some(t), Some(u)) => str_eq(t, call_thread_id) && str_eq(u, call_turn_id),
        _ => false,
    }
}

/// The messages that queued feedback turns carry: each trimmed, the blank
/// ones left out.
pub open spec fn feedback_spec(ms: Seq<Seq<char>>) -> Seq<Seq<char>>
    decreases ms.len(),
{
    if ms.len() == 0 {
        Seq::empty()
    } else {
        let rest = feedback_spec(ms.drop_last());
        if trim(ms.last()).len() > 0 {
            rest.push(trim(ms.last()))
        } else {
            rest
        }
    }
}

/// Texts as plain values.
pub open spec fn texts(xs: Seq<String>) -> Seq<Seq<char>> {
    crate::text::text_views(xs)
}

/// The messages of queued feedback to send, as [`feedback_spec`] says.
pub fn feedback_messages(messages: &Vec<String>) -> (r: Vec<String>)
    ensures
        texts(r@) == feedback_spec(texts(messages@)),
{
    let ghost v = texts(messages@);
    let mut out: Vec<String> = Vec::new();
    let mut i: usize = 0;
    while i < messages.len()
        invariant
            i <= messages@.len(),
            v == texts(messages@),
            texts(out@) == feedback_spec(v.subrange(0, i as int)),
        decreases messages@.len() - i,
    {
        proof {
            assert(v.subrange(0, i + 1).drop_last() =~= v.subrange(0, i as int));
        }
        let t = trim_str(messages[i].as_str());
        if t.unicode_len() > 0 {
            let ghost before = out@;
            out.push(String::from_str(t));
            proof {
                assert(texts(out@) =~= texts(before).push(t@));
            }
        }
        i = i + 1;
    }
    proof {
        assert(v.subrange(0, messages@.len() as int) =~= v);
    }
    out
}

/// A question the agent asks the user.
pub struct Question {
    pub id: String,
    pub question: String,
}

/// The answer the user gave to a question, by its text: the last answer
/// recorded for it.
pub open spec fn answer_for(answers: Seq<(Seq<char>, Seq<Seq<char>>)>, q: Seq<char>) -> Option<Seq<Seq<char>>>
    decreases answers.len(),
{
    if answers.len() == 0 {
        None
    } else if answers.last().0 == q {
        Some(answers.last().1)
    } else {
        answer_for(answers.drop_last(), q)
    }
}

/// The answers as plain values.
pub open spec fn answer_views(answers: Seq<(String, Vec<String>)>) -> Seq<(Seq<char>, Seq<Seq<char>>)> {
    answers.map_values(|a: (String, Vec<String>)| (a.0@, texts(a.1@)))
}

/// The answers keyed by question id, in the order of the questions: each
/// question that has an answer.
pub open spec fn codex_answers(qs: Seq<(Seq<char>, Seq<char>)>, answers: Seq<(Seq<char>, Seq<Seq<char>>)>) -> Seq<
    (Seq<char>, Seq<Seq<char>>),
>
    decreases qs.len(),
{
    if qs.len() == 0 {
        Seq::empty()
    } else {
        let rest = codex_answers(qs.drop_last(), answers);
        match answer_for(answers, qs.last().1) {
            Some(a) => rest.push((qs.last().0, a)),
            None => rest,
        }
    }
}

/// The questions as plain values.
pub open spec fn question_views(qs: Seq<Question>) -> Seq<(Seq<char>, Seq<char>)> {
    qs.map_values(|q: Question| (q.id@, q.question@))
}

fn find_answer(answers: &Vec<(String, Vec<String>)>, q: &str) -> (r: Option<usize>)
    ensures
        match r {
            Some(k) => k < answers@.len() && answer_for(answer_views(answers@), q@) == Some(
                texts(answers@[k as int].1@),
            ),
            None => answer_for(answer_views(answers@), q@) is None,
        },
{
    let ghost v = answer_views(answers@);
    let mut k: usize = answers.len();
    proof {
        assert(v.subrange(0, k as int) =~= v);
    }
    while k > 0
        invariant
            k <= answers@.len(),
            v == answer_views(answers@),
            answer_for(v, q@) == answer_for(v.subrange(0, k as int), q@),
        decreases k,
    {
        proof {
            let t = v.subrange(0, k as int);
            assert(t.drop_last() =~= v.subrange(0, k - 1));
        }
        if str_eq(answers[k - 1].0.as_str(), q) {
            return Some(k - 1);
        }
        k = k - 1;
    }
    None
}

/// The user's answers, given by question text, keyed by question id for
/// the agent, as [`codex_answers`] says.
pub fn answers_to_codex_format(questions: &Vec<Question>, answers: &Vec<(String, Vec<String>)>) -> (r: Vec<
    (String, Vec<String>),
>)
    ensures
        answer_views(r@) == codex_answers(question_views(questions@), answer_views(answers@)),
{
    let ghost qv = question_views(questions@);
    let mut out: Vec<(String, Vec<String>)> = Vec::new();
    let mut i: usize = 0;
    while i < questions.len()
        invariant
            i <= questions@.len(),
            qv == question_views(questions@),
            answer_views(out@) == codex_answers(qv.subrange(0, i as int), answer_views(answers@)),
        decreases questions@.len() - i,
    {
        proof {
            assert(qv.subrange(0, i + 1).drop_last() =~= qv.subrange(0, i as int));
        }
        match find_answer(answers, questions[i].question.as_str()) {
            Some(k) => {
                let ghost before = out@;
                out.push((questions[i].id.clone(), crate::text::copy_texts(&answers[k].1)));
                proof {
                    assert(answer_views(out@) =~= answer_views(before).push(
                        (questions@[i as int].id@, texts(answers@[k as int].1@)),
                    ));
                }
            },
            None => {},
        }
        i = i + 1;
    }
    proof {
        assert(qv.subrange(0, questions@.len() as int) =~= qv);
    }
    out
}


/// The follow-up queued after a denial that carried feedback.
pub fn queued_feedback(message: &str) -> (r: String)
    ensures
        r@ == "User feedback: "@ + message@,
{
    "User feedback: ".to_string().concat(message)
}

/// How the client answers a dynamic tool call.
pub enum DynamicToolAnswer {
    /// Run the checkpoint against the active goal and answer with its
    /// outcome.
    RunCheckpoint,
    /// Refuse with this text.
    Refuse(String),
}

/// The answer to a dynamic tool call: the goal checkpoint tool is run only
/// from the current turn of the root thread and only while a native goal is
/// active; any other tool is refused as unsupported.
pub open spec fn dynamic_tool_spec(tool: Seq<char>, from_current_turn: bool, goal_active: bool) -> Result<(), Seq<char>> {
    if tool == crate::goals::TOOL@ {
        if !from_current_turn {
            Err("Checkpoint must belong to the current root turn."@)
        } else if !goal_active {
            Err("No active native goal. Do not create a goal without user authorization."@)
        } else {
            Ok(())
        }
    } else {
        Err("Dynamic tool '"@ + tool + "' is not supported by this client."@)
    }
}

/// The answer to a dynamic tool call, as [`dynamic_tool_spec`] says;
/// `from_current_turn` tells whether the call came from the current turn of
/// the root thread (see [`checkpoint_call_allowed`]).
pub fn dynamic_tool_answer(tool: &str, from_current_turn: bool, goal_active: bool) -> (r: DynamicToolAnswer)
    ensures
        match r {
            DynamicToolAnswer::RunCheckpoint => dynamic_tool_spec(tool@, from_current_turn, goal_active) is Ok,
            DynamicToolAnswer::Refuse(text) => dynamic_tool_spec(tool@, from_current_turn, goal_active) == Err::<
                (),
                Seq<char>,
            >(text@),
        },
{
    if str_eq(tool, crate::goals::TOOL) {
        if !from_current_turn {
            DynamicToolAnswer::Refuse(String::from_str("Checkpoint must belong to the current root turn."))
        } else if !goal_active {
            DynamicToolAnswer::Refuse(
                String::from_str("No active native goal. Do not create a goal without user authorization."),
            )
        } else {
            DynamicToolAnswer::RunCheckpoint
        }
    } else {
        DynamicToolAnswer::Refuse(
            "Dynamic tool '".to_string().concat(tool).concat("' is not supported by this client."),
        )
    }
}


/// How a turn of the agent ended.
#[derive(Clone, Copy, Debug, PartialEq, Eq, Structural)]
pub enum CompletedTurnStatus {
    Completed,
    Interrupted,
    Failed,
    InProgress,
}

/// Whether the feedback queued for the agent is sent when a turn ends:
/// after an interruption, or whenever feedback is waiting.
pub fn flush_feedback_after_turn(status: CompletedTurnStatus, has_pending_feedback: bool) -> (r: bool)
    ensures
        r == (status == CompletedTurnStatus::Interrupted || has_pending_feedback),
{
    status == CompletedTurnStatus::Interrupted || has_pending_feedback
}

/// What follows the end of a turn.
#[derive(Clone, Copy, Debug, PartialEq, Eq, Structural)]
pub enum AfterTurn {
    /// Queued feedback started another turn: the execution goes on.
    KeepAlive,
    /// The turn completed: the goal decides whether another turn follows.
    ContinueGoal,
    /// The turn failed or was interrupted without follow-up: the execution
    /// ends.
    Finish,
}

/// What follows the end of a turn, once queued feedback was sent where
/// [`flush_feedback_after_turn`] asked for it (`flushed` tells whether that
/// started a new turn): errors and interruptions never continue a goal.
pub fn after_turn(status: CompletedTurnStatus, flushed: bool) -> (r: AfterTurn)
    ensures
        r == (if flushed {
            AfterTurn::KeepAlive
        } else if status == CompletedTurnStatus::Completed {
            AfterTurn::ContinueGoal
        } else {
            AfterTurn::Finish
        }),
{
    if flushed {
        AfterTurn::KeepAlive
    } else if status == CompletedTurnStatus::Completed {
        AfterTurn::ContinueGoal
    } else {
        AfterTurn::Finish
    }
}

} // verus!
