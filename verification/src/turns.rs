//! Which coding-agent turn a follow-up request resumes: the latest turn of
//! the session, among the coding-agent runs that were not dropped, that
//! recorded an agent session.
use vstd::prelude::*;

verus! {

/// Session info from a coding agent turn, used for follow-up requests.
pub struct CodingAgentResumeInfo {
    pub session_id: String,
    pub message_id: Option<String>,
}

/// A turn of a session, with what the resume lookup reads of its run.
pub struct TurnRecord {
    /// When the turn's execution process was created, in milliseconds.
    pub created_at_ms: i64,
    /// The process ran the coding agent (not a setup or cleanup script).
    pub coding_agent: bool,
    /// The process was dropped from the session.
    pub dropped: bool,
    pub agent_session_id: Option<String>,
    pub agent_message_id: Option<String>,
}

/// A turn a follow-up may resume.
pub open spec fn resumable(t: TurnRecord) -> bool {
    t.coding_agent && !t.dropped && t.agent_session_id is Some
}

/// An optional text as a plain value.
pub open spec fn opt_text(o: Option<String>) -> Option<Seq<char>> {
    match o {
        Some(s) => Some(s@),
        None => None,
    }
}

/// Turn `i` is resumable and no resumable turn is later.
pub open spec fn latest_at(ts: Seq<TurnRecord>, i: int) -> bool {
    &&& 0 <= i < ts.len()
    &&& resumable(ts[i])
    &&& forall|j: int| 0 <= j < ts.len() && resumable(#[trigger] ts[j]) ==> ts[j].created_at_ms <= ts[i].created_at_ms
}

/// The session info of the latest resumable turn (of several equally late
/// ones, the first listed), or none where no turn is resumable.
pub fn find_latest_session_info(turns: &Vec<TurnRecord>) -> (r: Option<CodingAgentResumeInfo>)
    ensures
        match r {
            Some(info) => exists|i: int|
                latest_at(turns@, i) && opt_text(turns@[i].agent_session_id) == Some(info.session_id@)
                    && opt_text(turns@[i].agent_message_id) == opt_text(info.message_id) && forall|j: int|
                    0 <= j < i && resumable(#[trigger] turns@[j]) ==> turns@[j].created_at_ms
                        < turns@[i].created_at_ms,
            None => forall|j: int| 0 <= j < turns@.len() ==> !resumable(#[trigger] turns@[j]),
        },
{
    let mut best: Option<usize> = None;
    let mut k: usize = 0;
    while k < turns.len()
        invariant
            k <= turns@.len(),
            match best {
                Some(b) => b < k && resumable(turns@[b as int]) && (forall|j: int|
                    0 <= j < k && resumable(#[trigger] turns@[j]) ==> turns@[j].created_at_ms
                        <= turns@[b as int].created_at_ms) && (forall|j: int|
                    0 <= j < b && resumable(#[trigger] turns@[j]) ==> turns@[j].created_at_ms
                        < turns@[b as int].created_at_ms),
                None => forall|j: int| 0 <= j < k ==> !resumable(#[trigger] turns@[j]),
            },
        decreases turns@.len() - k,
    {
        let t = &turns[k];
        if t.coding_agent && !t.dropped && t.agent_session_id.is_some() {
            let better = match best {
                Some(b) => turns[b].created_at_ms < t.created_at_ms,
                None => true,
            };
            if better {
                best = Some(k);
            }
        }
        k = k + 1;
    }
    match best {
        None => None,
        Some(b) => {
            let t = &turns[b];
            let session_id = match &t.agent_session_id {
                Some(s) => s.clone(),
                None => {
                    return None;
                },
            };
            let message_id = match &t.agent_message_id {
                Some(m) => Some(m.clone()),
                None => None,
            };
            proof {
                assert(latest_at(turns@, b as int));
            }
            Some(CodingAgentResumeInfo { session_id, message_id })
        },
    }
}

} // verus!
