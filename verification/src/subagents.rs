//! Sub-agent jobs of a coding session: the status a Codex spawn edge
//! stands for, the merging of the records of one agent, and the counts of
//! active agents per session. Times are nanoseconds since the Unix epoch.
use vstd::prelude::*;
use std::collections::HashMap;
use crate::order::{is_stable_order, lemma_stable_order_covers, lemma_stable_order_distinct, stable_order};
use crate::text::str_eq;

verus! {

broadcast use vstd::std_specs::hash::group_hash_axioms;

/// Status of a sub-agent job.
#[derive(Clone, Copy, Debug, PartialEq, Eq, Structural)]
pub enum SubagentJobStatus {
    Unresolved,
    Running,
    Completed,
    NotFound,
    Failed,
}

impl SubagentJobStatus {
    /// Completed or failed: the job will not change again.
    pub open spec fn terminal(self) -> bool {
        self == SubagentJobStatus::Completed || self == SubagentJobStatus::Failed
    }

    /// Whether the job has finished, one way or the other.
    pub fn is_terminal(&self) -> (r: bool)
        ensures
            r == self.terminal(),
    {
        match self {
            SubagentJobStatus::Completed | SubagentJobStatus::Failed => true,
            _ => false,
        }
    }
}

/// How much a status says that the agent is still alive: running above
/// unresolved above not found above failed above completed.
pub open spec fn rank(s: SubagentJobStatus) -> u8 {
    match s {
        SubagentJobStatus::Running => 4,
        SubagentJobStatus::Unresolved => 3,
        SubagentJobStatus::NotFound => 2,
        SubagentJobStatus::Failed => 1,
        SubagentJobStatus::Completed => 0,
    }
}

/// The rank of a status, as [`rank`] says.
pub fn status_rank(status: &SubagentJobStatus) -> (r: u8)
    ensures
        r == rank(*status),
{
    match status {
        SubagentJobStatus::Running => 4,
        SubagentJobStatus::Unresolved => 3,
        SubagentJobStatus::NotFound => 2,
        SubagentJobStatus::Failed => 1,
        SubagentJobStatus::Completed => 0,
    }
}

/// How long after its parent turn completed an open spawn edge still counts
/// as a running child: 30 seconds.
pub const STALE_EDGE_NS: i128 = 30_000_000_000;

/// The status a Codex spawn edge stands for: `closed` is completed; `open`
/// is running unless the parent turn completed and the child has not been
/// updated more than 30 seconds after that; anything else is unresolved.
pub open spec fn edge_status_spec(edge: Seq<char>, child_updated: Option<i128>, parent_completed: Option<i128>) -> SubagentJobStatus {
    if edge == "closed"@ {
        SubagentJobStatus::Completed
    } else if edge == "open"@ {
        match parent_completed {
            Some(p) => match child_updated {
                Some(u) => if u <= p + STALE_EDGE_NS {
                    SubagentJobStatus::Completed
                } else {
                    SubagentJobStatus::Running
                },
                None => SubagentJobStatus::Completed,
            },
            None => SubagentJobStatus::Running,
        }
    } else {
        SubagentJobStatus::Unresolved
    }
}

/// The status of a child thread from its spawn edge, as
/// [`edge_status_spec`] says.
pub fn codex_edge_status(
    edge_status: &str,
    child_updated_at_ns: Option<i128>,
    parent_completed_at_ns: Option<i128>,
) -> (r: SubagentJobStatus)
    ensures
        r == edge_status_spec(edge_status@, child_updated_at_ns, parent_completed_at_ns),
{
    if str_eq(edge_status, "closed") {
        SubagentJobStatus::Completed
    } else if str_eq(edge_status, "open") {
        match parent_completed_at_ns {
            Some(p) => {
                let stale = match child_updated_at_ns {
                    Some(u) => match p.checked_add(STALE_EDGE_NS) {
                        Some(cutoff) => u <= cutoff,
                        None => true,
                    },
                    None => true,
                };
                if stale {
                    SubagentJobStatus::Completed
                } else {
                    SubagentJobStatus::Running
                }
            },
            None => SubagentJobStatus::Running,
        }
    } else {
        SubagentJobStatus::Unresolved
    }
}

/// Active sub-agents of a session.
#[derive(Clone, Copy, Debug, PartialEq, Eq, Structural)]
pub struct SubagentJobCounts {
    pub running: usize,
    pub unresolved: usize,
}

impl SubagentJobCounts {
    /// No active agents.
    pub fn zero() -> (r: SubagentJobCounts)
        ensures
            r == zero_counts(),
    {
        SubagentJobCounts { running: 0, unresolved: 0 }
    }
}

/// No active agents.
pub open spec fn zero_counts() -> SubagentJobCounts {
    SubagentJobCounts { running: 0, unresolved: 0 }
}

/// The counts with one more job of the given status: running jobs count as
/// running, unresolved and not-found ones as unresolved, finished ones not
/// at all.
pub open spec fn bumped(c: SubagentJobCounts, s: SubagentJobStatus) -> SubagentJobCounts {
    match s {
        SubagentJobStatus::Running => SubagentJobCounts { running: (c.running + 1) as usize, ..c },
        SubagentJobStatus::Unresolved | SubagentJobStatus::NotFound => SubagentJobCounts {
            unresolved: (c.unresolved + 1) as usize,
            ..c
        },
        _ => c,
    }
}

/// The counts of a session in a map of them (zero where it has none).
pub open spec fn counts_of(m: Map<u128, SubagentJobCounts>, session: u128) -> SubagentJobCounts {
    if m.contains_key(session) {
        m[session]
    } else {
        zero_counts()
    }
}

/// Counts one job of a session; the session gets an entry even where the
/// job is finished.
pub fn increment_active_count(
    counts: &mut HashMap<u128, SubagentJobCounts>,
    session_id: u128,
    status: &SubagentJobStatus,
)
    requires
        counts_of(old(counts)@, session_id).running < usize::MAX,
        counts_of(old(counts)@, session_id).unresolved < usize::MAX,
    ensures
        final(counts)@ == old(counts)@.insert(
            session_id,
            bumped(counts_of(old(counts)@, session_id), *status),
        ),
{
    let cur = match counts.get(&session_id) {
        Some(c) => *c,
        None => SubagentJobCounts::zero(),
    };
    let next = match status {
        SubagentJobStatus::Running => SubagentJobCounts { running: cur.running + 1, ..cur },
        SubagentJobStatus::Unresolved | SubagentJobStatus::NotFound => SubagentJobCounts {
            unresolved: cur.unresolved + 1,
            ..cur
        },
        _ => cur,
    };
    counts.insert(session_id, next);
}

/// A sub-agent job of a session.
pub struct SubagentJob {
    pub id: u128,
    pub session_id: u128,
    pub execution_process_id: u128,
    /// The agent's id; jobs with the same one are records of one agent.
    pub agent_id: String,
    pub nickname: Option<String>,
    pub status: SubagentJobStatus,
    pub completed_at_ns: Option<i128>,
    pub created_at_ns: i128,
    pub updated_at_ns: i128,
}

/// A sub-agent job as plain values.
pub struct JobView {
    pub id: u128,
    pub session_id: u128,
    pub execution_process_id: u128,
    pub agent_id: Seq<char>,
    pub nickname: Option<Seq<char>>,
    pub status: SubagentJobStatus,
    pub completed_at_ns: Option<i128>,
    pub created_at_ns: i128,
    pub updated_at_ns: i128,
}

impl View for SubagentJob {
    type V = JobView;

    open spec fn view(&self) -> JobView {
        JobView {
            id: self.id,
            session_id: self.session_id,
            execution_process_id: self.execution_process_id,
            agent_id: self.agent_id@,
            nickname: match self.nickname {
                Some(n) => Some(n@),
                None => None,
            },
            status: self.status,
            completed_at_ns: self.completed_at_ns,
            created_at_ns: self.created_at_ns,
            updated_at_ns: self.updated_at_ns,
        }
    }
}

/// A copy of a job.
pub fn copy_job(j: &SubagentJob) -> (r: SubagentJob)
    ensures
        r@ == j@,
{
    SubagentJob {
        id: j.id,
        session_id: j.session_id,
        execution_process_id: j.execution_process_id,
        agent_id: j.agent_id.clone(),
        nickname: match &j.nickname {
            Some(n) => Some(n.clone()),
            None => None,
        },
        status: j.status,
        completed_at_ns: j.completed_at_ns,
        created_at_ns: j.created_at_ns,
        updated_at_ns: j.updated_at_ns,
    }
}

/// The jobs as plain values.
pub open spec fn job_views(jobs: Seq<SubagentJob>) -> Seq<JobView> {
    jobs.map_values(|j: SubagentJob| j@)
}

/// The record kept for `agent` among the first `n` jobs: a later record
/// replaces the kept one when its rank is at least as high.
pub open spec fn kept_index(jobs: Seq<JobView>, agent: Seq<char>, n: int) -> Option<int>
    decreases n,
{
    if n <= 0 || n > jobs.len() {
        None
    } else {
        let prev = kept_index(jobs, agent, n - 1);
        if jobs[n - 1].agent_id == agent && (match prev {
            Some(k) => rank(jobs[n - 1].status) >= rank(jobs[k].status),
            None => true,
        }) {
            Some(n - 1)
        } else {
            prev
        }
    }
}

/// The sort key of a job: creation time, then update time.
pub open spec fn job_key(j: JobView) -> (i128, i128) {
    (j.created_at_ns, j.updated_at_ns)
}

/// `out` holds, for every agent of `jobs`, the one record kept for it, in
/// order of creation and then update time: `idx` says which job each entry
/// is.
pub open spec fn dedup_witness(jobs: Seq<JobView>, out: Seq<JobView>, idx: Seq<int>) -> bool {
    &&& idx.len() == out.len()
    &&& forall|k: int| 0 <= k < out.len() ==> 0 <= #[trigger] idx[k] < jobs.len() && out[k] == jobs[idx[k]]
            && kept_index(jobs, jobs[idx[k]].agent_id, jobs.len() as int) == Some(idx[k])
    &&& forall|a: int, b: int| 0 <= a < b < out.len() ==> #[trigger] idx[a] != #[trigger] idx[b]
    &&& forall|i: int| 0 <= i < jobs.len() ==> exists|k: int| 0 <= k < out.len() && #[trigger] out[k].agent_id == #[trigger] jobs[i].agent_id
    &&& forall|a: int, b: int| 0 <= a < b < out.len() ==> !crate::order::pair_lt(job_key(#[trigger] out[b]), job_key(#[trigger] out[a]))
}

proof fn lemma_kept_is_agent(jobs: Seq<JobView>, agent: Seq<char>, n: int)
    requires
        0 <= n <= jobs.len(),
    ensures
        match kept_index(jobs, agent, n) {
            Some(k) => 0 <= k < n && jobs[k].agent_id == agent,
            None => forall|i: int| 0 <= i < n ==> jobs[i].agent_id != agent,
        },
    decreases n,
{
    if n > 0 {
        lemma_kept_is_agent(jobs, agent, n - 1);
    }
}

/// The agent of job `i`.
spec fn agent(jv: Seq<JobView>, i: int) -> Seq<char> {
    jv[i].agent_id
}

/// Some entry of `chosen` is a job of `ag`.
spec fn has_agent(jv: Seq<JobView>, chosen: Seq<usize>, ag: Seq<char>) -> bool {
    exists|q: int| 0 <= q < chosen.len() && agent(jv, #[trigger] chosen[q] as int) == ag
}

/// `chosen` holds, for each agent among the first `i` jobs, the index of
/// the record kept for it so far, each agent once.
spec fn chosen_ok(jv: Seq<JobView>, chosen: Seq<usize>, i: int) -> bool {
    &&& 0 <= i <= jv.len()
    &&& forall|q: int| 0 <= q < chosen.len() ==> #[trigger] chosen[q] < i
        && kept_index(jv, agent(jv, chosen[q] as int), i) == Some(chosen[q] as int)
    &&& forall|a: int, b: int| 0 <= a < b < chosen.len() ==> agent(jv, #[trigger] chosen[a] as int)
        != agent(jv, #[trigger] chosen[b] as int)
    &&& forall|t: int| 0 <= t < i ==> #[trigger] has_agent(jv, chosen, agent(jv, t))
}

proof fn lemma_chosen_found(jv: Seq<JobView>, chosen: Seq<usize>, i: usize, q: int)
    requires
        chosen_ok(jv, chosen, i as int),
        i < jv.len(),
        0 <= q < chosen.len(),
        agent(jv, chosen[q] as int) == agent(jv, i as int),
    ensures
        chosen_ok(
            jv,
            if rank(jv[i as int].status) >= rank(jv[chosen[q] as int].status) {
                chosen.update(q, i)
            } else {
                chosen
            },
            i + 1,
        ),
{
    let replace = rank(jv[i as int].status) >= rank(jv[chosen[q] as int].status);
    let next = if replace {
        chosen.update(q, i)
    } else {
        chosen
    };
    assert forall|p: int| 0 <= p < next.len() implies #[trigger] next[p] < i + 1 && kept_index(
        jv,
        agent(jv, next[p] as int),
        i + 1,
    ) == Some(next[p] as int) by {
        assert(chosen[p] < i);
        if p != q {
            assert(next[p] == chosen[p]);
            if p < q {
                assert(agent(jv, chosen[p] as int) != agent(jv, chosen[q] as int));
            } else {
                assert(agent(jv, chosen[q] as int) != agent(jv, chosen[p] as int));
            }
        }
    }
    assert forall|a: int, b: int| 0 <= a < b < next.len() implies agent(jv, #[trigger] next[a] as int)
        != agent(jv, #[trigger] next[b] as int) by {
        assert(agent(jv, chosen[a] as int) != agent(jv, chosen[b] as int));
    }
    assert forall|t: int| 0 <= t < i + 1 implies #[trigger] has_agent(jv, next, agent(jv, t)) by {
        if t == i {
            assert(agent(jv, next[q] as int) == agent(jv, t));
        } else {
            assert(has_agent(jv, chosen, agent(jv, t)));
            let p = choose|p: int| 0 <= p < chosen.len() && agent(jv, chosen[p] as int) == agent(jv, t);
            if p == q {
                assert(agent(jv, next[q] as int) == agent(jv, t));
            } else {
                assert(next[p] == chosen[p]);
                assert(agent(jv, next[p] as int) == agent(jv, t));
            }
        }
    }
}

proof fn lemma_chosen_new(jv: Seq<JobView>, chosen: Seq<usize>, i: usize)
    requires
        chosen_ok(jv, chosen, i as int),
        i < jv.len(),
        forall|p: int| 0 <= p < chosen.len() ==> agent(jv, #[trigger] chosen[p] as int) != agent(jv, i as int),
    ensures
        chosen_ok(jv, chosen.push(i), i + 1),
{
    let next = chosen.push(i);
    lemma_kept_is_agent(jv, agent(jv, i as int), i as int);
    if kept_index(jv, agent(jv, i as int), i as int) is Some {
        let k = kept_index(jv, agent(jv, i as int), i as int)->0;
        assert(has_agent(jv, chosen, agent(jv, k)));
        let p = choose|p: int| 0 <= p < chosen.len() && agent(jv, chosen[p] as int) == agent(jv, k);
        assert(agent(jv, chosen[p] as int) != agent(jv, i as int));
    }
    assert forall|p: int| 0 <= p < next.len() implies #[trigger] next[p] < i + 1 && kept_index(
        jv,
        agent(jv, next[p] as int),
        i + 1,
    ) == Some(next[p] as int) by {
        if p < chosen.len() {
            assert(next[p] == chosen[p]);
        }
    }
    assert forall|a: int, b: int| 0 <= a < b < next.len() implies agent(jv, #[trigger] next[a] as int)
        != agent(jv, #[trigger] next[b] as int) by {
        if b < chosen.len() {
            assert(next[a] == chosen[a] && next[b] == chosen[b]);
        } else {
            assert(next[a] == chosen[a]);
        }
    }
    assert forall|t: int| 0 <= t < i + 1 implies #[trigger] has_agent(jv, next, agent(jv, t)) by {
        if t == i {
            assert(next[chosen.len() as int] == i);
            assert(agent(jv, next[chosen.len() as int] as int) == agent(jv, t));
        } else {
            assert(has_agent(jv, chosen, agent(jv, t)));
            let p = choose|p: int| 0 <= p < chosen.len() && agent(jv, chosen[p] as int) == agent(jv, t);
            assert(next[p] == chosen[p]);
            assert(agent(jv, next[p] as int) == agent(jv, t));
        }
    }
}

/// The position in `chosen` of the agent of job `i`, if it is there.
fn find_chosen(jobs: &Vec<SubagentJob>, chosen: &Vec<usize>, i: usize) -> (r: Option<usize>)
    requires
        i < jobs@.len(),
        forall|p: int| 0 <= p < chosen@.len() ==> #[trigger] chosen@[p] < jobs@.len(),
    ensures
        match r {
            Some(q) => q < chosen@.len() && agent(job_views(jobs@), chosen@[q as int] as int) == agent(
                job_views(jobs@),
                i as int,
            ),
            None => forall|p: int| 0 <= p < chosen@.len() ==> agent(job_views(jobs@), #[trigger] chosen@[p] as int)
                != agent(job_views(jobs@), i as int),
        },
{
    let mut q: usize = 0;
    while q < chosen.len()
        invariant
            i < jobs@.len(),
            forall|p: int| 0 <= p < chosen@.len() ==> #[trigger] chosen@[p] < jobs@.len(),
            q <= chosen@.len(),
            forall|p: int| 0 <= p < q ==> agent(job_views(jobs@), #[trigger] chosen@[p] as int) != agent(
                job_views(jobs@),
                i as int,
            ),
        decreases chosen@.len() - q,
    {
        if str_eq(jobs[chosen[q]].agent_id.as_str(), jobs[i].agent_id.as_str()) {
            return Some(q);
        }
        q = q + 1;
    }
    None
}

/// For every agent, the index of the job record kept for it, each agent once.
fn choose_kept(jobs: &Vec<SubagentJob>) -> (chosen: Vec<usize>)
    ensures
        chosen_ok(job_views(jobs@), chosen@, jobs@.len() as int),
{
    let ghost jv = job_views(jobs@);
    let n = jobs.len();
    let mut chosen: Vec<usize> = Vec::new();
    let mut i: usize = 0;
    while i < n
        invariant
            n == jobs@.len(),
            jv == job_views(jobs@),
            i <= n,
            chosen_ok(jv, chosen@, i as int),
        decreases n - i,
    {
        proof {
            assert forall|p: int| 0 <= p < chosen@.len() implies #[trigger] chosen@[p] < jobs@.len() by {}
        }
        match find_chosen(jobs, &chosen, i) {
            Some(q) => {
                proof {
                    lemma_chosen_found(jv, chosen@, i, q as int);
                }
                if status_rank(&jobs[i].status) >= status_rank(&jobs[chosen[q]].status) {
                    chosen.set(q, i);
                }
            },
            None => {
                proof {
                    lemma_chosen_new(jv, chosen@, i);
                }
                chosen.push(i);
            },
        }
        i = i + 1;
    }
    chosen
}

/// One record per agent: of the records of an agent, the last one of the
/// highest rank; ordered by creation and then update time.
pub fn deduplicate_jobs(jobs: Vec<SubagentJob>) -> (r: Vec<SubagentJob>)
    ensures
        exists|idx: Seq<int>| dedup_witness(job_views(jobs@), job_views(r@), idx),
{
    let ghost jv = job_views(jobs@);
    let n = jobs.len();
    let chosen = choose_kept(&jobs);
    let mut keys: Vec<(i128, i128)> = Vec::new();
    let mut c: usize = 0;
    while c < chosen.len()
        invariant
            n == jobs@.len(),
            jv == job_views(jobs@),
            chosen_ok(jv, chosen@, n as int),
            c <= chosen@.len(),
            keys@.len() == c,
            forall|q: int| 0 <= q < c ==> #[trigger] keys@[q] == job_key(jv[chosen@[q] as int]),
        decreases chosen@.len() - c,
    {
        let j = &jobs[chosen[c]];
        keys.push((j.created_at_ns, j.updated_at_ns));
        c = c + 1;
    }
    let order = stable_order(&keys);
    let mut out: Vec<SubagentJob> = Vec::new();
    let mut k: usize = 0;
    while k < order.len()
        invariant
            n == jobs@.len(),
            jv == job_views(jobs@),
            chosen_ok(jv, chosen@, n as int),
            is_stable_order(keys@, order@),
            keys@.len() == chosen@.len(),
            k <= order@.len(),
            out@.len() == k,
            forall|t: int| 0 <= t < k ==> (#[trigger] out@[t])@ == jv[chosen@[order@[t] as int] as int],
        decreases order@.len() - k,
    {
        let src = chosen[order[k]];
        out.push(copy_job(&jobs[src]));
        k = k + 1;
    }
    proof {
        lemma_dedup_result(jv, chosen@, keys@, order@, job_views(out@));
    }
    out
}

proof fn lemma_dedup_result(
    jv: Seq<JobView>,
    chosen: Seq<usize>,
    keys: Seq<(i128, i128)>,
    order: Seq<usize>,
    ov: Seq<JobView>,
)
    requires
        chosen_ok(jv, chosen, jv.len() as int),
        keys.len() == chosen.len(),
        forall|q: int| 0 <= q < chosen.len() ==> #[trigger] keys[q] == job_key(jv[chosen[q] as int]),
        is_stable_order(keys, order),
        ov.len() == order.len(),
        forall|t: int| 0 <= t < ov.len() ==> #[trigger] ov[t] == jv[chosen[order[t] as int] as int],
    ensures
        exists|idx: Seq<int>| dedup_witness(jv, ov, idx),
{
    let idx = Seq::new(ov.len(), |t: int| chosen[order[t] as int] as int);
    assert forall|t: int| 0 <= t < ov.len() implies 0 <= #[trigger] idx[t] < jv.len() && ov[t] == jv[idx[t]]
        && kept_index(jv, jv[idx[t]].agent_id, jv.len() as int) == Some(idx[t]) by {
        assert(order[t] < keys.len());
    }
    assert forall|a: int, b: int| 0 <= a < b < ov.len() implies #[trigger] idx[a] != #[trigger] idx[b] by {
        lemma_stable_order_distinct(keys, order, a, b);
        if chosen[order[a] as int] == chosen[order[b] as int] {
            assert(order[a] < chosen.len() && order[b] < chosen.len());
            if order[a] < order[b] {
                assert(agent(jv, chosen[order[a] as int] as int) != agent(jv, chosen[order[b] as int] as int));
            } else {
                assert(agent(jv, chosen[order[b] as int] as int) != agent(jv, chosen[order[a] as int] as int));
            }
        }
    }
    assert forall|i: int| 0 <= i < jv.len() implies exists|k: int| 0 <= k < ov.len() && #[trigger] ov[k].agent_id
        == #[trigger] jv[i].agent_id by {
        assert(has_agent(jv, chosen, agent(jv, i)));
        let q = choose|q: int| 0 <= q < chosen.len() && agent(jv, chosen[q] as int) == agent(jv, i);
        lemma_stable_order_covers(keys, order, q);
        let k = choose|k: int| 0 <= k < order.len() && order[k] == q;
        assert(ov[k].agent_id == jv[i].agent_id);
    }
    assert forall|a: int, b: int| 0 <= a < b < ov.len() implies !crate::order::pair_lt(
        job_key(#[trigger] ov[b]),
        job_key(#[trigger] ov[a]),
    ) by {
        assert(crate::order::stably_before(keys, order[a] as int, order[b] as int));
        assert(order[a] < keys.len() && order[b] < keys.len());
    }
    assert(dedup_witness(jv, ov, idx));
}


/// Per session, the active counts of `jobs`; every session of a job has an
/// entry.
pub open spec fn counts_spec(jobs: Seq<JobView>) -> Map<u128, SubagentJobCounts>
    decreases jobs.len(),
{
    if jobs.len() == 0 {
        Map::empty()
    } else {
        let m = counts_spec(jobs.drop_last());
        let j = jobs.last();
        m.insert(j.session_id, bumped(counts_of(m, j.session_id), j.status))
    }
}

proof fn lemma_counts_bounded(jobs: Seq<JobView>, s: u128)
    ensures
        counts_of(counts_spec(jobs), s).running <= jobs.len(),
        counts_of(counts_spec(jobs), s).unresolved <= jobs.len(),
    decreases jobs.len(),
{
    if jobs.len() > 0 {
        lemma_counts_bounded(jobs.drop_last(), s);
        lemma_counts_bounded(jobs.drop_last(), jobs.last().session_id);
    }
}

/// The active counts per session of the given jobs (each agent's record
/// counted once where they were deduplicated first).
pub fn active_counts(jobs: &Vec<SubagentJob>) -> (r: HashMap<u128, SubagentJobCounts>)
    ensures
        r@ == counts_spec(job_views(jobs@)),
{
    let ghost jv = job_views(jobs@);
    let mut counts: HashMap<u128, SubagentJobCounts> = HashMap::new();
    let mut i: usize = 0;
    while i < jobs.len()
        invariant
            i <= jobs@.len(),
            jv == job_views(jobs@),
            counts@ == counts_spec(jv.subrange(0, i as int)),
        decreases jobs@.len() - i,
    {
        proof {
            let t = jv.subrange(0, i + 1);
            assert(t.drop_last() =~= jv.subrange(0, i as int));
            assert(t.last() == jobs@[i as int]@);
            lemma_counts_bounded(jv.subrange(0, i as int), jobs@[i as int].session_id);
        }
        increment_active_count(&mut counts, jobs[i].session_id, &jobs[i].status);
        i = i + 1;
    }
    proof {
        assert(jv.subrange(0, jobs@.len() as int) =~= jv);
    }
    counts
}

} // verus!
