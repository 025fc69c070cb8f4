//! How the compatibility board lists a project's issues and pull requests:
//! the pull-request state of each workspace shown as an issue, the column
//! of each task, and which pull requests belong to which task.
use vstd::prelude::*;
use std::collections::HashMap;
use crate::compat::{
    extract_status_name, first_status, normalize_status_key, status_key, status_views, synthetic_issue_prefix,
    synthetic_prefix_spec, synthetic_status_id, task_status_id, task_status_id_spec, task_status_name_spec,
    LocalTaskStatus, MergeStatus, ProjectStatusConfig, StatusView,
};
use crate::text::{i64_to_decimal, lines, signed_decimal, str_eq};

verus! {

/// The pull-request state of a workspace shown as an issue.
#[derive(Clone, Copy, Debug, PartialEq, Eq, Structural)]
pub struct SyntheticWorkspacePrState {
    pub has_open_pr: bool,
    /// When its latest merged pull request was merged, in milliseconds.
    pub latest_merged_at_ms: Option<i64>,
}

/// A pull request, as far as the board reads it.
#[derive(Clone, Copy, Debug, PartialEq, Eq, Structural)]
pub struct PrRecord {
    pub workspace_id: Option<u128>,
    pub status: MergeStatus,
    pub merged_at_ms: Option<i64>,
}

/// No pull request seen yet.
pub open spec fn no_pr_state() -> SyntheticWorkspacePrState {
    SyntheticWorkspacePrState { has_open_pr: false, latest_merged_at_ms: None }
}

/// The state after one more pull request of the workspace: an open one
/// marks it open; a merged one with a merge time later than any seen
/// becomes the latest merge; others change nothing.
pub open spec fn pr_step(s: SyntheticWorkspacePrState, p: PrRecord) -> SyntheticWorkspacePrState {
    match p.status {
        MergeStatus::Open => SyntheticWorkspacePrState { has_open_pr: true, ..s },
        MergeStatus::Merged => match (s.latest_merged_at_ms, p.merged_at_ms) {
            (Some(e), Some(m)) => if m > e {
                SyntheticWorkspacePrState { latest_merged_at_ms: Some(m), ..s }
            } else {
                s
            },
            (None, Some(m)) => SyntheticWorkspacePrState { latest_merged_at_ms: Some(m), ..s },
            _ => s,
        },
        _ => s,
    }
}

/// The states of the listed workspaces from their pull requests, taken in
/// order: a workspace with any pull request gets an entry.
pub open spec fn pr_states_spec(workspaces: Seq<u128>, prs: Seq<PrRecord>) -> Map<u128, SyntheticWorkspacePrState>
    decreases prs.len(),
{
    if prs.len() == 0 {
        Map::empty()
    } else {
        let m = pr_states_spec(workspaces, prs.drop_last());
        let p = prs.last();
        match p.workspace_id {
            Some(w) => if workspaces.contains(w) {
                let s = if m.contains_key(w) {
                    m[w]
                } else {
                    no_pr_state()
                };
                m.insert(w, pr_step(s, p))
            } else {
                m
            },
            None => m,
        }
    }
}

fn listed(workspaces: &Vec<u128>, w: u128) -> (r: bool)
    ensures
        r == workspaces@.contains(w),
{
    let mut i: usize = 0;
    while i < workspaces.len()
        invariant
            i <= workspaces@.len(),
            forall|k: int| 0 <= k < i ==> workspaces@[k] != w,
        decreases workspaces@.len() - i,
    {
        if workspaces[i] == w {
            proof {
                assert(workspaces@[i as int] == w);
            }
            return true;
        }
        i = i + 1;
    }
    false
}

/// The pull-request state of each listed workspace, as [`pr_states_spec`]
/// says.
pub fn load_synthetic_pr_states(workspaces: &Vec<u128>, prs: &Vec<PrRecord>) -> (r: HashMap<
    u128,
    SyntheticWorkspacePrState,
>)
    ensures
        r@ == pr_states_spec(workspaces@, prs@),
{
    let mut states: HashMap<u128, SyntheticWorkspacePrState> = HashMap::new();
    if workspaces.len() == 0 {
        proof {
            assert(states@ =~= pr_states_spec(workspaces@, prs@)) by {
                lemma_no_workspaces(workspaces@, prs@);
            }
        }
        return states;
    }
    let mut i: usize = 0;
    while i < prs.len()
        invariant
            i <= prs@.len(),
            states@ == pr_states_spec(workspaces@, prs@.subrange(0, i as int)),
        decreases prs@.len() - i,
    {
        let p = prs[i];
        proof {
            let t = prs@.subrange(0, i + 1);
            assert(t.drop_last() =~= prs@.subrange(0, i as int));
            assert(t.last() == p);
        }
        match p.workspace_id {
            Some(w) => {
                if listed(workspaces, w) {
                    let s = match states.get(&w) {
                        Some(s) => *s,
                        None => SyntheticWorkspacePrState { has_open_pr: false, latest_merged_at_ms: None },
                    };
                    let next = match p.status {
                        MergeStatus::Open => SyntheticWorkspacePrState { has_open_pr: true, ..s },
                        MergeStatus::Merged => match (s.latest_merged_at_ms, p.merged_at_ms) {
                            (Some(e), Some(m)) => if m > e {
                                SyntheticWorkspacePrState { latest_merged_at_ms: Some(m), ..s }
                            } else {
                                s
                            },
                            (None, Some(m)) => SyntheticWorkspacePrState { latest_merged_at_ms: Some(m), ..s },
                            _ => s,
                        },
                        _ => s,
                    };
                    states.insert(w, next);
                }
            },
            None => {},
        }
        i = i + 1;
    }
    proof {
        assert(prs@.subrange(0, prs@.len() as int) =~= prs@);
    }
    states
}

proof fn lemma_no_workspaces(workspaces: Seq<u128>, prs: Seq<PrRecord>)
    requires
        workspaces.len() == 0,
    ensures
        pr_states_spec(workspaces, prs) == Map::<u128, SyntheticWorkspacePrState>::empty(),
    decreases prs.len(),
{
    if prs.len() > 0 {
        lemma_no_workspaces(workspaces, prs.drop_last());
    }
}

/// How a workspace is shown as an issue.
pub struct SyntheticIssue {
    /// The workspace's prefix and the issue number: `PREFIX-n`.
    pub simple_id: String,
    pub status_id: &'static str,
    /// The workspace's name, else its branch.
    pub title: String,
    /// When it was archived (its last update), else its latest merge.
    pub completed_at_ms: Option<i64>,
}

/// A workspace as an issue numbered `issue_number`, given its
/// pull-request state, if it has one.
pub fn workspace_to_issue(
    name: Option<&str>,
    branch: &str,
    archived: bool,
    updated_at_ms: i64,
    issue_number: i64,
    pr_state: Option<SyntheticWorkspacePrState>,
) -> (r: SyntheticIssue)
    ensures
        r.simple_id@ == synthetic_prefix_spec(
            match name {
                Some(n) => Some(n@),
                None => None,
            },
            branch@,
        ) + "-"@ + signed_decimal(issue_number),
        r.status_id@ == (if pr_state matches Some(s) && s.has_open_pr {
            "in_review"@
        } else if archived || (pr_state matches Some(s) && s.latest_merged_at_ms is Some) {
            "done"@
        } else {
            "in_progress"@
        }),
        r.title@ == match name {
            Some(n) => n@,
            None => branch@,
        },
        r.completed_at_ms == (if archived {
            Some(updated_at_ms)
        } else {
            match pr_state {
                Some(s) => s.latest_merged_at_ms,
                None => None,
            }
        }),
{
    let (open, merged, latest) = match pr_state {
        Some(s) => (s.has_open_pr, s.latest_merged_at_ms.is_some(), s.latest_merged_at_ms),
        None => (false, false, None),
    };
    let prefix = synthetic_issue_prefix(name, branch);
    let simple_id = prefix.concat("-").concat(i64_to_decimal(issue_number).as_str());
    proof {
        reveal_strlit("-");
    }
    SyntheticIssue {
        simple_id,
        status_id: synthetic_status_id(archived, open, merged),
        title: match name {
            Some(n) => String::from_str(n),
            None => String::from_str(branch),
        },
        completed_at_ms: if archived {
            Some(updated_at_ms)
        } else {
            latest
        },
    }
}

/// The status name a task's description records, else its own status's.
pub open spec fn task_status_name_spec_of(t: LocalTaskStatus) -> Seq<char> {
    match first_status(lines(match t.description {
        Some(d) => d@,
        None => Seq::<char>::empty(),
    })) {
        Some(v) => v,
        None => task_status_name_spec(t.status),
    }
}

/// The id of the last column whose name has the given key.
pub open spec fn column_id_by_key(ss: Seq<StatusView>, key: Seq<char>) -> Option<Seq<char>>
    decreases ss.len(),
{
    if ss.len() == 0 {
        None
    } else if status_key(ss.last().name) == key {
        Some(ss.last().id)
    } else {
        column_id_by_key(ss.drop_last(), key)
    }
}

/// The column a task is listed in: that of its recorded status name where
/// the board has one, else the id of its own status.
pub open spec fn issue_status_id_spec(ss: Seq<StatusView>, t: LocalTaskStatus) -> Seq<char> {
    match column_id_by_key(ss, status_key(task_status_name_spec_of(t))) {
        Some(id) => id,
        None => task_status_id_spec(t.status),
    }
}

/// The column id of a task on the board, as [`issue_status_id_spec`] says.
pub fn issue_status_id(statuses: &Vec<ProjectStatusConfig>, task: &LocalTaskStatus) -> (r: String)
    ensures
        r@ == issue_status_id_spec(status_views(statuses@), *task),
{
    let ghost sv = status_views(statuses@);
    let name = extract_status_name(
        match &task.description {
            Some(d) => Some(d.as_str()),
            None => None,
        },
        &task.status,
    );
    let key = normalize_status_key(name.as_str());
    proof {
        assert(name@ == task_status_name_spec_of(*task));
        assert(key@ == status_key(task_status_name_spec_of(*task)));
    }
    let mut k: usize = statuses.len();
    proof {
        assert(sv.subrange(0, k as int) =~= sv);
    }
    while k > 0
        invariant
            k <= statuses@.len(),
            sv == status_views(statuses@),
            key@ == status_key(task_status_name_spec_of(*task)),
            column_id_by_key(sv, key@) == column_id_by_key(sv.subrange(0, k as int), key@),
        decreases k,
    {
        proof {
            let t = sv.subrange(0, k as int);
            assert(t.drop_last() =~= sv.subrange(0, k - 1));
            assert(t.last() == sv[k - 1]);
        }
        let kk = normalize_status_key(statuses[k - 1].name.as_str());
        proof {
            assert(sv[k - 1] == statuses@[k - 1]@);
        }
        if str_eq(kk.as_str(), key.as_str()) {
            return statuses[k - 1].id.clone();
        }
        k = k - 1;
    }
    String::from_str(task_status_id(&task.status))
}

/// The task a workspace belongs to, where it has one (the last entry for
/// the workspace).
pub open spec fn task_of(links: Seq<(u128, u128)>, w: u128) -> Option<u128>
    decreases links.len(),
{
    if links.len() == 0 {
        None
    } else if links.last().0 == w {
        Some(links.last().1)
    } else {
        task_of(links.drop_last(), w)
    }
}

/// The pull requests of the project's tasks, in order, each with its
/// task: those whose workspace belongs to a task of the project.
pub open spec fn linked_prs_spec(prs: Seq<Option<u128>>, links: Seq<(u128, u128)>, tasks: Seq<u128>) -> Seq<
    (int, u128),
>
    decreases prs.len(),
{
    if prs.len() == 0 {
        Seq::empty()
    } else {
        let rest = linked_prs_spec(prs.drop_last(), links, tasks);
        match prs.last() {
            Some(w) => match task_of(links, w) {
                Some(t) => if tasks.contains(t) {
                    rest.push((prs.len() - 1, t))
                } else {
                    rest
                },
                None => rest,
            },
            None => rest,
        }
    }
}

fn find_task_of(links: &Vec<(u128, u128)>, w: u128) -> (r: Option<u128>)
    ensures
        r == task_of(links@, w),
{
    let mut k: usize = links.len();
    proof {
        assert(links@.subrange(0, k as int) =~= links@);
    }
    while k > 0
        invariant
            k <= links@.len(),
            task_of(links@, w) == task_of(links@.subrange(0, k as int), w),
        decreases k,
    {
        proof {
            let t = links@.subrange(0, k as int);
            assert(t.drop_last() =~= links@.subrange(0, k - 1));
        }
        if links[k - 1].0 == w {
            return Some(links[k - 1].1);
        }
        k = k - 1;
    }
    None
}

/// The pull requests (by their workspace) that belong to the project's
/// tasks, as [`linked_prs_spec`] says: each one's position and task.
pub fn link_pull_requests(pr_workspaces: &Vec<Option<u128>>, task_of_workspace: &Vec<(u128, u128)>, project_tasks: &Vec<u128>) -> (r:
    Vec<(usize, u128)>)
    ensures
        r@.map_values(|x: (usize, u128)| (x.0 as int, x.1)) == linked_prs_spec(
            pr_workspaces@,
            task_of_workspace@,
            project_tasks@,
        ),
{
    let mut out: Vec<(usize, u128)> = Vec::new();
    let mut i: usize = 0;
    while i < pr_workspaces.len()
        invariant
            i <= pr_workspaces@.len(),
            out@.map_values(|x: (usize, u128)| (x.0 as int, x.1)) == linked_prs_spec(
                pr_workspaces@.subrange(0, i as int),
                task_of_workspace@,
                project_tasks@,
            ),
        decreases pr_workspaces@.len() - i,
    {
        proof {
            let t = pr_workspaces@.subrange(0, i + 1);
            assert(t.drop_last() =~= pr_workspaces@.subrange(0, i as int));
        }
        match pr_workspaces[i] {
            Some(w) => match find_task_of(task_of_workspace, w) {
                Some(t) => {
                    if listed(project_tasks, t) {
                        let ghost before = out@.map_values(|x: (usize, u128)| (x.0 as int, x.1));
                        out.push((i, t));
                        proof {
                            assert(out@.map_values(|x: (usize, u128)| (x.0 as int, x.1)) =~= before.push(
                                (i as int, t),
                            ));
                        }
                    }
                },
                None => {},
            },
            None => {},
        }
        i = i + 1;
    }
    proof {
        assert(pr_workspaces@.subrange(0, pr_workspaces@.len() as int) =~= pr_workspaces@);
    }
    out
}

/// The positions of the workspaces (given by the task each is linked to)
/// that belong to one of the project's tasks, in order.
pub open spec fn linked_workspaces_spec(workspace_tasks: Seq<Option<u128>>, tasks: Seq<u128>) -> Seq<int>
    decreases workspace_tasks.len(),
{
    if workspace_tasks.len() == 0 {
        Seq::empty()
    } else {
        let rest = linked_workspaces_spec(workspace_tasks.drop_last(), tasks);
        match workspace_tasks.last() {
            Some(t) => if tasks.contains(t) {
                rest.push(workspace_tasks.len() - 1)
            } else {
                rest
            },
            None => rest,
        }
    }
}

/// The workspaces listed for a project with tasks: those linked to one of
/// its tasks, as [`linked_workspaces_spec`] says.
pub fn workspaces_of_tasks(workspace_tasks: &Vec<Option<u128>>, tasks: &Vec<u128>) -> (r: Vec<usize>)
    ensures
        r@.map_values(|x: usize| x as int) == linked_workspaces_spec(workspace_tasks@, tasks@),
{
    let mut out: Vec<usize> = Vec::new();
    let mut i: usize = 0;
    while i < workspace_tasks.len()
        invariant
            i <= workspace_tasks@.len(),
            out@.map_values(|x: usize| x as int) == linked_workspaces_spec(
                workspace_tasks@.subrange(0, i as int),
                tasks@,
            ),
        decreases workspace_tasks@.len() - i,
    {
        proof {
            let t = workspace_tasks@.subrange(0, i + 1);
            assert(t.drop_last() =~= workspace_tasks@.subrange(0, i as int));
        }
        match workspace_tasks[i] {
            Some(t) => {
                if listed(tasks, t) {
                    let ghost before = out@.map_values(|x: usize| x as int);
                    out.push(i);
                    proof {
                        assert(out@.map_values(|x: usize| x as int) =~= before.push(i as int));
                    }
                }
            },
            None => {},
        }
        i = i + 1;
    }
    proof {
        assert(workspace_tasks@.subrange(0, workspace_tasks@.len() as int) =~= workspace_tasks@);
    }
    out
}

/// Some linked pull request names task `t`.
pub open spec fn pr_linked(linked: Seq<(usize, u128)>, t: u128) -> bool {
    exists|q: int| 0 <= q < linked.len() && #[trigger] linked[q].1 == t
}

/// The project's tasks (their positions) that no linked pull request
/// names: their imported pull-request metadata is listed instead.
pub fn tasks_without_linked_pr(project_tasks: &Vec<u128>, linked: &Vec<(usize, u128)>) -> (r: Vec<usize>)
    ensures
        forall|k: int| 0 <= k < r@.len() ==> r@[k] < project_tasks@.len(),
        forall|k: int, l: int| 0 <= k < l < r@.len() ==> r@[k] < r@[l],
        forall|j: int|
            0 <= j < project_tasks@.len() ==> (r@.contains(j as usize) <==> !pr_linked(
                linked@,
                #[trigger] project_tasks@[j],
            )),
{
    let mut out: Vec<usize> = Vec::new();
    let mut j: usize = 0;
    while j < project_tasks.len()
        invariant
            j <= project_tasks@.len(),
            forall|k: int| 0 <= k < out@.len() ==> out@[k] < j,
            forall|k: int, l: int| 0 <= k < l < out@.len() ==> out@[k] < out@[l],
            forall|x: int|
                0 <= x < j ==> (out@.contains(x as usize) <==> !pr_linked(linked@, #[trigger] project_tasks@[x])),
        decreases project_tasks@.len() - j,
    {
        let t = project_tasks[j];
        let mut found = false;
        let mut q: usize = 0;
        while q < linked.len()
            invariant
                q <= linked@.len(),
                found == exists|p: int| 0 <= p < q && #[trigger] linked@[p].1 == t,
            decreases linked@.len() - q,
        {
            if linked[q].1 == t {
                found = true;
                proof {
                    assert(linked@[q as int].1 == t);
                }
            }
            q = q + 1;
        }
        assert(found == pr_linked(linked@, t));
        let ghost before = out@;
        if !found {
            out.push(j);
        }
        proof {
            assert forall|x: int|
                0 <= x < j + 1 implies (out@.contains(x as usize) <==> !pr_linked(
                linked@,
                #[trigger] project_tasks@[x],
            )) by {
                if x < j {
                    assert(before.contains(x as usize) <==> !pr_linked(linked@, project_tasks@[x]));
                    if !found {
                        assert(out@ == before.push(j));
                        if out@.contains(x as usize) {
                            let k = choose|k: int| 0 <= k < out@.len() && out@[k] == x as usize;
                            if k < before.len() {
                                assert(before.contains(x as usize));
                            }
                        }
                        if before.contains(x as usize) {
                            let k = choose|k: int| 0 <= k < before.len() && before[k] == x as usize;
                            assert(out@[k] == x as usize);
                        }
                    }
                } else {
                    assert(project_tasks@[x] == t);
                    if !found {
                        assert(out@[before.len() as int] == j);
                    } else {
                        if out@.contains(x as usize) {
                            let k = choose|k: int| 0 <= k < out@.len() && out@[k] == x as usize;
                            assert(out@[k] < j);
                        }
                    }
                }
            }
        }
        j = j + 1;
    }
    out
}

} // verus!
