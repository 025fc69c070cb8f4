//! Project naming rules of the projects routes: display names, name keys
//! that match kebab-case and camelCase spellings, and synthetic projects
//! built from sub-agent repositories.
use vstd::prelude::*;
use crate::order::{is_named_order, named_before, named_keys, stable_named_order};
use crate::text::{contains_seq, contains_str, is_ascii_alnum, lower, lower_str, seq_lt, str_eq, trim, trim_str};

verus! {

/// `name.trim().to_ascii_lowercase()`.
pub open spec fn normalized_name(name: Seq<char>) -> Seq<char> {
    lower(trim(name))
}

/// Keeps the ASCII letters and digits of `s`, in order.
pub open spec fn alnum_only(s: Seq<char>) -> Seq<char>
    decreases s.len(),
{
    if s.len() == 0 {
        s
    } else {
        let r = alnum_only(s.drop_last());
        if is_ascii_alnum(s.last()) {
            r.push(s.last())
        } else {
            r
        }
    }
}

/// Key under which two spellings of a project name are the same project.
pub open spec fn name_key(name: Seq<char>) -> Seq<char> {
    alnum_only(normalized_name(name))
}

/// Trimmed, ASCII-lowercased project name.
pub fn normalize_project_name(name: &str) -> (r: String)
    ensures
        r@ == normalized_name(name@),
{
    lower_str(trim_str(name))
}

/// `alnum_only` on strings.
pub fn keep_alnum(s: &str) -> (r: String)
    ensures
        r@ == alnum_only(s@),
{
    let s_cs = crate::text::chars_of(s);
    let n = s_cs.len();
    let mut out = String::new();
    let mut i: usize = 0;
    while i < n
        invariant
            s_cs@ == s@,
            n == s@.len(),
            i <= n,
            out@ == alnum_only(s@.subrange(0, i as int)),
        decreases n - i,
    {
        let c = s_cs[i];
        proof {
            let t = s@.subrange(0, i + 1);
            assert(t.drop_last() =~= s@.subrange(0, i as int));
            assert(t.last() == c);
        }
        if crate::text::is_ascii_alnum_char(c) {
            crate::text::push_char(&mut out, c);
        }
        i = i + 1;
    }
    proof {
        assert(s@.subrange(0, n as int) =~= s@);
    }
    out
}

/// Name key that matches kebab-case and camelCase variants of a name.
pub fn project_name_key(name: &str) -> (r: String)
    ensures
        r@ == name_key(name@),
{
    let normalized = normalize_project_name(name);
    keep_alnum(normalized.as_str())
}

/// Name fragments that mark a repository as holding sub-agent work.
pub open spec fn sub_agent_hints() -> Seq<Seq<char>> {
    seq![
        "subagent"@,
        "subagents"@,
        "subagentsrepo"@,
        "sub-agent"@,
        "sub-agents"@,
        "sub_agent"@,
        "sub agent"@,
        "vk-subagent-monitor"@,
    ]
}

/// The normalized text contains one of the sub-agent hints.
pub open spec fn matches_hint(value: Seq<char>) -> bool {
    exists|i: int| 0 <= i < sub_agent_hints().len() && contains_seq(normalized_name(value), #[trigger] sub_agent_hints()[i])
}

fn matches_hint_str(value: &str) -> (r: bool)
    ensures
        r == matches_hint(value@),
{
    let normalized = normalize_project_name(value);
    let n = normalized.as_str();
    let hints: [&str; 8] = [
        "subagent",
        "subagents",
        "subagentsrepo",
        "sub-agent",
        "sub-agents",
        "sub_agent",
        "sub agent",
        "vk-subagent-monitor",
    ];
    let mut i: usize = 0;
    while i < 8
        invariant
            i <= 8,
            n@ == normalized_name(value@),
            forall|j: int| 0 <= j < 8 ==> (#[trigger] hints@[j])@ == sub_agent_hints()[j],
            forall|j: int| 0 <= j < i ==> !contains_seq(n@, #[trigger] sub_agent_hints()[j]),
        decreases 8 - i,
    {
        if contains_str(n, hints[i]) {
            assert(contains_seq(n@, sub_agent_hints()[i as int]));
            return true;
        }
        i = i + 1;
    }
    false
}

/// A repository as the projects routes see it.
pub struct Repo {
    pub id: u128,
    pub name: String,
    pub display_name: String,
    pub path: String,
    pub default_target_branch: Option<String>,
    pub default_working_dir: Option<String>,
    /// Creation time, in nanoseconds since the Unix epoch.
    pub created_at_ns: i128,
    /// Last update, in nanoseconds since the Unix epoch.
    pub updated_at_ns: i128,
}

/// A repository whose name, display name or path mentions sub-agents.
pub fn is_sub_agents_repo(repo: &Repo) -> (r: bool)
    ensures
        r == (matches_hint(repo.name@) || matches_hint(repo.display_name@) || matches_hint(
            repo.path@,
        )),
{
    matches_hint_str(repo.name.as_str()) || matches_hint_str(repo.display_name.as_str())
        || matches_hint_str(repo.path.as_str())
}

/// The branch new work targets by default: the repository's, else `main`.
pub fn repo_default_target_branch(repo: &Repo) -> (r: String)
    ensures
        repo.default_target_branch matches Some(b) ==> r@ == b@,
        repo.default_target_branch is None ==> r@ == "main"@,
{
    match &repo.default_target_branch {
        Some(b) => b.clone(),
        None => String::from_str("main"),
    }
}


/// The target branch of a repository of a project: the one recorded for it
/// (the last record of the repository counts), else the repository's
/// default.
pub open spec fn target_branch_spec(targets: Seq<(u128, Option<Seq<char>>)>, repo_id: u128, default: Seq<char>) -> Seq<char>
    decreases targets.len(),
{
    if targets.len() == 0 {
        default
    } else if targets.last().0 == repo_id {
        match targets.last().1 {
            Some(t) => t,
            None => default,
        }
    } else {
        target_branch_spec(targets.drop_last(), repo_id, default)
    }
}

/// The recorded targets as plain values.
pub open spec fn target_views(targets: Seq<(u128, Option<String>)>) -> Seq<(u128, Option<Seq<char>>)> {
    targets.map_values(|t: (u128, Option<String>)| (t.0, match t.1 {
        Some(b) => Some(b@),
        None => None,
    }))
}

/// The branch new work in `repo` targets, as [`target_branch_spec`] says.
pub fn repo_target_branch(targets: &Vec<(u128, Option<String>)>, repo: &Repo) -> (r: String)
    ensures
        r@ == target_branch_spec(
            target_views(targets@),
            repo.id,
            match repo.default_target_branch {
                Some(b) => b@,
                None => "main"@,
            },
        ),
{
    let ghost v = target_views(targets@);
    let mut k: usize = targets.len();
    proof {
        assert(v.subrange(0, k as int) =~= v);
    }
    while k > 0
        invariant
            k <= targets@.len(),
            v == target_views(targets@),
            target_branch_spec(v, repo.id, match repo.default_target_branch {
                Some(b) => b@,
                None => "main"@,
            }) == target_branch_spec(v.subrange(0, k as int), repo.id, match repo.default_target_branch {
                Some(b) => b@,
                None => "main"@,
            }),
        decreases k,
    {
        proof {
            let t = v.subrange(0, k as int);
            assert(t.drop_last() =~= v.subrange(0, k - 1));
        }
        if targets[k - 1].0 == repo.id {
            return match &targets[k - 1].1 {
                Some(b) => b.clone(),
                None => repo_default_target_branch(repo),
            };
        }
        k = k - 1;
    }
    repo_default_target_branch(repo)
}

/// A project name change must leave something once trimmed.
pub fn check_project_name(name: Option<&str>) -> (r: Result<Option<&str>, &'static str>)
    ensures
        match name {
            Some(n) => if trim(n@).len() == 0 {
                r == Err::<Option<&str>, &'static str>("Project name cannot be empty")
            } else {
                r matches Ok(Some(t)) && t@ == trim(n@)
            },
            None => r == Ok::<Option<&str>, &'static str>(None),
        },
{
    match name {
        Some(n) => {
            let t = trim_str(n);
            if t.unicode_len() == 0 {
                Err("Project name cannot be empty")
            } else {
                Ok(Some(t))
            }
        },
        None => Ok(None),
    }
}

/// A project as the projects routes list it.
pub struct Project {
    pub id: u128,
    pub name: String,
    pub archived: bool,
    pub default_agent_working_dir: Option<String>,
    pub remote_project_id: Option<u128>,
    /// Creation time, in nanoseconds since the Unix epoch.
    pub created_at_ns: i128,
    /// Last update, in nanoseconds since the Unix epoch.
    pub updated_at_ns: i128,
}

/// A project as plain values.
pub struct ProjectView {
    pub id: u128,
    pub name: Seq<char>,
    pub archived: bool,
    pub default_agent_working_dir: Option<Seq<char>>,
    pub remote_project_id: Option<u128>,
    pub created_at_ns: i128,
    pub updated_at_ns: i128,
}

impl View for Project {
    type V = ProjectView;

    open spec fn view(&self) -> ProjectView {
        ProjectView {
            id: self.id,
            name: self.name@,
            archived: self.archived,
            default_agent_working_dir: match self.default_agent_working_dir {
                Some(d) => Some(d@),
                None => None,
            },
            remote_project_id: self.remote_project_id,
            created_at_ns: self.created_at_ns,
            updated_at_ns: self.updated_at_ns,
        }
    }
}

/// A copy of a project.
pub fn copy_project(p: &Project) -> (r: Project)
    ensures
        r@ == p@,
{
    Project {
        id: p.id,
        name: p.name.clone(),
        archived: p.archived,
        default_agent_working_dir: match &p.default_agent_working_dir {
            Some(d) => Some(d.clone()),
            None => None,
        },
        remote_project_id: p.remote_project_id,
        created_at_ns: p.created_at_ns,
        updated_at_ns: p.updated_at_ns,
    }
}

/// The project a sub-agent repository is shown as.
pub fn synthetic_project_from_repo(repo: &Repo) -> (r: Project)
    ensures
        r@ == (ProjectView {
            id: repo.id,
            name: repo.display_name@,
            archived: false,
            default_agent_working_dir: match repo.default_working_dir {
                Some(d) => Some(d@),
                None => None,
            },
            remote_project_id: None,
            created_at_ns: repo.created_at_ns,
            updated_at_ns: repo.updated_at_ns,
        }),
{
    Project {
        id: repo.id,
        name: repo.display_name.clone(),
        archived: false,
        default_agent_working_dir: match &repo.default_working_dir {
            Some(d) => Some(d.clone()),
            None => None,
        },
        remote_project_id: None,
        created_at_ns: repo.created_at_ns,
        updated_at_ns: repo.updated_at_ns,
    }
}

/// The project a repository-defaults record (its id and times) is shown as:
/// named after its first repository, whose working directory it takes;
/// none where no repository of the record exists.
pub fn synthetic_project_from_repos(record_id: u128, created_at_ns: i128, updated_at_ns: i128, repos: &Vec<Repo>) -> (r:
    Option<Project>)
    ensures
        repos@.len() == 0 ==> r is None,
        repos@.len() > 0 ==> r is Some && r.unwrap()@ == (ProjectView {
            id: record_id,
            name: repos@[0].display_name@,
            archived: false,
            default_agent_working_dir: match repos@[0].default_working_dir {
                Some(d) => Some(d@),
                None => None,
            },
            remote_project_id: None,
            created_at_ns,
            updated_at_ns,
        }),
{
    if repos.len() == 0 {
        return None;
    }
    let primary = &repos[0];
    Some(
        Project {
            id: record_id,
            name: primary.display_name.clone(),
            archived: false,
            default_agent_working_dir: match &primary.default_working_dir {
                Some(d) => Some(d.clone()),
                None => None,
            },
            remote_project_id: None,
            created_at_ns,
            updated_at_ns,
        },
    )
}

/// The display key of a project: most recently updated first, then by
/// name, then by id.
pub open spec fn display_key(p: ProjectView) -> (i128, Seq<char>, u128) {
    ((-1 - p.updated_at_ns) as i128, p.name, p.id)
}

/// The projects as plain values.
pub open spec fn project_views(ps: Seq<Project>) -> Seq<ProjectView> {
    ps.map_values(|p: Project| p@)
}

/// `out` is `ps` in display order: a stable sort by [`display_key`].
pub open spec fn display_sorted(ps: Seq<ProjectView>, out: Seq<ProjectView>) -> bool {
    exists|order: Seq<usize>|
        is_named_order(ps.map_values(|p: ProjectView| display_key(p)), order) && out.len() == order.len() && forall|
            k: int,
        |
            0 <= k < out.len() ==> #[trigger] out[k] == ps[order[k] as int]
}

/// Display order shows the most recently updated project first: of two
/// projects in it, the earlier was updated no earlier than the later; of
/// two updated at the same time, the earlier has the smaller name, or the
/// same name and an id no greater.
pub proof fn lemma_display_order_most_recent_first(ps: Seq<ProjectView>, out: Seq<ProjectView>, a: int, b: int)
    requires
        display_sorted(ps, out),
        0 <= a < b < out.len(),
    ensures
        out[a].updated_at_ns >= out[b].updated_at_ns,
        out[a].updated_at_ns == out[b].updated_at_ns ==> seq_lt(out[a].name, out[b].name) || (out[a].name
            == out[b].name && out[a].id <= out[b].id),
{
    let order = choose|order: Seq<usize>|
        is_named_order(ps.map_values(|p: ProjectView| display_key(p)), order) && out.len() == order.len() && forall|
            k: int,
        |
            0 <= k < out.len() ==> #[trigger] out[k] == ps[order[k] as int];
    let keys = ps.map_values(|p: ProjectView| display_key(p));
    assert(named_before(keys, order[a] as int, order[b] as int));
    assert(order[a] < keys.len() && order[b] < keys.len());
    assert(out[a] == ps[order[a] as int] && out[b] == ps[order[b] as int]);
    let ka = keys[order[a] as int];
    let kb = keys[order[b] as int];
    assert(ka == display_key(out[a]) && kb == display_key(out[b]));
}

/// The field-level form of [`lemma_display_order_most_recent_first`], over
/// projects.
proof fn lemma_sorted_projects_most_recent_first(projects: Seq<Project>, r: Seq<Project>)
    requires
        display_sorted(project_views(projects), project_views(r)),
    ensures
        forall|a: int, b: int|
            0 <= a < b < r.len() ==> (#[trigger] r[a]).updated_at_ns >= (#[trigger] r[b]).updated_at_ns && (
            r[a].updated_at_ns == r[b].updated_at_ns ==> seq_lt(r[a].name@, r[b].name@) || (r[a].name@ == r[b].name@
                && r[a].id <= r[b].id)),
{
    let pv = project_views(projects);
    let ov = project_views(r);
    assert forall|a: int, b: int| 0 <= a < b < r.len() implies (#[trigger] r[a]).updated_at_ns >= (
    #[trigger] r[b]).updated_at_ns && (r[a].updated_at_ns == r[b].updated_at_ns ==> seq_lt(r[a].name@, r[b].name@) || (
    r[a].name@ == r[b].name@ && r[a].id <= r[b].id)) by {
        lemma_display_order_most_recent_first(pv, ov, a, b);
        assert(ov[a] == r[a]@ && ov[b] == r[b]@);
    }
}

/// Puts projects in display order: most recently updated first, then by
/// name, then by id; equal keys keep their order.
pub fn sort_synthetic_projects_for_display(projects: Vec<Project>) -> (r: Vec<Project>)
    ensures
        display_sorted(project_views(projects@), project_views(r@)),
        forall|a: int, b: int|
            0 <= a < b < r@.len() ==> (#[trigger] r@[a]).updated_at_ns >= (#[trigger] r@[b]).updated_at_ns && (
            r@[a].updated_at_ns == r@[b].updated_at_ns ==> seq_lt(r@[a].name@, r@[b].name@) || (r@[a].name@
                == r@[b].name@ && r@[a].id <= r@[b].id)),
{
    let ghost pv = project_views(projects@);
    let mut keys: Vec<(i128, String, u128)> = Vec::new();
    let mut i: usize = 0;
    while i < projects.len()
        invariant
            i <= projects@.len(),
            pv == project_views(projects@),
            keys@.len() == i,
            forall|k: int| 0 <= k < i ==> (#[trigger] keys@[k]).0 == display_key(pv[k]).0 && keys@[k].1@
                == display_key(pv[k]).1 && keys@[k].2 == display_key(pv[k]).2,
        decreases projects@.len() - i,
    {
        let p = &projects[i];
        keys.push((-1 - p.updated_at_ns, p.name.clone(), p.id));
        i = i + 1;
    }
    let order = stable_named_order(&keys);
    proof {
        assert(named_keys(keys@) =~= pv.map_values(|p: ProjectView| display_key(p)));
    }
    let mut out: Vec<Project> = Vec::new();
    let mut k: usize = 0;
    while k < order.len()
        invariant
            pv == project_views(projects@),
            is_named_order(pv.map_values(|p: ProjectView| display_key(p)), order@),
            k <= order@.len(),
            out@.len() == k,
            forall|t: int| 0 <= t < k ==> (#[trigger] out@[t])@ == pv[order@[t] as int],
        decreases order@.len() - k,
    {
        out.push(copy_project(&projects[order[k]]));
        k = k + 1;
    }
    proof {
        let ov = project_views(out@);
        assert(forall|t: int| 0 <= t < ov.len() ==> #[trigger] ov[t] == pv[order@[t] as int]);
        assert(display_sorted(pv, ov));
        lemma_sorted_projects_most_recent_first(projects@, out@);
    }
    out
}

/// A project built from a repository-defaults record, with the ids of its
/// repositories.
pub struct SyntheticProject {
    pub project: Project,
    pub repo_ids: Vec<u128>,
}

/// A synthetic project is offered unless a real project has its id, its
/// name key, or one of its repositories.
pub open spec fn offered(sp: SyntheticProject, ids: Seq<u128>, names: Seq<Seq<char>>, repo_ids: Seq<u128>) -> bool {
    &&& !ids.contains(sp.project.id)
    &&& !names.contains(name_key(sp.project.name@))
    &&& forall|i: int| 0 <= i < sp.repo_ids@.len() ==> !repo_ids.contains(#[trigger] sp.repo_ids@[i])
}

/// The offered synthetic projects, in order.
pub open spec fn offered_projects(
    sps: Seq<SyntheticProject>,
    ids: Seq<u128>,
    names: Seq<Seq<char>>,
    repo_ids: Seq<u128>,
) -> Seq<ProjectView>
    decreases sps.len(),
{
    if sps.len() == 0 {
        Seq::empty()
    } else {
        let rest = offered_projects(sps.drop_last(), ids, names, repo_ids);
        if offered(sps.last(), ids, names, repo_ids) {
            rest.push(sps.last().project@)
        } else {
            rest
        }
    }
}

fn contains_id(ids: &Vec<u128>, id: u128) -> (r: bool)
    ensures
        r == ids@.contains(id),
{
    let mut i: usize = 0;
    while i < ids.len()
        invariant
            i <= ids@.len(),
            forall|k: int| 0 <= k < i ==> ids@[k] != id,
        decreases ids@.len() - i,
    {
        if ids[i] == id {
            assert(ids@[i as int] == id);
            return true;
        }
        i = i + 1;
    }
    false
}

fn contains_text(names: &Vec<String>, name: &str) -> (r: bool)
    ensures
        r == names@.map_values(|n: String| n@).contains(name@),
{
    let ghost v = names@.map_values(|n: String| n@);
    let mut i: usize = 0;
    while i < names.len()
        invariant
            i <= names@.len(),
            v == names@.map_values(|n: String| n@),
            forall|k: int| 0 <= k < i ==> v[k] != name@,
        decreases names@.len() - i,
    {
        if str_eq(names[i].as_str(), name) {
            assert(v[i as int] == name@);
            return true;
        }
        i = i + 1;
    }
    false
}

fn is_offered(sp: &SyntheticProject, ids: &Vec<u128>, names: &Vec<String>, repo_ids: &Vec<u128>) -> (r: bool)
    ensures
        r == offered(*sp, ids@, names@.map_values(|n: String| n@), repo_ids@),
{
    if contains_id(ids, sp.project.id) {
        return false;
    }
    let key = project_name_key(sp.project.name.as_str());
    if contains_text(names, key.as_str()) {
        return false;
    }
    let mut i: usize = 0;
    while i < sp.repo_ids.len()
        invariant
            i <= sp.repo_ids@.len(),
            forall|k: int| 0 <= k < i ==> !repo_ids@.contains(#[trigger] sp.repo_ids@[k]),
        decreases sp.repo_ids@.len() - i,
    {
        if contains_id(repo_ids, sp.repo_ids[i]) {
            return false;
        }
        i = i + 1;
    }
    true
}

/// The synthetic projects no real project covers, in display order.
pub fn filter_synthetic_project_candidates(
    synthetic_projects: &Vec<SyntheticProject>,
    existing_ids: &Vec<u128>,
    existing_names: &Vec<String>,
    existing_repo_ids: &Vec<u128>,
) -> (r: Vec<Project>)
    ensures
        display_sorted(
            offered_projects(
                synthetic_projects@,
                existing_ids@,
                existing_names@.map_values(|n: String| n@),
                existing_repo_ids@,
            ),
            project_views(r@),
        ),
{
    let ghost names = existing_names@.map_values(|n: String| n@);
    let mut kept: Vec<Project> = Vec::new();
    let mut i: usize = 0;
    while i < synthetic_projects.len()
        invariant
            i <= synthetic_projects@.len(),
            names == existing_names@.map_values(|n: String| n@),
            project_views(kept@) == offered_projects(
                synthetic_projects@.subrange(0, i as int),
                existing_ids@,
                names,
                existing_repo_ids@,
            ),
        decreases synthetic_projects@.len() - i,
    {
        proof {
            assert(synthetic_projects@.subrange(0, i + 1).drop_last() =~= synthetic_projects@.subrange(0, i as int));
        }
        if is_offered(&synthetic_projects[i], existing_ids, existing_names, existing_repo_ids) {
            let ghost before = project_views(kept@);
            kept.push(copy_project(&synthetic_projects[i].project));
            proof {
                assert(project_views(kept@) =~= before.push(synthetic_projects@[i as int].project@));
            }
        }
        i = i + 1;
    }
    proof {
        assert(synthetic_projects@.subrange(0, synthetic_projects@.len() as int) =~= synthetic_projects@);
    }
    sort_synthetic_projects_for_display(kept)
}


/// The last of `ps` with the name key `key`.
pub open spec fn last_with_key(ps: Seq<ProjectView>, key: Seq<char>) -> Option<ProjectView>
    decreases ps.len(),
{
    if ps.len() == 0 {
        None
    } else if name_key(ps.last().name) == key {
        Some(ps.last())
    } else {
        last_with_key(ps.drop_last(), key)
    }
}

/// The first of `ps` with the name key `key`.
pub open spec fn first_with_key(ps: Seq<ProjectView>, key: Seq<char>) -> Option<ProjectView>
    decreases ps.len(),
{
    if ps.len() == 0 {
        None
    } else if name_key(ps[0].name) == key {
        Some(ps[0])
    } else {
        first_with_key(ps.drop_first(), key)
    }
}

/// The synthetic project a listed project of name key `key` takes its
/// working directory from: the last repository-defaults project of that key,
/// else the first sub-agent project of it.
pub open spec fn named_synthetic(synthetic: Seq<ProjectView>, subs: Seq<ProjectView>, key: Seq<char>) -> Option<ProjectView> {
    match last_with_key(synthetic, key) {
        Some(p) => Some(p),
        None => first_with_key(subs, key),
    }
}

/// `p` with the working directory of `by` where it has none.
pub open spec fn enriched(p: ProjectView, by: Option<ProjectView>) -> ProjectView {
    match by {
        Some(s) => if p.default_agent_working_dir is None {
            ProjectView { default_agent_working_dir: s.default_agent_working_dir, ..p }
        } else {
            p
        },
        None => p,
    }
}

/// A project with the id or the name key of `c` is listed in `ps`.
pub open spec fn listed(ps: Seq<ProjectView>, c: ProjectView) -> bool {
    exists|i: int| #![trigger ps[i]] 0 <= i < ps.len() && (ps[i].id == c.id || name_key(ps[i].name) == name_key(c.name))
}

/// `ps` with each candidate, in order, that no listed project covers by id
/// or name key.
pub open spec fn added(ps: Seq<ProjectView>, cands: Seq<ProjectView>) -> Seq<ProjectView>
    decreases cands.len(),
{
    if cands.len() == 0 {
        ps
    } else {
        added(
            if listed(ps, cands[0]) {
                ps
            } else {
                ps.push(cands[0])
            },
            cands.drop_first(),
        )
    }
}

/// The synthetic projects as plain values.
pub open spec fn synthetic_views(sps: Seq<SyntheticProject>) -> Seq<ProjectView> {
    sps.map_values(|sp: SyntheticProject| sp.project@)
}

/// The repository ids of the synthetic projects, in order, together.
pub open spec fn name_keys(ps: Seq<ProjectView>) -> Seq<Seq<char>> {
    ps.map_values(|p: ProjectView| name_key(p.name))
}

/// The ids of the projects.
pub open spec fn project_ids(ps: Seq<ProjectView>) -> Seq<u128> {
    ps.map_values(|p: ProjectView| p.id)
}

fn is_listed(out: &Vec<Project>, c: &Project) -> (r: bool)
    ensures
        r == listed(project_views(out@), c@),
{
    let ghost ov = project_views(out@);
    let key = project_name_key(c.name.as_str());
    let mut i: usize = 0;
    while i < out.len()
        invariant
            i <= out@.len(),
            ov == project_views(out@),
            key@ == name_key(c@.name),
            forall|k: int| #![trigger ov[k]] 0 <= k < i ==> !(ov[k].id == c@.id || name_key(ov[k].name) == name_key(c@.name)),
        decreases out@.len() - i,
    {
        let k2 = project_name_key(out[i].name.as_str());
        if out[i].id == c.id || str_eq(k2.as_str(), key.as_str()) {
            proof {
                assert(ov[i as int] == out@[i as int]@);
                assert(ov[i as int].id == c@.id || name_key(ov[i as int].name) == name_key(c@.name));
                assert(listed(ov, c@));
            }
            return true;
        }
        i = i + 1;
    }
    false
}

fn find_named(synthetic: &Vec<SyntheticProject>, subs: &Vec<Project>, key: &str) -> (r: Option<Project>)
    ensures
        match r {
            Some(p) => named_synthetic(synthetic_views(synthetic@), project_views(subs@), key@) == Some(p@),
            None => named_synthetic(synthetic_views(synthetic@), project_views(subs@), key@) is None,
        },
{
    let ghost sv = synthetic_views(synthetic@);
    let mut k: usize = synthetic.len();
    proof {
        assert(sv.subrange(0, k as int) =~= sv);
    }
    while k > 0
        invariant
            k <= synthetic@.len(),
            sv == synthetic_views(synthetic@),
            last_with_key(sv, key@) == last_with_key(sv.subrange(0, k as int), key@),
        decreases k,
    {
        proof {
            assert(sv.subrange(0, k as int).drop_last() =~= sv.subrange(0, k - 1));
        }
        let k2 = project_name_key(synthetic[k - 1].project.name.as_str());
        if str_eq(k2.as_str(), key) {
            return Some(copy_project(&synthetic[k - 1].project));
        }
        k = k - 1;
    }
    let ghost bv = project_views(subs@);
    let mut i: usize = 0;
    proof {
        assert(bv.subrange(0, bv.len() as int) =~= bv);
    }
    while i < subs.len()
        invariant
            i <= subs@.len(),
            bv == project_views(subs@),
            sv == synthetic_views(synthetic@),
            last_with_key(sv, key@) is None,
            first_with_key(bv, key@) == first_with_key(bv.subrange(i as int, bv.len() as int), key@),
        decreases subs@.len() - i,
    {
        proof {
            let t = bv.subrange(i as int, bv.len() as int);
            assert(t.drop_first() =~= bv.subrange(i + 1, bv.len() as int));
        }
        let k2 = project_name_key(subs[i].name.as_str());
        if str_eq(k2.as_str(), key) {
            proof {
                let t = bv.subrange(i as int, bv.len() as int);
                assert(t[0] == bv[i as int]);
                assert(bv[i as int] == subs@[i as int]@);
            }
            return Some(copy_project(&subs[i]));
        }
        i = i + 1;
    }
    None
}

/// The project list: the real projects, then each candidate (the synthetic
/// projects no real project covers, with the sub-agent projects, in
/// display order) whose id and name key are not listed yet; every project
/// without a working directory takes the one of the synthetic project of
/// its name key.
pub open spec fn project_list_spec(
    projects: Seq<ProjectView>,
    synthetic: Seq<SyntheticProject>,
    subs: Seq<ProjectView>,
    cands: Seq<ProjectView>,
) -> Seq<ProjectView> {
    added(projects, cands).map_values(
        |p: ProjectView| enriched(p, named_synthetic(synthetic_views(synthetic), subs, name_key(p.name))),
    )
}

/// The candidates of the project list in display order: the offered
/// synthetic projects in display order, then the sub-agent projects, sorted
/// together.
pub open spec fn candidates_ok(
    projects: Seq<ProjectView>,
    synthetic: Seq<SyntheticProject>,
    subs: Seq<ProjectView>,
    repo_ids: Seq<u128>,
    cands: Seq<ProjectView>,
) -> bool {
    exists|offered_sorted: Seq<ProjectView>|
        display_sorted(
            offered_projects(synthetic, project_ids(projects), name_keys(projects), repo_ids),
            offered_sorted,
        ) && display_sorted(offered_sorted + subs, cands)
}

/// The project list, as [`project_list_spec`] says.
pub fn merge_project_list(
    projects: Vec<Project>,
    synthetic_projects: &Vec<SyntheticProject>,
    sub_agent_projects: Vec<Project>,
    existing_repo_ids: &Vec<u128>,
) -> (r: Vec<Project>)
    ensures
        exists|cands: Seq<ProjectView>|
            candidates_ok(
                project_views(projects@),
                synthetic_projects@,
                project_views(sub_agent_projects@),
                existing_repo_ids@,
                cands,
            ) && project_views(r@) == project_list_spec(
                project_views(projects@),
                synthetic_projects@,
                project_views(sub_agent_projects@),
                cands,
            ),
{
    let ghost pv = project_views(projects@);
    let ghost subs_v = project_views(sub_agent_projects@);
    let mut ids: Vec<u128> = Vec::new();
    let mut names: Vec<String> = Vec::new();
    let mut i: usize = 0;
    proof {
        assert(ids@ =~= project_ids(pv.subrange(0, 0)));
        assert(names@.map_values(|n: String| n@) =~= name_keys(pv.subrange(0, 0)));
    }
    while i < projects.len()
        invariant
            i <= projects@.len(),
            pv == project_views(projects@),
            ids@ == project_ids(pv.subrange(0, i as int)),
            names@.map_values(|n: String| n@) == name_keys(pv.subrange(0, i as int)),
        decreases projects@.len() - i,
    {
        let ghost before_names = names@.map_values(|n: String| n@);
        ids.push(projects[i].id);
        names.push(project_name_key(projects[i].name.as_str()));
        proof {
            assert(ids@ =~= project_ids(pv.subrange(0, i + 1)));
            assert(names@.map_values(|n: String| n@) =~= before_names.push(name_key(pv[i as int].name)));
            assert(name_keys(pv.subrange(0, i + 1)) =~= name_keys(pv.subrange(0, i as int)).push(name_key(pv[i as int].name)));
        }
        i = i + 1;
    }
    proof {
        assert(pv.subrange(0, projects@.len() as int) =~= pv);
    }
    let offered_sorted = filter_synthetic_project_candidates(synthetic_projects, &ids, &names, existing_repo_ids);
    let ghost os = project_views(offered_sorted@);
    let mut all = offered_sorted;
    let mut k: usize = 0;
    proof {
        assert(os + subs_v.subrange(0, 0) =~= os);
    }
    while k < sub_agent_projects.len()
        invariant
            k <= sub_agent_projects@.len(),
            subs_v == project_views(sub_agent_projects@),
            project_views(all@) == os + subs_v.subrange(0, k as int),
        decreases sub_agent_projects@.len() - k,
    {
        let ghost before = project_views(all@);
        all.push(copy_project(&sub_agent_projects[k]));
        proof {
            assert(project_views(all@) =~= before.push(subs_v[k as int]));
            assert(os + subs_v.subrange(0, k + 1) =~= (os + subs_v.subrange(0, k as int)).push(subs_v[k as int]));
        }
        k = k + 1;
    }
    proof {
        assert(subs_v.subrange(0, sub_agent_projects@.len() as int) =~= subs_v);
    }
    let cands = sort_synthetic_projects_for_display(all);
    let ghost cv = project_views(cands@);
    proof {
        assert(project_ids(pv) == ids@);
        assert(name_keys(pv) == names@.map_values(|n: String| n@));
        assert(candidates_ok(pv, synthetic_projects@, subs_v, existing_repo_ids@, cv));
    }
    let mut out = projects;
    let mut c: usize = 0;
    proof {
        assert(cv.subrange(0, cv.len() as int) =~= cv);
    }
    while c < cands.len()
        invariant
            c <= cands@.len(),
            cv == project_views(cands@),
            candidates_ok(pv, synthetic_projects@, subs_v, existing_repo_ids@, cv),
            added(pv, cv) == added(project_views(out@), cv.subrange(c as int, cv.len() as int)),
        decreases cands@.len() - c,
    {
        proof {
            let t = cv.subrange(c as int, cv.len() as int);
            assert(t.drop_first() =~= cv.subrange(c + 1, cv.len() as int));
            assert(t[0] == cv[c as int]);
        }
        if !is_listed(&out, &cands[c]) {
            let ghost before = project_views(out@);
            out.push(copy_project(&cands[c]));
            proof {
                assert(project_views(out@) =~= before.push(cv[c as int]));
            }
        }
        c = c + 1;
    }
    proof {
        assert(cv.subrange(cands@.len() as int, cv.len() as int) =~= Seq::<ProjectView>::empty());
        assert(added(pv, cv) == project_views(out@));
    }
    let ghost merged = project_views(out@);
    let mut result: Vec<Project> = Vec::new();
    let mut j: usize = 0;
    proof {
        assert(project_views(result@) =~= merged.subrange(0, 0).map_values(
            |p: ProjectView| enriched(p, named_synthetic(synthetic_views(synthetic_projects@), subs_v, name_key(p.name))),
        ));
    }
    while j < out.len()
        invariant
            j <= out@.len(),
            merged == project_views(out@),
            project_views(result@) == merged.subrange(0, j as int).map_values(
                |p: ProjectView| enriched(p, named_synthetic(synthetic_views(synthetic_projects@), subs_v, name_key(p.name))),
            ),
            subs_v == project_views(sub_agent_projects@),
            candidates_ok(pv, synthetic_projects@, subs_v, existing_repo_ids@, cv),
            merged == added(pv, cv),
            pv == project_views(projects@),
        decreases out@.len() - j,
    {
        let p = &out[j];
        let key = project_name_key(p.name.as_str());
        let by = find_named(synthetic_projects, &sub_agent_projects, key.as_str());
        let mut q = copy_project(p);
        match by {
            Some(sp) => {
                if q.default_agent_working_dir.is_none() {
                    q.default_agent_working_dir = sp.default_agent_working_dir;
                }
            },
            None => {},
        }
        let ghost before = project_views(result@);
        result.push(q);
        proof {
            assert(project_views(result@) =~= before.push(q@));
            assert(merged.subrange(0, j + 1).map_values(
                |p: ProjectView| enriched(p, named_synthetic(synthetic_views(synthetic_projects@), subs_v, name_key(p.name))),
            ) =~= merged.subrange(0, j as int).map_values(
                |p: ProjectView| enriched(p, named_synthetic(synthetic_views(synthetic_projects@), subs_v, name_key(p.name))),
            ).push(enriched(merged[j as int], named_synthetic(synthetic_views(synthetic_projects@), subs_v, name_key(merged[j as int].name)))));
        }
        j = j + 1;
    }
    proof {
        assert(merged.subrange(0, out@.len() as int) =~= merged);
        assert(project_views(result@) =~= project_list_spec(pv, synthetic_projects@, subs_v, cv));
    }
    result
}

} // verus!
