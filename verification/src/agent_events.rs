//! What the tool calls and protocol events of a coding agent say about its
//! sub-agents: which agents were spawned, which are being waited on, and
//! the status each reached. Events, tool arguments and tool results are read
//! from their JSON (see [`crate::json`]) into the plain values below.
use vstd::prelude::*;
use crate::subagents::SubagentJobStatus;
use crate::json::{
    as_flag, as_text, get_member, json_text, json_view, lemma_items_view, lemma_members_view, member, members_view,
    items_view, parse_json, text_value, texts_of, Json, JsonView,
};
use crate::text::{has_suffix, lines, split_lines, str_eq, ends_with_str, trim, trim_str};

verus! {

/// `name` is the tool `tool` or a namespaced form of it (`ns.tool`).
pub open spec fn is_tool(name: Seq<char>, tool: Seq<char>) -> bool {
    name == tool || has_suffix(name, "."@ + tool)
}

/// Whether a tool call spawns a sub-agent.
pub fn is_spawn_agent_tool(tool_name: &str) -> (r: bool)
    ensures
        r == is_tool(tool_name@, "spawn_agent"@),
{
    proof {
        reveal_strlit(".spawn_agent");
        reveal_strlit(".");
        reveal_strlit("spawn_agent");
        assert(".spawn_agent"@ =~= "."@ + "spawn_agent"@);
    }
    str_eq(tool_name, "spawn_agent") || ends_with_str(tool_name, ".spawn_agent")
}

/// Whether a tool call waits for sub-agents.
pub fn is_wait_agent_tool(tool_name: &str) -> (r: bool)
    ensures
        r == is_tool(tool_name@, "wait_agent"@),
{
    proof {
        reveal_strlit(".wait_agent");
        reveal_strlit(".");
        reveal_strlit("wait_agent");
        assert(".wait_agent"@ =~= "."@ + "wait_agent"@);
    }
    str_eq(tool_name, "wait_agent") || ends_with_str(tool_name, ".wait_agent")
}

/// The texts of `xs` that are not blank, in order (non-text entries are
/// `None`).
pub open spec fn non_blank(xs: Seq<Option<Seq<char>>>) -> Seq<Seq<char>>
    decreases xs.len(),
{
    if xs.len() == 0 {
        Seq::<Seq<char>>::empty()
    } else {
        let rest = non_blank(xs.drop_last());
        match xs.last() {
            Some(t) => if trim(t).len() > 0 {
                rest.push(t)
            } else {
                rest
            },
            None => rest,
        }
    }
}

/// Optional texts as plain values.
pub open spec fn opt_views(xs: Seq<Option<String>>) -> Seq<Option<Seq<char>>> {
    xs.map_values(
        |x: Option<String>|
            match x {
                Some(s) => Some(s@),
                None => None,
            },
    )
}

/// Texts as plain values.
pub open spec fn str_views(xs: Seq<String>) -> Seq<Seq<char>> {
    xs.map_values(|x: String| x@)
}

/// The non-blank texts among `xs`, in order.
pub fn non_blank_texts(xs: &Vec<Option<String>>) -> (r: Vec<String>)
    ensures
        str_views(r@) == non_blank(opt_views(xs@)),
{
    let ghost v = opt_views(xs@);
    let mut out: Vec<String> = Vec::new();
    let mut i: usize = 0;
    while i < xs.len()
        invariant
            i <= xs@.len(),
            v == opt_views(xs@),
            str_views(out@) == non_blank(v.subrange(0, i as int)),
        decreases xs@.len() - i,
    {
        proof {
            let t = v.subrange(0, i + 1);
            assert(t.drop_last() =~= v.subrange(0, i as int));
        }
        match &xs[i] {
            Some(s) => {
                if trim_str(s.as_str()).unicode_len() > 0 {
                    let ghost before = out@;
                    out.push(s.clone());
                    proof {
                        assert(str_views(out@) =~= str_views(before).push(s@));
                    }
                }
            },
            None => {},
        }
        i = i + 1;
    }
    proof {
        assert(v.subrange(0, xs@.len() as int) =~= v);
    }
    out
}

/// The arguments of a wait call, as far as the targets go: the entries of
/// its `targets` array where it has one (`None` for an entry that is not
/// text), and its `target` where that is text.
pub struct WaitArguments {
    pub targets: Option<Vec<Option<String>>>,
    pub target: Option<String>,
}

/// The agents a wait call waits for: the non-blank entries of `targets`
/// where it is an array, else `target` where it is not blank.
pub open spec fn wait_targets_spec(args: Option<&WaitArguments>) -> Seq<Seq<char>> {
    match args {
        None => Seq::<Seq<char>>::empty(),
        Some(a) => match &a.targets {
            Some(ts) => non_blank(opt_views(ts@)),
            None => match &a.target {
                Some(t) => if trim(t@).len() > 0 {
                    seq![t@]
                } else {
                    Seq::<Seq<char>>::empty()
                },
                None => Seq::<Seq<char>>::empty(),
            },
        },
    }
}

/// The agents a wait call waits for, as [`wait_targets_spec`] says.
pub fn wait_agent_targets(arguments: Option<&WaitArguments>) -> (r: Vec<String>)
    ensures
        str_views(r@) == wait_targets_spec(arguments),
{
    match arguments {
        None => Vec::new(),
        Some(a) => match &a.targets {
            Some(ts) => non_blank_texts(ts),
            None => match &a.target {
                Some(t) => {
                    if trim_str(t.as_str()).unicode_len() > 0 {
                        let mut v: Vec<String> = Vec::new();
                        v.push(t.clone());
                        proof {
                            assert(str_views(v@) =~= seq![t@]);
                        }
                        v
                    } else {
                        Vec::new()
                    }
                },
                None => Vec::new(),
            },
        },
    }
}

/// What a wait call reports of one agent.
#[derive(Clone, Copy, Debug, PartialEq, Eq, Structural)]
pub enum WaitReport {
    /// The text `not_found`.
    NotFound,
    /// An object with a `completed` entry.
    Completed,
    /// Anything else.
    Other,
}

/// The result of a sub-agent tool call, as far as the jobs go.
pub struct ToolResultPayload {
    /// `agent_id`, where it is text.
    pub agent_id: Option<String>,
    /// `nickname`, where it is text.
    pub nickname: Option<String>,
    /// `timed_out`, where it is a boolean.
    pub timed_out: Option<bool>,
    /// The entries of `status`, in order, where it is an object.
    pub status: Option<Vec<(String, WaitReport)>>,
}

/// Status of a tool call, as far as the jobs go.
#[derive(Clone, Copy, Debug, PartialEq, Eq, Structural)]
pub enum ToolCallStatus {
    /// The call was made and has not finished.
    Created,
    /// The call failed.
    Failed,
    /// Any other state.
    Other,
}

/// A change to the job record of a sub-agent.
pub enum JobUpdate {
    /// Set the agent's status (a finished job keeps its own).
    SetStatus { agent_id: String, status: SubagentJobStatus },
    /// Record a spawned agent.
    Spawned { agent_id: String, nickname: Option<String> },
}

/// A job change as plain values.
pub enum JobUpdateView {
    SetStatus { agent_id: Seq<char>, status: SubagentJobStatus },
    Spawned { agent_id: Seq<char>, nickname: Option<Seq<char>> },
}

impl View for JobUpdate {
    type V = JobUpdateView;

    open spec fn view(&self) -> JobUpdateView {
        match self {
            JobUpdate::SetStatus { agent_id, status } => JobUpdateView::SetStatus {
                agent_id: agent_id@,
                status: *status,
            },
            JobUpdate::Spawned { agent_id, nickname } => JobUpdateView::Spawned {
                agent_id: agent_id@,
                nickname: match nickname {
                    Some(n) => Some(n@),
                    None => None,
                },
            },
        }
    }
}

/// The status a wait call reports of an agent: not found, completed, else
/// running where the wait timed out, else unresolved.
pub open spec fn reported_status(report: WaitReport, timed_out: bool) -> SubagentJobStatus {
    match report {
        WaitReport::NotFound => SubagentJobStatus::NotFound,
        WaitReport::Completed => SubagentJobStatus::Completed,
        WaitReport::Other => if timed_out {
            SubagentJobStatus::Running
        } else {
            SubagentJobStatus::Unresolved
        },
    }
}

/// Each agent set to the same status.
pub open spec fn all_set(agents: Seq<Seq<char>>, status: SubagentJobStatus) -> Seq<JobUpdateView> {
    agents.map_values(|a: Seq<char>| JobUpdateView::SetStatus { agent_id: a, status })
}

/// The reports of a wait call as job changes.
pub open spec fn reports_set(reports: Seq<(String, WaitReport)>, timed_out: bool) -> Seq<JobUpdateView> {
    reports.map_values(
        |r: (String, WaitReport)|
            JobUpdateView::SetStatus { agent_id: r.0@, status: reported_status(r.1, timed_out) },
    )
}

/// The job changes a sub-agent tool call makes. A spawn call with an agent
/// id records the agent as spawned, or as failed where the call failed. A
/// wait call that was just made marks its targets running; a finished one
/// sets the status each agent is reported with, or, with no reports, marks
/// the targets running where it timed out.
pub open spec fn tool_updates_spec(
    tool_name: Seq<char>,
    status: ToolCallStatus,
    arguments: Option<&WaitArguments>,
    result: Option<&ToolResultPayload>,
) -> Seq<JobUpdateView> {
    if is_tool(tool_name, "spawn_agent"@) {
        match result {
            Some(p) => match &p.agent_id {
                Some(a) => if status == ToolCallStatus::Failed {
                    seq![JobUpdateView::SetStatus { agent_id: a@, status: SubagentJobStatus::Failed }]
                } else {
                    seq![
                        JobUpdateView::Spawned {
                            agent_id: a@,
                            nickname: match &p.nickname {
                                Some(n) => Some(n@),
                                None => None,
                            },
                        },
                    ]
                },
                None => Seq::empty(),
            },
            None => Seq::empty(),
        }
    } else if is_tool(tool_name, "wait_agent"@) {
        let targets = wait_targets_spec(arguments);
        if status == ToolCallStatus::Created {
            all_set(targets, SubagentJobStatus::Running)
        } else {
            let timed_out = match result {
                Some(p) => match p.timed_out {
                    Some(b) => b,
                    None => false,
                },
                None => false,
            };
            match result {
                Some(p) => match &p.status {
                    Some(reports) => reports_set(reports@, timed_out),
                    None => if timed_out {
                        all_set(targets, SubagentJobStatus::Running)
                    } else {
                        Seq::empty()
                    },
                },
                None => if timed_out {
                    all_set(targets, SubagentJobStatus::Running)
                } else {
                    Seq::empty()
                },
            }
        }
    } else {
        Seq::empty()
    }
}

/// The job changes as plain values.
pub open spec fn update_views(us: Seq<JobUpdate>) -> Seq<JobUpdateView> {
    us.map_values(|u: JobUpdate| u@)
}

fn set_all(agents: Vec<String>, status: SubagentJobStatus) -> (r: Vec<JobUpdate>)
    ensures
        update_views(r@) == all_set(str_views(agents@), status),
{
    let mut out: Vec<JobUpdate> = Vec::new();
    let mut i: usize = 0;
    while i < agents.len()
        invariant
            i <= agents@.len(),
            update_views(out@) == all_set(str_views(agents@.subrange(0, i as int)), status),
        decreases agents@.len() - i,
    {
        let ghost before = out@;
        out.push(JobUpdate::SetStatus { agent_id: agents[i].clone(), status });
        proof {
            assert(str_views(agents@.subrange(0, i + 1)) =~= str_views(agents@.subrange(0, i as int)).push(agents@[i as int]@));
            assert(update_views(out@) =~= update_views(before).push(out@[i as int]@));
        }
        i = i + 1;
    }
    proof {
        assert(agents@.subrange(0, agents@.len() as int) =~= agents@);
    }
    out
}

fn set_reported(reports: &Vec<(String, WaitReport)>, timed_out: bool) -> (r: Vec<JobUpdate>)
    ensures
        update_views(r@) == reports_set(reports@, timed_out),
{
    let mut out: Vec<JobUpdate> = Vec::new();
    let mut i: usize = 0;
    while i < reports.len()
        invariant
            i <= reports@.len(),
            update_views(out@) == reports_set(reports@.subrange(0, i as int), timed_out),
        decreases reports@.len() - i,
    {
        let status = match reports[i].1 {
            WaitReport::NotFound => SubagentJobStatus::NotFound,
            WaitReport::Completed => SubagentJobStatus::Completed,
            WaitReport::Other => if timed_out {
                SubagentJobStatus::Running
            } else {
                SubagentJobStatus::Unresolved
            },
        };
        let ghost before = out@;
        out.push(JobUpdate::SetStatus { agent_id: reports[i].0.clone(), status });
        proof {
            assert(reports_set(reports@.subrange(0, i + 1), timed_out) =~= reports_set(
                reports@.subrange(0, i as int),
                timed_out,
            ).push(out@[i as int]@));
            assert(update_views(out@) =~= update_views(before).push(out@[i as int]@));
        }
        i = i + 1;
    }
    proof {
        assert(reports@.subrange(0, reports@.len() as int) =~= reports@);
    }
    out
}

/// The job changes of a sub-agent tool call, as [`tool_updates_spec`] says.
pub fn subagent_job_updates(
    tool_name: &str,
    status: ToolCallStatus,
    arguments: Option<&WaitArguments>,
    result: Option<&ToolResultPayload>,
) -> (r: Vec<JobUpdate>)
    ensures
        update_views(r@) == tool_updates_spec(tool_name@, status, arguments, result),
{
    if is_spawn_agent_tool(tool_name) {
        let mut out: Vec<JobUpdate> = Vec::new();
        match result {
            Some(p) => match &p.agent_id {
                Some(a) => {
                    if status == ToolCallStatus::Failed {
                        out.push(JobUpdate::SetStatus { agent_id: a.clone(), status: SubagentJobStatus::Failed });
                    } else {
                        let nickname = match &p.nickname {
                            Some(n) => Some(n.clone()),
                            None => None,
                        };
                        out.push(JobUpdate::Spawned { agent_id: a.clone(), nickname });
                    }
                },
                None => {},
            },
            None => {},
        }
        proof {
            assert(update_views(out@) =~= tool_updates_spec(tool_name@, status, arguments, result));
        }
        out
    } else if is_wait_agent_tool(tool_name) {
        let targets = wait_agent_targets(arguments);
        if status == ToolCallStatus::Created {
            return set_all(targets, SubagentJobStatus::Running);
        }
        let timed_out = match result {
            Some(p) => match p.timed_out {
                Some(b) => b,
                None => false,
            },
            None => false,
        };
        match result {
            Some(p) => match &p.status {
                Some(reports) => {
                    return set_reported(reports, timed_out);
                },
                None => {},
            },
            None => {},
        }
        if timed_out {
            set_all(targets, SubagentJobStatus::Running)
        } else {
            let out: Vec<JobUpdate> = Vec::new();
            proof {
                assert(update_views(out@) =~= Seq::<JobUpdateView>::empty());
            }
            out
        }
    } else {
        let out: Vec<JobUpdate> = Vec::new();
        proof {
            assert(update_views(out@) =~= Seq::<JobUpdateView>::empty());
        }
        out
    }
}

/// A completed protocol item, as far as spawned agents go.
pub struct CompletedItem {
    /// `type`, where it is text.
    pub item_type: Option<String>,
    /// `tool`, where it is text.
    pub tool: Option<String>,
    /// `status`, where it is text.
    pub status: Option<String>,
    /// The entries of `receiverThreadIds` where it is an array (`None` for
    /// an entry that is not text).
    pub receiver_thread_ids: Option<Vec<Option<String>>>,
}

/// A protocol event of the agent, as far as spawned agents go.
pub struct CodexEvent {
    /// `method`, where it is text.
    pub method: Option<String>,
    /// `params.item`, where it is an object.
    pub item: Option<CompletedItem>,
}

/// An optional text is the given one.
pub open spec fn opt_is(o: Option<String>, s: Seq<char>) -> bool {
    match o {
        Some(x) => x@ == s,
        None => false,
    }
}

/// The agents a completed item reports spawned: for a completed
/// `spawnAgent` collaboration call, its non-blank receiver thread ids.
pub open spec fn spawned_by_item(item: CompletedItem) -> Seq<Seq<char>> {
    if opt_is(item.item_type, "collabAgentToolCall"@) && opt_is(item.tool, "spawnAgent"@) && opt_is(
        item.status,
        "completed"@,
    ) {
        match item.receiver_thread_ids {
            Some(ids) => non_blank(opt_views(ids@)),
            None => Seq::empty(),
        }
    } else {
        Seq::empty()
    }
}

fn opt_eq(o: &Option<String>, s: &str) -> (r: bool)
    ensures
        r == opt_is(*o, s@),
{
    match o {
        Some(x) => str_eq(x.as_str(), s),
        None => false,
    }
}

/// The agents a completed item reports spawned, as [`spawned_by_item`]
/// says.
pub fn raw_spawn_events_from_completed_item(item: Option<&CompletedItem>) -> (r: Vec<String>)
    ensures
        str_views(r@) == match item {
            Some(i) => spawned_by_item(*i),
            None => Seq::empty(),
        },
{
    match item {
        None => {
            let out: Vec<String> = Vec::new();
            proof {
                assert(str_views(out@) =~= Seq::<Seq<char>>::empty());
            }
            out
        },
        Some(i) => {
            if opt_eq(&i.item_type, "collabAgentToolCall") && opt_eq(&i.tool, "spawnAgent") && opt_eq(
                &i.status,
                "completed",
            ) {
                match &i.receiver_thread_ids {
                    Some(ids) => {
                        return non_blank_texts(ids);
                    },
                    None => {},
                }
            }
            let out: Vec<String> = Vec::new();
            proof {
                assert(str_views(out@) =~= Seq::<Seq<char>>::empty());
            }
            out
        },
    }
}

/// The agents a protocol event reports spawned: those of the item of an
/// `item/completed` event.
pub open spec fn spawned_by_event(e: CodexEvent) -> Seq<Seq<char>> {
    if opt_is(e.method, "item/completed"@) {
        match e.item {
            Some(i) => spawned_by_item(i),
            None => Seq::empty(),
        }
    } else {
        Seq::empty()
    }
}

/// The agents a sequence of events reports spawned, in order.
pub open spec fn spawned_by_events(es: Seq<CodexEvent>) -> Seq<Seq<char>>
    decreases es.len(),
{
    if es.len() == 0 {
        Seq::empty()
    } else {
        spawned_by_events(es.drop_last()) + spawned_by_event(es.last())
    }
}

/// Whether a value is an object.
fn is_object(j: &Json) -> (r: bool)
    ensures
        r == (json_view(*j) is Object),
{
    match j {
        Json::Object(_) => true,
        _ => false,
    }
}

/// The elements of an array value, each as its text where it is a string.
fn array_texts(v: Option<&Json>) -> (r: Option<Vec<Option<String>>>)
    ensures
        match v {
            Some(j) => match json_view(*j) {
                JsonView::Array(xs) => r is Some && opt_views(r->0@) == texts_of(xs),
                _ => r is None,
            },
            None => r is None,
        },
{
    match v {
        Some(Json::Array(items)) => {
            let ghost iv = items_view(items@);
            proof {
                lemma_items_view(items@);
            }
            let mut out: Vec<Option<String>> = Vec::new();
            let mut i: usize = 0;
            while i < items.len()
                invariant
                    i <= items@.len(),
                    iv == items_view(items@),
                    iv.len() == items@.len(),
                    forall|k: int| 0 <= k < items@.len() ==> #[trigger] iv[k] == json_view(items@[k]),
                    opt_views(out@) == texts_of(iv.subrange(0, i as int)),
                decreases items@.len() - i,
            {
                let t = text_value(Some(&items[i]));
                let ghost before = opt_views(out@);
                out.push(t);
                proof {
                    assert(texts_of(iv.subrange(0, i + 1)) =~= texts_of(iv.subrange(0, i as int)).push(
                        as_text(Some(iv[i as int])),
                    ));
                    assert(opt_views(out@) =~= before.push(as_text(Some(iv[i as int]))));
                }
                i = i + 1;
            }
            proof {
                assert(iv.subrange(0, iv.len() as int) =~= iv);
            }
            Some(out)
        },
        _ => None,
    }
}

/// The agents a completed protocol item (a JSON object) reports spawned:
/// for a completed `spawnAgent` collaboration call, the non-blank string
/// entries of its `receiverThreadIds` array.
pub open spec fn item_spawned(item: JsonView) -> Seq<Seq<char>> {
    if as_text(member(item, "type"@)) == Some("collabAgentToolCall"@) && as_text(member(item, "tool"@)) == Some(
        "spawnAgent"@,
    ) && as_text(member(item, "status"@)) == Some("completed"@) {
        match member(item, "receiverThreadIds"@) {
            Some(JsonView::Array(xs)) => non_blank(texts_of(xs)),
            _ => Seq::empty(),
        }
    } else {
        Seq::empty()
    }
}

/// The agents a protocol event (a JSON value) reports spawned: those of the
/// `item` object in the `params` object of an `item/completed` event.
pub open spec fn spawned_in_json(ev: JsonView) -> Seq<Seq<char>> {
    if as_text(member(ev, "method"@)) == Some("item/completed"@) {
        match member(ev, "params"@) {
            Some(p) => if p is Object {
                match member(p, "item"@) {
                    Some(i) => if i is Object {
                        item_spawned(i)
                    } else {
                        Seq::empty()
                    },
                    None => Seq::empty(),
                }
            } else {
                Seq::empty()
            },
            None => Seq::empty(),
        }
    } else {
        Seq::empty()
    }
}

/// The agents a protocol event reports spawned, as [`spawned_in_json`] says.
pub fn spawned_in_event(ev: &Json) -> (r: Vec<String>)
    ensures
        str_views(r@) == spawned_in_json(json_view(*ev)),
{
    let method = text_value(get_member(ev, "method"));
    if !opt_eq(&method, "item/completed") {
        let out: Vec<String> = Vec::new();
        proof {
            assert(str_views(out@) =~= Seq::<Seq<char>>::empty());
        }
        return out;
    }
    let empty: Vec<String> = Vec::new();
    proof {
        assert(str_views(empty@) =~= Seq::<Seq<char>>::empty());
    }
    let params = match get_member(ev, "params") {
        Some(p) => p,
        None => {
            return empty;
        },
    };
    if !is_object(params) {
        return empty;
    }
    let item = match get_member(params, "item") {
        Some(i) => i,
        None => {
            return empty;
        },
    };
    if !is_object(item) {
        return empty;
    }
    let kind = text_value(get_member(item, "type"));
    let tool = text_value(get_member(item, "tool"));
    let status = text_value(get_member(item, "status"));
    if !(opt_eq(&kind, "collabAgentToolCall") && opt_eq(&tool, "spawnAgent") && opt_eq(&status, "completed")) {
        return empty;
    }
    match array_texts(get_member(item, "receiverThreadIds")) {
        Some(ids) => non_blank_texts(&ids),
        None => empty,
    }
}

/// The agents the lines of a process's output report spawned: each line
/// that parses as JSON is read as a protocol event, in order.
pub open spec fn spawned_in_output(ls: Seq<Seq<char>>) -> Seq<Seq<char>>
    decreases ls.len(),
{
    if ls.len() == 0 {
        Seq::empty()
    } else {
        spawned_in_output(ls.drop_last()) + match json_text(ls.last()) {
            Some(v) => spawned_in_json(v),
            None => Seq::empty(),
        }
    }
}

/// The agents a process's standard output reports spawned, as
/// [`spawned_in_output`] says of its lines.
pub fn raw_subagent_events_from_stdout(stdout: &str) -> (r: Vec<String>)
    ensures
        str_views(r@) == spawned_in_output(lines(stdout@)),
{
    let ls = split_lines(stdout);
    let ghost lv = ls@.map_values(|l: String| l@);
    let mut out: Vec<String> = Vec::new();
    let mut i: usize = 0;
    while i < ls.len()
        invariant
            i <= ls@.len(),
            lv == ls@.map_values(|l: String| l@),
            str_views(out@) == spawned_in_output(lv.subrange(0, i as int)),
        decreases ls@.len() - i,
    {
        proof {
            let t = lv.subrange(0, i + 1);
            assert(t.drop_last() =~= lv.subrange(0, i as int));
            assert(t.last() == ls@[i as int]@);
        }
        let ghost before = str_views(out@);
        match parse_json(ls[i].as_str()) {
            Some(ev) => {
                let mut found = spawned_in_event(&ev);
                let ghost fv = str_views(found@);
                out.append(&mut found);
                proof {
                    assert(str_views(out@) =~= before + fv);
                }
            },
            None => {
                proof {
                    assert(before + Seq::<Seq<char>>::empty() =~= before);
                }
            },
        }
        i = i + 1;
    }
    proof {
        assert(lv.subrange(0, lv.len() as int) =~= lv);
    }
    out
}

/// The value a tool result carries: a string holds the JSON it is parsed
/// from (nothing where it does not parse); any other value is itself.
pub fn result_payload(value: Option<Json>) -> (r: Option<Json>)
    ensures
        match value {
            None => r is None,
            Some(j) => match j {
                Json::Str(t) => match r {
                    Some(x) => json_text(t@) == Some(json_view(x)),
                    None => json_text(t@) is None,
                },
                _ => r == Some(j),
            },
        },
{
    match value {
        None => None,
        Some(Json::Str(text)) => parse_json(text.as_str()),
        Some(j) => Some(j),
    }
}

/// What a wait call reports of one agent, as a JSON value: the string
/// `not_found`, an object with a `completed` member, or anything else.
pub open spec fn report_of(v: JsonView) -> WaitReport {
    if v == JsonView::Str("not_found"@) {
        WaitReport::NotFound
    } else if v is Object && member(v, "completed"@) is Some {
        WaitReport::Completed
    } else {
        WaitReport::Other
    }
}

/// An optional text as a plain value.
pub open spec fn opt_str(o: Option<String>) -> Option<Seq<char>> {
    match o {
        Some(s) => Some(s@),
        None => None,
    }
}

/// The reports as plain values.
pub open spec fn report_views(rs: Seq<(String, WaitReport)>) -> Seq<(Seq<char>, WaitReport)> {
    rs.map_values(|r: (String, WaitReport)| (r.0@, r.1))
}

/// `payload` is what the JSON value `v` says for the jobs: its string
/// `agent_id` and `nickname`, its boolean `timed_out`, and the members of
/// its `status` object with what each reports.
pub open spec fn payload_of(payload: ToolResultPayload, v: JsonView) -> bool {
    &&& opt_str(payload.agent_id) == as_text(member(v, "agent_id"@))
    &&& opt_str(payload.nickname) == as_text(member(v, "nickname"@))
    &&& payload.timed_out == as_flag(member(v, "timed_out"@))
    &&& match member(v, "status"@) {
        Some(JsonView::Object(ms)) => payload.status is Some && report_views(payload.status->0@) == ms.map_values(
            |m: (Seq<char>, JsonView)| (m.0, report_of(m.1)),
        ),
        _ => payload.status is None,
    }
}

fn report_value(v: &Json) -> (r: WaitReport)
    ensures
        r == report_of(json_view(*v)),
{
    proof {
        reveal_strlit("not_found");
    }
    match v {
        Json::Str(s) => {
            if str_eq(s.as_str(), "not_found") {
                WaitReport::NotFound
            } else {
                WaitReport::Other
            }
        },
        Json::Object(_) => {
            if get_member(v, "completed").is_some() {
                WaitReport::Completed
            } else {
                WaitReport::Other
            }
        },
        _ => WaitReport::Other,
    }
}

fn flag_value(v: Option<&Json>) -> (r: Option<bool>)
    ensures
        r == match v {
            Some(j) => as_flag(Some(json_view(*j))),
            None => None,
        },
{
    match v {
        Some(Json::Bool(b)) => Some(*b),
        _ => None,
    }
}

/// What a tool result says for the jobs, as [`payload_of`] says.
pub fn payload_from_json(v: &Json) -> (r: ToolResultPayload)
    ensures
        payload_of(r, json_view(*v)),
{
    let agent_id = text_value(get_member(v, "agent_id"));
    let nickname = text_value(get_member(v, "nickname"));
    let timed_out = flag_value(get_member(v, "timed_out"));
    let status = match get_member(v, "status") {
        Some(Json::Object(members)) => {
            let ghost mv = members_view(members@);
            proof {
                lemma_members_view(members@);
            }
            let mut out: Vec<(String, WaitReport)> = Vec::new();
            let mut i: usize = 0;
            while i < members.len()
                invariant
                    i <= members@.len(),
                    mv == members_view(members@),
                    mv.len() == members@.len(),
                    forall|k: int| 0 <= k < members@.len() ==> #[trigger] mv[k] == (members@[k].0@, json_view(members@[k].1)),
                    report_views(out@) == mv.subrange(0, i as int).map_values(
                        |m: (Seq<char>, JsonView)| (m.0, report_of(m.1)),
                    ),
                decreases members@.len() - i,
            {
                let rep = report_value(&members[i].1);
                let ghost before = report_views(out@);
                out.push((members[i].0.clone(), rep));
                proof {
                    assert(mv.subrange(0, i + 1).map_values(|m: (Seq<char>, JsonView)| (m.0, report_of(m.1)))
                        =~= mv.subrange(0, i as int).map_values(|m: (Seq<char>, JsonView)| (m.0, report_of(m.1))).push(
                        (mv[i as int].0, report_of(mv[i as int].1)),
                    ));
                    assert(report_views(out@) =~= before.push((mv[i as int].0, report_of(mv[i as int].1))));
                }
                i = i + 1;
            }
            proof {
                assert(mv.subrange(0, mv.len() as int) =~= mv);
            }
            Some(out)
        },
        _ => None,
    };
    ToolResultPayload { agent_id, nickname, timed_out, status }
}

/// What a tool's result (`None` where it has none) says for the jobs: its
/// payload, as [`result_payload`] gives it, read as [`payload_of`] says.
pub fn tool_result_of(result: Option<Json>) -> (r: Option<ToolResultPayload>)
    ensures
        match result {
            None => r is None,
            Some(j) => match j {
                Json::Str(t) => match json_text(t@) {
                    Some(v) => r is Some && payload_of(r->0, v),
                    None => r is None,
                },
                _ => r is Some && payload_of(r->0, json_view(j)),
            },
        },
{
    match result_payload(result) {
        Some(p) => Some(payload_from_json(&p)),
        None => None,
    }
}

/// The arguments of a wait call (a JSON value), as [`WaitArguments`]
/// holds them: the entries of its `targets` array and its string `target`.
pub fn wait_arguments_of(args: &Json) -> (r: WaitArguments)
    ensures
        match member(json_view(*args), "targets"@) {
            Some(JsonView::Array(xs)) => r.targets is Some && opt_views(r.targets->0@) == texts_of(xs),
            _ => r.targets is None,
        },
        opt_str(r.target) == as_text(member(json_view(*args), "target"@)),
{
    let targets = array_texts(get_member(args, "targets"));
    let target = text_value(get_member(args, "target"));
    WaitArguments { targets, target }
}

/// The agents the events of a turn's output report spawned, in order.
pub fn raw_subagent_events(events: &Vec<CodexEvent>) -> (r: Vec<String>)
    ensures
        str_views(r@) == spawned_by_events(events@),
{
    let mut out: Vec<String> = Vec::new();
    let mut k: usize = 0;
    while k < events.len()
        invariant
            k <= events@.len(),
            str_views(out@) == spawned_by_events(events@.subrange(0, k as int)),
        decreases events@.len() - k,
    {
        let e = &events[k];
        let mut found = if opt_eq(&e.method, "item/completed") {
            match &e.item {
                Some(i) => raw_spawn_events_from_completed_item(Some(i)),
                None => Vec::new(),
            }
        } else {
            Vec::new()
        };
        proof {
            assert(str_views(found@) == spawned_by_event(*e)) by {
                if !(opt_is(e.method, "item/completed"@) && e.item is Some) {
                    assert(str_views(found@) =~= Seq::<Seq<char>>::empty());
                }
            }
            assert(events@.subrange(0, k + 1).drop_last() =~= events@.subrange(0, k as int));
        }
        let ghost before = out@;
        let ghost added = found@;
        out.append(&mut found);
        proof {
            assert(str_views(out@) =~= str_views(before) + str_views(added));
        }
        k = k + 1;
    }
    proof {
        assert(events@.subrange(0, events@.len() as int) =~= events@);
    }
    out
}

} // verus!
