//! Rules of workspace creation: the prompt a workspace starts with, the
//! local issue it is linked to, and the rewriting of imported attachment
//! links in the prompt. Positions in text are counted in characters.
use vstd::prelude::*;
use crate::ids::{parse_uuid, uuid_parse};
use crate::text::{is_blank, push_char, trim, trim_str, str_eq};

verus! {

/// The prompt a workspace starts with: the given one trimmed, if anything
/// is left.
pub open spec fn normalized_prompt(prompt: Seq<char>) -> Option<Seq<char>> {
    if trim(prompt).len() == 0 {
        None
    } else {
        Some(trim(prompt))
    }
}

/// The trimmed prompt, or `None` where it is blank.
pub fn normalize_prompt(prompt: &str) -> (r: Option<String>)
    ensures
        match r {
            Some(p) => normalized_prompt(prompt@) == Some(p@),
            None => normalized_prompt(prompt@) is None,
        },
{
    let t = trim_str(prompt);
    if t.unicode_len() == 0 {
        None
    } else {
        Some(String::from_str(t))
    }
}

/// Why a workspace cannot be created and started.
#[derive(Clone, Copy, Debug, PartialEq, Eq, Structural)]
pub enum StartRequestError {
    /// The prompt is blank.
    PromptRequired,
    /// No repository was given.
    RepositoryRequired,
}

impl StartRequestError {
    /// The message the request is refused with.
    pub fn message(&self) -> (r: &'static str)
        ensures
            r@ == match *self {
                StartRequestError::PromptRequired => "A workspace prompt is required. Provide a non-empty `prompt`."@,
                StartRequestError::RepositoryRequired => "At least one repository is required"@,
            },
    {
        match self {
            StartRequestError::PromptRequired => "A workspace prompt is required. Provide a non-empty `prompt`.",
            StartRequestError::RepositoryRequired => "At least one repository is required",
        }
    }
}

/// Checks a request to create and start a workspace: the prompt must not be
/// blank (checked first), and at least one repository must be given. On
/// success, the prompt the workspace starts with.
pub fn validate_start_request(prompt: &str, repo_count: usize) -> (r: Result<String, StartRequestError>)
    ensures
        match r {
            Ok(p) => normalized_prompt(prompt@) == Some(p@) && repo_count > 0,
            Err(StartRequestError::PromptRequired) => normalized_prompt(prompt@) is None,
            Err(StartRequestError::RepositoryRequired) => normalized_prompt(prompt@) is Some
                && repo_count == 0,
        },
{
    match normalize_prompt(prompt) {
        None => Err(StartRequestError::PromptRequired),
        Some(p) => {
            if repo_count == 0 {
                Err(StartRequestError::RepositoryRequired)
            } else {
                Ok(p)
            }
        },
    }
}

/// The label a new workspace's branch is named from: its name where that is
/// not empty, else `workspace`.
pub fn workspace_branch_label(name: Option<&str>) -> (r: &str)
    ensures
        r@ == match name {
            Some(n) => if n@.len() > 0 {
                n@
            } else {
                "workspace"@
            },
            None => "workspace"@,
        },
{
    match name {
        Some(n) => {
            if n.unicode_len() > 0 {
                n
            } else {
                "workspace"
            }
        },
        None => "workspace",
    }
}

/// The local task a linked issue names: none where the project is linked
/// to a remote project, or the task is missing or belongs to another
/// project. `task` is the task found under the issue's id, with the id of
/// its project.
pub fn linked_task_id(
    project_is_remote: bool,
    task: Option<(u128, u128)>,
    linked_project_id: u128,
) -> (r: Option<u128>)
    ensures
        r == (match task {
            Some((id, project)) => if !project_is_remote && project == linked_project_id {
                Some(id)
            } else {
                None
            },
            None => None,
        }),
{
    if project_is_remote {
        return None;
    }
    match task {
        Some((id, project)) => {
            if project == linked_project_id {
                Some(id)
            } else {
                None
            }
        },
        None => None,
    }
}

/// The ids of the tasks whose trimmed title is `name`, in order.
pub open spec fn matching_ids(tasks: Seq<(u128, Seq<char>)>, name: Seq<char>) -> Seq<u128>
    decreases tasks.len(),
{
    if tasks.len() == 0 {
        Seq::<u128>::empty()
    } else {
        let rest = matching_ids(tasks.drop_last(), name);
        if trim(tasks.last().1) == name {
            rest.push(tasks.last().0)
        } else {
            rest
        }
    }
}

/// The tasks as ids and title texts.
pub open spec fn task_views(tasks: Seq<(u128, String)>) -> Seq<(u128, Seq<char>)> {
    tasks.map_values(|t: (u128, String)| (t.0, t.1@))
}

/// What the matching ids say of the tasks: none where no task's trimmed
/// title is `name`; exactly the id of the one task whose trimmed title is
/// `name` where only that task has it.
pub proof fn lemma_matching_ids_by_title(tv: Seq<(u128, Seq<char>)>, name: Seq<char>)
    ensures
        matching_ids(tv, name).len() == 0 <==> (forall|i: int| 0 <= i < tv.len() ==> trim(#[trigger] tv[i].1) != name),
        forall|i: int|
            0 <= i < tv.len() && trim(#[trigger] tv[i].1) == name && (forall|j: int|
                0 <= j < tv.len() && j != i ==> trim(#[trigger] tv[j].1) != name) ==> matching_ids(tv, name).len() == 1
                && matching_ids(tv, name)[0] == tv[i].0,
        matching_ids(tv, name).len() == 1 ==> exists|i: int|
            0 <= i < tv.len() && trim(#[trigger] tv[i].1) == name && matching_ids(tv, name)[0] == tv[i].0 && (forall|j: int|
                0 <= j < tv.len() && j != i ==> trim(#[trigger] tv[j].1) != name),
    decreases tv.len(),
{
    if tv.len() > 0 {
        let pre = tv.drop_last();
        let n = tv.len() - 1;
        lemma_matching_ids_by_title(pre, name);
        assert forall|i: int| 0 <= i < n implies #[trigger] tv[i] == pre[i] by {}
        let last_matches = trim(tv[n].1) == name;
        assert(tv.last() == tv[n]);
        if last_matches {
            assert(!(forall|i: int| 0 <= i < tv.len() ==> trim(#[trigger] tv[i].1) != name));
        } else {
            if forall|i: int| 0 <= i < n ==> trim(#[trigger] pre[i].1) != name {
                assert forall|i: int| 0 <= i < tv.len() implies trim(#[trigger] tv[i].1) != name by {
                    if i < n {
                        assert(tv[i] == pre[i]);
                    }
                }
            }
        }
        assert forall|i: int|
            0 <= i < tv.len() && trim(#[trigger] tv[i].1) == name && (forall|j: int|
                0 <= j < tv.len() && j != i ==> trim(#[trigger] tv[j].1) != name) implies matching_ids(tv, name).len()
            == 1 && matching_ids(tv, name)[0] == tv[i].0 by {
            if i == n {
                assert forall|k: int| 0 <= k < pre.len() implies trim(#[trigger] pre[k].1) != name by {
                    assert(tv[k] == pre[k]);
                    assert(k != i);
                    assert(trim(tv[k].1) != name);
                }
            } else {
                assert(trim(tv[n].1) != name);
                assert(pre[i] == tv[i]);
                assert forall|j: int| 0 <= j < pre.len() && j != i implies trim(#[trigger] pre[j].1) != name by {
                    assert(tv[j] == pre[j]);
                    assert(trim(tv[j].1) != name);
                }
            }
        }
        if matching_ids(tv, name).len() == 1 {
            if last_matches {
                assert(matching_ids(pre, name).len() == 0);
                assert forall|j: int| 0 <= j < tv.len() && j != n implies trim(#[trigger] tv[j].1) != name by {
                    assert(tv[j] == pre[j]);
                    assert(trim(pre[j].1) != name);
                }
                assert(matching_ids(tv, name)[0] == tv[n].0);
            } else {
                let i = choose|i: int|
                    0 <= i < pre.len() && trim(#[trigger] pre[i].1) == name && matching_ids(pre, name)[0] == pre[i].0
                        && (forall|j: int| 0 <= j < pre.len() && j != i ==> trim(#[trigger] pre[j].1) != name);
                assert(tv[i] == pre[i]);
                assert forall|j: int| 0 <= j < tv.len() && j != i implies trim(#[trigger] tv[j].1) != name by {
                    if j < n {
                        assert(tv[j] == pre[j]);
                        assert(trim(pre[j].1) != name);
                    }
                }
            }
        }
    }
}

proof fn lemma_task_titles(tasks: Seq<(u128, String)>, name: Seq<char>)
    ensures
        forall|i: int|
            0 <= i < tasks.len() && trim(#[trigger] tasks[i].1@) == name && (forall|j: int|
                0 <= j < tasks.len() && j != i ==> trim(#[trigger] tasks[j].1@) != name) ==> matching_ids(
                task_views(tasks),
                name,
            ).len() == 1 && matching_ids(task_views(tasks), name)[0] == tasks[i].0,
        matching_ids(task_views(tasks), name).len() == 1 ==> exists|i: int|
            0 <= i < tasks.len() && trim(#[trigger] tasks[i].1@) == name && matching_ids(task_views(tasks), name)[0]
                == tasks[i].0 && (forall|j: int| 0 <= j < tasks.len() && j != i ==> trim(#[trigger] tasks[j].1@) != name),
{
    let tv = task_views(tasks);
    lemma_matching_ids_by_title(tv, name);
    assert forall|i: int| 0 <= i < tasks.len() implies #[trigger] tv[i] == (tasks[i].0, tasks[i].1@) by {}
    assert forall|i: int|
        0 <= i < tasks.len() && trim(#[trigger] tasks[i].1@) == name && (forall|j: int|
            0 <= j < tasks.len() && j != i ==> trim(#[trigger] tasks[j].1@) != name) implies matching_ids(tv, name).len()
        == 1 && matching_ids(tv, name)[0] == tasks[i].0 by {
        assert(tv[i] == (tasks[i].0, tasks[i].1@));
        assert forall|j: int| 0 <= j < tv.len() && j != i implies trim(#[trigger] tv[j].1) != name by {
            assert(tv[j] == (tasks[j].0, tasks[j].1@));
            assert(trim(tasks[j].1@) != name);
        }
        assert(trim(tv[i].1) == name);
    }
    if matching_ids(tv, name).len() == 1 {
        let i = choose|i: int|
            0 <= i < tv.len() && trim(#[trigger] tv[i].1) == name && matching_ids(tv, name)[0] == tv[i].0 && (forall|j: int|
                0 <= j < tv.len() && j != i ==> trim(#[trigger] tv[j].1) != name);
        assert(tv[i] == (tasks[i].0, tasks[i].1@));
        assert forall|j: int| 0 <= j < tasks.len() && j != i implies trim(#[trigger] tasks[j].1@) != name by {
            assert(tv[j] == (tasks[j].0, tasks[j].1@));
            assert(trim(tv[j].1) != name);
        }
        assert(trim(tasks[i].1@) == name);
    }
}

/// The one task whose trimmed title is the workspace's name; none where no
/// task or more than one task has it.
pub fn unique_matching_task_id(tasks: &Vec<(u128, String)>, workspace_name: &str) -> (r: Option<u128>)
    ensures
        r == (if matching_ids(task_views(tasks@), workspace_name@).len() == 1 {
            Some(matching_ids(task_views(tasks@), workspace_name@)[0])
        } else {
            None
        }),
        forall|i: int|
            0 <= i < tasks@.len() && trim(#[trigger] tasks@[i].1@) == workspace_name@ && (forall|j: int|
                0 <= j < tasks@.len() && j != i ==> trim(#[trigger] tasks@[j].1@) != workspace_name@) ==> r == Some(
                tasks@[i].0,
            ),
        r is Some ==> exists|i: int|
            0 <= i < tasks@.len() && trim(#[trigger] tasks@[i].1@) == workspace_name@ && r == Some(tasks@[i].0) && (
            forall|j: int| 0 <= j < tasks@.len() && j != i ==> trim(#[trigger] tasks@[j].1@) != workspace_name@),
{
    proof {
        lemma_task_titles(tasks@, workspace_name@);
    }
    let ghost tv = task_views(tasks@);
    let mut found: Option<u128> = None;
    let mut i: usize = 0;
    while i < tasks.len()
        invariant
            i <= tasks.len(),
            tv == task_views(tasks@),
            matching_ids(tv.subrange(0, i as int), workspace_name@).len() <= 1,
            found == (if matching_ids(tv.subrange(0, i as int), workspace_name@).len() == 1 {
                Some(matching_ids(tv.subrange(0, i as int), workspace_name@)[0])
            } else {
                None
            }),
        decreases tasks.len() - i,
    {
        let t = trim_str(tasks[i].1.as_str());
        proof {
            let s = tv.subrange(0, i + 1);
            assert(s.drop_last() =~= tv.subrange(0, i as int));
            assert(s.last() == (tasks@[i as int].0, tasks@[i as int].1@));
        }
        if str_eq(t, workspace_name) {
            if found.is_some() {
                proof {
                    lemma_matching_grows(tv, workspace_name@, i as int + 1);
                    lemma_task_titles(tasks@, workspace_name@);
                }
                return None;
            }
            found = Some(tasks[i].0);
        }
        i = i + 1;
    }
    proof {
        assert(tv.subrange(0, tasks.len() as int) =~= tv);
    }
    found
}

proof fn lemma_matching_grows(tv: Seq<(u128, Seq<char>)>, name: Seq<char>, k: int)
    requires
        0 <= k <= tv.len(),
    ensures
        matching_ids(tv.subrange(0, k), name).len() <= matching_ids(tv, name).len(),
    decreases tv.len() - k,
{
    if k < tv.len() {
        let s = tv.subrange(0, k + 1);
        assert(s.drop_last() =~= tv.subrange(0, k));
        lemma_matching_grows(tv, name, k + 1);
    } else {
        assert(tv.subrange(0, k) =~= tv);
    }
}

/// A file imported from a linked issue, as the prompt rewriting reads it.
pub struct ImportedAttachment {
    /// Id of the attachment the issue's markdown refers to.
    pub attachment_id: u128,
    /// Path of the stored file under the attachments directory.
    pub file_path: String,
    /// Name the file was uploaded with.
    pub original_name: String,
}

/// An imported attachment as plain values.
pub struct AttachmentView {
    pub attachment_id: u128,
    pub file_path: Seq<char>,
    pub original_name: Seq<char>,
}

impl View for ImportedAttachment {
    type V = AttachmentView;

    open spec fn view(&self) -> AttachmentView {
        AttachmentView {
            attachment_id: self.attachment_id,
            file_path: self.file_path@,
            original_name: self.original_name@,
        }
    }
}

/// `label` with `[`, `]` and `\` escaped by a backslash.
pub open spec fn escaped_label(label: Seq<char>) -> Seq<char>
    decreases label.len(),
{
    if label.len() == 0 {
        Seq::<char>::empty()
    } else {
        let c = label.last();
        let prev = escaped_label(label.drop_last());
        if c == '[' || c == ']' || c == '\\' {
            prev.push('\\').push(c)
        } else {
            prev.push(c)
        }
    }
}

/// Escapes the characters that would end or open a markdown link label.
pub fn escape_markdown_label(label: &str) -> (r: String)
    ensures
        r@ == escaped_label(label@),
{
    let label_cs = crate::text::chars_of(label);
    let n = label_cs.len();
    let mut out = String::new();
    let mut i: usize = 0;
    while i < n
        invariant
            label_cs@ == label@,
            n == label@.len(),
            i <= n,
            out@ == escaped_label(label@.subrange(0, i as int)),
        decreases n - i,
    {
        let c = label_cs[i];
        proof {
            let t = label@.subrange(0, i + 1);
            assert(t.drop_last() =~= label@.subrange(0, i as int));
            assert(t.last() == c);
        }
        if c == '[' || c == ']' || c == '\\' {
            push_char(&mut out, '\\');
        }
        push_char(&mut out, c);
        i = i + 1;
    }
    proof {
        assert(label@.subrange(0, n as int) =~= label@);
    }
    out
}

/// The markdown that links a workspace prompt to an imported file: the
/// authored label (the file's original name where the label is blank),
/// escaped, pointing into `.vibe-attachments/`; an image link where the
/// authored markdown was one.
pub open spec fn attachment_markdown(file: AttachmentView, label: Seq<char>, image: bool) -> Seq<char> {
    let shown = if trim(label).len() == 0 {
        file.original_name
    } else {
        label
    };
    let body = "["@ + escaped_label(shown) + "]("@ + ".vibe-attachments/"@ + file.file_path + ")"@;
    if image {
        "!"@ + body
    } else {
        body
    }
}

/// Markdown for an imported file, as [`attachment_markdown`] says.
pub fn build_workspace_attachment_markdown(
    file: &ImportedAttachment,
    label: &str,
    uses_image_markdown: bool,
) -> (r: String)
    ensures
        r@ == attachment_markdown(file@, label@, uses_image_markdown),
{
    let shown = if is_blank(label) {
        file.original_name.as_str()
    } else {
        label
    };
    let escaped = escape_markdown_label(shown);
    let start = if uses_image_markdown {
        "!["
    } else {
        "["
    };
    let out = start.to_string().concat(escaped.as_str()).concat("](").concat(
        ".vibe-attachments/",
    ).concat(file.file_path.as_str()).concat(")");
    proof {
        reveal_strlit("![");
        reveal_strlit("[");
        reveal_strlit("!");
        assert(("!"@ + ("["@ + escaped_label(shown@))) =~= "!["@ + escaped_label(shown@));
    }
    assert(out@ =~= attachment_markdown(file@, label@, uses_image_markdown));
    out
}

/// First position at or after `i` where `target` stands unescaped in `s`,
/// scanning from a state in which the previous character was an escaping
/// backslash or not.
pub open spec fn unescaped_from(s: Seq<char>, target: char, i: int, escaped: bool) -> Option<int>
    decreases s.len() - i,
{
    if i < 0 || i >= s.len() {
        None
    } else if escaped {
        unescaped_from(s, target, i + 1, false)
    } else if s[i] == '\\' {
        unescaped_from(s, target, i + 1, true)
    } else if s[i] == target {
        Some(i)
    } else {
        unescaped_from(s, target, i + 1, false)
    }
}

/// Position of the first `target` in `haystack` that no backslash escapes.
pub fn find_unescaped_char(haystack: &str, target: char) -> (r: Option<usize>)
    ensures
        match r {
            Some(i) => unescaped_from(haystack@, target, 0, false) == Some(i as int),
            None => unescaped_from(haystack@, target, 0, false) is None,
        },
{
    let haystack_cs = crate::text::chars_of(haystack);
    let n = haystack_cs.len();
    let mut escaped = false;
    let mut i: usize = 0;
    while i < n
        invariant
            haystack_cs@ == haystack@,
            n == haystack@.len(),
            i <= n,
            unescaped_from(haystack@, target, 0, false) == unescaped_from(
                haystack@,
                target,
                i as int,
                escaped,
            ),
        decreases n - i,
    {
        let c = haystack_cs[i];
        if escaped {
            escaped = false;
        } else if c == '\\' {
            escaped = true;
        } else if c == target {
            return Some(i);
        }
        i = i + 1;
    }
    None
}

/// What an attachment link at a position of a prompt holds.
pub struct ParsedAttachmentMarkdown {
    pub attachment_id: u128,
    /// Position of the label's first character.
    pub label_start: usize,
    /// Position just after the label.
    pub label_end: usize,
    pub uses_image_markdown: bool,
    /// Position just after the link.
    pub end: usize,
}

/// The link `[label](attachment://<uuid>)` or `![label](attachment://<uuid>)`
/// at position `start` of `p`: the attachment id, where the label starts
/// and ends, whether it is an image link, and where the link ends. The label
/// ends at the first unescaped `]`; the id runs to the first `)` after the
/// prefix and must parse as a UUID.
pub open spec fn attachment_link_at(p: Seq<char>, start: int) -> Option<(u128, int, int, bool, int)> {
    let rest = p.subrange(start, p.len() as int);
    let image = rest.len() >= 2 && rest[0] == '!' && rest[1] == '[';
    let plain = !image && rest.len() >= 1 && rest[0] == '[';
    let off: int = if image {
        2
    } else {
        1
    };
    let prefix = "(attachment://"@;
    if !(0 <= start <= p.len()) || !(image || plain) {
        None
    } else {
        match unescaped_from(p.subrange(start + off, p.len() as int), ']', 0, false) {
            None => None,
            Some(le) => {
                let label_end = start + off + le;
                let id_start = label_end + 1 + prefix.len();
                if !(id_start <= p.len() && p.subrange(label_end + 1, id_start) == prefix) {
                    None
                } else {
                    let id_rest = p.subrange(id_start, p.len() as int);
                    match crate::text::first_occurrence(id_rest, seq![')']) {
                        None => None,
                        Some(ie) => match uuid_parse(id_rest.subrange(0, ie)) {
                            None => None,
                            Some(id) => Some((id, start + off, label_end, image, id_start + ie + 1)),
                        },
                    }
                }
            },
        }
    }
}

proof fn lemma_unescaped_in_range(s: Seq<char>, target: char, i: int, escaped: bool)
    requires
        0 <= i,
    ensures
        match unescaped_from(s, target, i, escaped) {
            Some(k) => i <= k < s.len() && s[k] == target,
            None => true,
        },
    decreases s.len() - i,
{
    if i < s.len() {
        if escaped {
            lemma_unescaped_in_range(s, target, i + 1, false);
        } else if s[i] == '\\' {
            lemma_unescaped_in_range(s, target, i + 1, true);
        } else if s[i] != target {
            lemma_unescaped_in_range(s, target, i + 1, false);
        }
    }
}

/// The attachment link at position `start` of `prompt`, as
/// [`attachment_link_at`] says.
pub fn parse_attachment_markdown_at(prompt: &str, start: usize) -> (r: Option<ParsedAttachmentMarkdown>)
    ensures
        match r {
            Some(a) => attachment_link_at(prompt@, start as int) == Some(
                (a.attachment_id, a.label_start as int, a.label_end as int, a.uses_image_markdown, a.end as int),
            ),
            None => attachment_link_at(prompt@, start as int) is None,
        },
{
    let n = prompt.unicode_len();
    if start > n {
        return None;
    }
    let rest = prompt.substring_char(start, n);
    let image = n - start >= 2 && prompt.get_char(start) == '!' && prompt.get_char(start + 1) == '[';
    let plain = !image && n - start >= 1 && prompt.get_char(start) == '[';
    if !(image || plain) {
        return None;
    }
    let off: usize = if image {
        2
    } else {
        1
    };
    let label_rest = prompt.substring_char(start + off, n);
    let le = match find_unescaped_char(label_rest, ']') {
        Some(le) => le,
        None => {
            return None;
        },
    };
    proof {
        lemma_unescaped_in_range(label_rest@, ']', 0, false);
    }
    let label_end = start + off + le;
    let prefix = "(attachment://";
    proof {
        reveal_strlit("(attachment://");
    }
    let m = prefix.unicode_len();
    if label_end + 1 > n || m > n - (label_end + 1) {
        return None;
    }
    let id_start = label_end + 1 + m;
    let between = prompt.substring_char(label_end + 1, id_start);
    if !str_eq(between, prefix) {
        return None;
    }
    let id_rest = prompt.substring_char(id_start, n);
    proof {
        reveal_strlit(")");
        assert(")"@ =~= seq![')']);
    }
    let ie = match crate::text::find_str(id_rest, ")") {
        Some(ie) => ie,
        None => {
            return None;
        },
    };
    let id = match parse_uuid(id_rest.substring_char(0, ie)) {
        Some(id) => id,
        None => {
            return None;
        },
    };
    Some(
        ParsedAttachmentMarkdown {
            attachment_id: id,
            label_start: start + off,
            label_end,
            uses_image_markdown: image,
            end: id_start + ie + 1,
        },
    )
}


/// An attachment link found at a position starts there, has its label
/// inside it, and ends after it, within the text.
pub proof fn lemma_link_bounds(p: Seq<char>, start: int)
    ensures
        match attachment_link_at(p, start) {
            Some((_, ls, le, _, end)) => start < ls <= le < end <= p.len(),
            None => true,
        },
{
    let rest = p.subrange(start, p.len() as int);
    let image = rest.len() >= 2 && rest[0] == '!' && rest[1] == '[';
    let off: int = if image {
        2
    } else {
        1
    };
    if 0 <= start <= p.len() && start + off <= p.len() {
        lemma_unescaped_in_range(p.subrange(start + off, p.len() as int), ']', 0, false);
    }
    match attachment_link_at(p, start) {
        Some((_, ls, le, _, end)) => {
            let label_end = le;
            let id_start = label_end + 1 + "(attachment://"@.len();
            let id_rest = p.subrange(id_start, p.len() as int);
            let ie = crate::text::first_occurrence(id_rest, seq![')'])->0;
            assert(crate::text::first_at(id_rest, seq![')'], ie));
        },
        None => {},
    }
}

/// The imported file an attachment id refers to: the last one with that id.
pub open spec fn attachment_for(atts: Seq<AttachmentView>, id: u128) -> Option<AttachmentView>
    decreases atts.len(),
{
    if atts.len() == 0 {
        None
    } else if atts.last().attachment_id == id {
        Some(atts.last())
    } else {
        attachment_for(atts.drop_last(), id)
    }
}

/// `p` from position `i` on, with every attachment link whose id names an
/// imported file replaced by a link to that file.
pub open spec fn rewritten_from(p: Seq<char>, atts: Seq<AttachmentView>, i: int) -> Seq<char>
    decreases p.len() - i,
{
    if i < 0 || i >= p.len() {
        Seq::<char>::empty()
    } else {
        proof {
            lemma_link_bounds(p, i);
        }
        match attachment_link_at(p, i) {
            Some((id, ls, le, image, end)) => match attachment_for(atts, id) {
                Some(file) => attachment_markdown(file, p.subrange(ls, le), image) + rewritten_from(
                    p,
                    atts,
                    end,
                ),
                None => seq![p[i]] + rewritten_from(p, atts, i + 1),
            },
            None => seq![p[i]] + rewritten_from(p, atts, i + 1),
        }
    }
}

/// The imported files as plain values.
pub open spec fn attachment_views(atts: Seq<ImportedAttachment>) -> Seq<AttachmentView> {
    atts.map_values(|a: ImportedAttachment| a@)
}

fn find_attachment(imported: &Vec<ImportedAttachment>, id: u128) -> (r: Option<usize>)
    ensures
        match r {
            Some(k) => k < imported.len() && attachment_for(attachment_views(imported@), id) == Some(
                imported@[k as int]@,
            ),
            None => attachment_for(attachment_views(imported@), id) is None,
        },
{
    let ghost v = attachment_views(imported@);
    let mut k: usize = imported.len();
    proof {
        assert(v.subrange(0, k as int) =~= v);
    }
    while k > 0
        invariant
            k <= imported.len(),
            v == attachment_views(imported@),
            attachment_for(v, id) == attachment_for(v.subrange(0, k as int), id),
        decreases k,
    {
        proof {
            let t = v.subrange(0, k as int);
            assert(t.drop_last() =~= v.subrange(0, k - 1));
            assert(t.last() == imported@[k - 1]@);
        }
        if imported[k - 1].attachment_id == id {
            return Some(k - 1);
        }
        k = k - 1;
    }
    None
}

/// What a prompt becomes once the links to attachments of the linked issue
/// point at the files imported from it.
pub open spec fn rewritten_prompt(p: Seq<char>, atts: Seq<AttachmentView>) -> Seq<char> {
    if atts.len() == 0 {
        p
    } else {
        rewritten_from(p, atts, 0)
    }
}

/// Rewrites the `attachment://` links of a prompt whose id names an
/// imported file into links to that file; leaves every other character,
/// and links to attachments not imported, as they are.
pub fn rewrite_imported_issue_attachments_markdown(
    prompt: &str,
    imported_attachments: &Vec<ImportedAttachment>,
) -> (r: String)
    ensures
        r@ == rewritten_prompt(prompt@, attachment_views(imported_attachments@)),
{
    if imported_attachments.len() == 0 {
        return String::from_str(prompt);
    }
    let ghost atts = attachment_views(imported_attachments@);
    let cs = crate::text::chars_of(prompt);
    let n = cs.len();
    let mut out = String::new();
    let mut i: usize = 0;
    while i < n
        invariant
            cs@ == prompt@,
            n == prompt@.len(),
            i <= n,
            atts == attachment_views(imported_attachments@),
            rewritten_from(prompt@, atts, 0) == out@ + rewritten_from(prompt@, atts, i as int),
        decreases n - i,
    {
        proof {
            lemma_link_bounds(prompt@, i as int);
        }
        let c = cs[i];
        let found = if c == '[' || c == '!' {
            parse_attachment_markdown_at(prompt, i)
        } else {
            proof {
                assert(prompt@.subrange(i as int, n as int)[0] == c);
            }
            None
        };
        match found {
            Some(a) => match find_attachment(imported_attachments, a.attachment_id) {
                Some(k) => {
                    let label = prompt.substring_char(a.label_start, a.label_end);
                    let md = build_workspace_attachment_markdown(
                        &imported_attachments[k],
                        label,
                        a.uses_image_markdown,
                    );
                    let ghost before = out@;
                    out.append(md.as_str());
                    proof {
                        assert(before + (md@ + rewritten_from(prompt@, atts, a.end as int)) =~= out@
                            + rewritten_from(prompt@, atts, a.end as int));
                    }
                    i = a.end;
                    continue;
                },
                None => {},
            },
            None => {},
        }
        let ghost before = out@;
        push_char(&mut out, c);
        proof {
            assert(before + (seq![c] + rewritten_from(prompt@, atts, i + 1)) =~= out@
                + rewritten_from(prompt@, atts, i + 1));
        }
        i = i + 1;
    }
    proof {
        assert(out@ + rewritten_from(prompt@, atts, n as int) =~= out@);
    }
    out
}

} // verus!
