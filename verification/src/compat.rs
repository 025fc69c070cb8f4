//! Status and metadata rules of the local compatibility routes: status
//! keys, canonical names, ids, colors and the `Original Status` metadata
//! line kept in issue descriptions.
use vstd::prelude::*;
use crate::ids::uuid_text;
use crate::text::{
    has_prefix, i64_to_decimal, is_ascii_alnum, is_blank, join, join_strings, lines, lower, lower_char,
    lower_str, parse_i64, parse_i64_spec, push_char, first_word, first_word_str, strip_leading,
    trim_start_matches_char, upper_char, upper_ascii_char, signed_decimal, split_lines, split_once,
    split_once_str, str_eq, strip_prefix_str, trim, trim_start, trim_start_str, trim_str,
};

verus! {

/// Status of a local task.
#[derive(Clone, Copy, Debug, PartialEq, Eq, Structural)]
pub enum TaskStatus {
    Todo,
    InProgress,
    InReview,
    Done,
    Cancelled,
}

/// Lower-cased ASCII letters and digits of `s`, in order.
pub open spec fn status_key(s: Seq<char>) -> Seq<char>
    decreases s.len(),
{
    if s.len() == 0 {
        s
    } else {
        let r = status_key(s.drop_last());
        if is_ascii_alnum(s.last()) {
            r.push(lower_char(s.last()))
        } else {
            r
        }
    }
}

/// The key two spellings of a status share ("In Progress", "in_progress").
pub fn normalize_status_key(value: &str) -> (r: String)
    ensures
        r@ == status_key(value@),
{
    let value_cs = crate::text::chars_of(value);
    let n = value_cs.len();
    let mut out = String::new();
    let mut i: usize = 0;
    while i < n
        invariant
            value_cs@ == value@,
            n == value@.len(),
            i <= n,
            out@ == status_key(value@.subrange(0, i as int)),
        decreases n - i,
    {
        let c = value_cs[i];
        proof {
            let t = value@.subrange(0, i + 1);
            assert(t.drop_last() =~= value@.subrange(0, i as int));
            assert(t.last() == c);
        }
        if crate::text::is_ascii_alnum_char(c) {
            push_char(&mut out, crate::text::lower_ascii_char(c));
        }
        i = i + 1;
    }
    proof {
        assert(value@.subrange(0, n as int) =~= value@);
    }
    out
}

pub open spec fn task_status_id_spec(s: TaskStatus) -> Seq<char> {
    match s {
        TaskStatus::Todo => "todo"@,
        TaskStatus::InProgress => "in_progress"@,
        TaskStatus::InReview => "in_review"@,
        TaskStatus::Done => "done"@,
        TaskStatus::Cancelled => "cancelled"@,
    }
}

pub open spec fn task_status_name_spec(s: TaskStatus) -> Seq<char> {
    match s {
        TaskStatus::Todo => "To do"@,
        TaskStatus::InProgress => "In progress"@,
        TaskStatus::InReview => "In review"@,
        TaskStatus::Done => "Done"@,
        TaskStatus::Cancelled => "Cancelled"@,
    }
}

/// Id of the column a task status is shown in.
pub fn task_status_id(status: &TaskStatus) -> (r: &'static str)
    ensures
        r@ == task_status_id_spec(*status),
{
    match status {
        TaskStatus::Todo => "todo",
        TaskStatus::InProgress => "in_progress",
        TaskStatus::InReview => "in_review",
        TaskStatus::Done => "done",
        TaskStatus::Cancelled => "cancelled",
    }
}

/// Display name of a task status.
pub fn task_status_name(status: &TaskStatus) -> (r: &'static str)
    ensures
        r@ == task_status_name_spec(*status),
{
    match status {
        TaskStatus::Todo => "To do",
        TaskStatus::InProgress => "In progress",
        TaskStatus::InReview => "In review",
        TaskStatus::Done => "Done",
        TaskStatus::Cancelled => "Cancelled",
    }
}

/// Status stored for a status name or id; unknown statuses are to do.
pub open spec fn parse_task_status_spec(id: Seq<char>) -> TaskStatus {
    let k = status_key(id);
    if k == "inprogress"@ {
        TaskStatus::InProgress
    } else if k == "inreview"@ || k == "instaging"@ {
        TaskStatus::InReview
    } else if k == "done"@ || k == "completed"@ {
        TaskStatus::Done
    } else if k == "cancelled"@ || k == "canceled"@ {
        TaskStatus::Cancelled
    } else {
        TaskStatus::Todo
    }
}

pub fn parse_task_status(status_id: &str) -> (r: TaskStatus)
    ensures
        r == parse_task_status_spec(status_id@),
{
    let key = normalize_status_key(status_id);
    let k = key.as_str();
    if str_eq(k, "inprogress") {
        TaskStatus::InProgress
    } else if str_eq(k, "inreview") || str_eq(k, "instaging") {
        TaskStatus::InReview
    } else if str_eq(k, "done") || str_eq(k, "completed") {
        TaskStatus::Done
    } else if str_eq(k, "cancelled") || str_eq(k, "canceled") {
        TaskStatus::Cancelled
    } else {
        TaskStatus::Todo
    }
}

pub open spec fn canonical_status_name_spec(id: Seq<char>) -> Seq<char> {
    let k = status_key(id);
    if k == "inprogress"@ {
        "In progress"@
    } else if k == "inreview"@ {
        "In review"@
    } else if k == "instaging"@ {
        "In Staging"@
    } else if k == "done"@ || k == "completed"@ {
        "Done"@
    } else if k == "cancelled"@ || k == "canceled"@ {
        "Cancelled"@
    } else {
        "To do"@
    }
}

/// Canonical display name for a status id.
pub fn canonical_status_name(status_id: &str) -> (r: String)
    ensures
        r@ == canonical_status_name_spec(status_id@),
{
    let key = normalize_status_key(status_id);
    let k = key.as_str();
    if str_eq(k, "inprogress") {
        String::from_str("In progress")
    } else if str_eq(k, "inreview") {
        String::from_str("In review")
    } else if str_eq(k, "instaging") {
        String::from_str("In Staging")
    } else if str_eq(k, "done") || str_eq(k, "completed") {
        String::from_str("Done")
    } else if str_eq(k, "cancelled") || str_eq(k, "canceled") {
        String::from_str("Cancelled")
    } else {
        String::from_str("To do")
    }
}

/// Whether a status name denotes "In Staging".
pub fn is_in_staging_status(value: &str) -> (r: bool)
    ensures
        r == (status_key(value@) == "instaging"@),
{
    let key = normalize_status_key(value);
    str_eq(key.as_str(), "instaging")
}

pub open spec fn status_id_from_name_spec(name: Seq<char>) -> Seq<char> {
    let k = status_key(name);
    if k == "inprogress"@ {
        "in_progress"@
    } else if k == "inreview"@ {
        "in_review"@
    } else if k == "instaging"@ {
        "in_staging"@
    } else if k == "done"@ || k == "completed"@ {
        "done"@
    } else if k == "cancelled"@ || k == "canceled"@ {
        "cancelled"@
    } else if k == "todo"@ {
        "todo"@
    } else {
        "status_"@ + k
    }
}

/// Column id for a status name.
pub fn status_id_from_name(name: &str) -> (r: String)
    ensures
        r@ == status_id_from_name_spec(name@),
{
    let key = normalize_status_key(name);
    let k = key.as_str();
    if str_eq(k, "inprogress") {
        String::from_str("in_progress")
    } else if str_eq(k, "inreview") {
        String::from_str("in_review")
    } else if str_eq(k, "instaging") {
        String::from_str("in_staging")
    } else if str_eq(k, "done") || str_eq(k, "completed") {
        String::from_str("done")
    } else if str_eq(k, "cancelled") || str_eq(k, "canceled") {
        String::from_str("cancelled")
    } else if str_eq(k, "todo") {
        String::from_str("todo")
    } else {
        String::from_str("status_").concat(k)
    }
}

pub open spec fn status_color_spec(name: Seq<char>) -> Seq<char> {
    let k = status_key(name);
    if k == "inprogress"@ {
        "42 90% 55%"@
    } else if k == "inreview"@ {
        "280 55% 58%"@
    } else if k == "instaging"@ {
        "196 72% 47%"@
    } else if k == "done"@ || k == "completed"@ {
        "145 55% 42%"@
    } else if k == "cancelled"@ || k == "canceled"@ {
        "0 0% 55%"@
    } else {
        "220 70% 52%"@
    }
}

/// HSL color of a status column.
pub fn status_color(name: &str) -> (r: &'static str)
    ensures
        r@ == status_color_spec(name@),
{
    let key = normalize_status_key(name);
    let k = key.as_str();
    if str_eq(k, "inprogress") {
        "42 90% 55%"
    } else if str_eq(k, "inreview") {
        "280 55% 58%"
    } else if str_eq(k, "instaging") {
        "196 72% 47%"
    } else if str_eq(k, "done") || str_eq(k, "completed") {
        "145 55% 42%"
    } else if str_eq(k, "cancelled") || str_eq(k, "canceled") {
        "0 0% 55%"
    } else {
        "220 70% 52%"
    }
}

pub open spec fn status_sort_order_spec(name: Seq<char>) -> i64 {
    let k = status_key(name);
    if k == "todo"@ {
        0
    } else if k == "inprogress"@ {
        1
    } else if k == "inreview"@ {
        2
    } else if k == "instaging"@ {
        3
    } else if k == "done"@ || k == "completed"@ {
        4
    } else if k == "cancelled"@ || k == "canceled"@ {
        5
    } else {
        100
    }
}

/// Position of a status column; unknown statuses go last.
pub fn status_sort_order(name: &str) -> (r: i64)
    ensures
        r == status_sort_order_spec(name@),
{
    let key = normalize_status_key(name);
    let k = key.as_str();
    if str_eq(k, "todo") {
        0
    } else if str_eq(k, "inprogress") {
        1
    } else if str_eq(k, "inreview") {
        2
    } else if str_eq(k, "instaging") {
        3
    } else if str_eq(k, "done") || str_eq(k, "completed") {
        4
    } else if str_eq(k, "cancelled") || str_eq(k, "canceled") {
        5
    } else {
        100
    }
}

/// Cancelled columns are hidden.
pub fn status_hidden(name: &str) -> (r: bool)
    ensures
        r == (status_key(name@) == "cancelled"@ || status_key(name@) == "canceled"@),
{
    let key = normalize_status_key(name);
    str_eq(key.as_str(), "cancelled") || str_eq(key.as_str(), "canceled")
}

/// The status a metadata line names, if it is such a line with a value.
pub open spec fn status_value(line: Seq<char>) -> Option<Seq<char>> {
    let t = trim(line);
    let a = "- Original Status:"@;
    let b = "Original Status:"@;
    if has_prefix(t, a) && trim(t.subrange(a.len() as int, t.len() as int)).len() > 0 {
        Some(trim(t.subrange(a.len() as int, t.len() as int)))
    } else if has_prefix(t, b) && trim(t.subrange(b.len() as int, t.len() as int)).len() > 0 {
        Some(trim(t.subrange(b.len() as int, t.len() as int)))
    } else {
        None
    }
}

/// The first status named by a metadata line.
pub open spec fn first_status(ls: Seq<Seq<char>>) -> Option<Seq<char>>
    decreases ls.len(),
{
    if ls.len() == 0 {
        None
    } else {
        match status_value(ls[0]) {
            Some(v) => Some(v),
            None => first_status(ls.drop_first()),
        }
    }
}

fn line_status(line: &str) -> (r: Option<String>)
    ensures
        opt_str(r) == status_value(line@),
{
    let t = trim_str(line);
    match strip_prefix_str(t, "- Original Status:") {
        Some(rest) => {
            let v = trim_str(rest);
            if v.unicode_len() > 0 {
                return Some(String::from_str(v));
            }
        },
        None => {},
    }
    match strip_prefix_str(t, "Original Status:") {
        Some(rest) => {
            let v = trim_str(rest);
            if v.unicode_len() > 0 {
                return Some(String::from_str(v));
            }
        },
        None => {},
    }
    None
}

pub open spec fn opt_str(o: Option<String>) -> Option<Seq<char>> {
    match o {
        Some(s) => Some(s@),
        None => None,
    }
}

/// The status an imported issue description records, else the name of the
/// task's own status.
pub fn extract_status_name(description: Option<&str>, fallback: &TaskStatus) -> (r: String)
    ensures
        r@ == match first_status(lines(match description {
            Some(d) => d@,
            None => Seq::<char>::empty(),
        })) {
            Some(v) => v,
            None => task_status_name_spec(*fallback),
        },
{
    let body = match description {
        Some(d) => d,
        None => "",
    };
    proof {
        if description is None {
            reveal_strlit("");
            assert(body@ =~= Seq::<char>::empty());
        }
    }
    let ls = split_lines(body);
    let ghost lv = ls@.map_values(|l: String| l@);
    let ghost d = match description {
        Some(d) => d@,
        None => Seq::<char>::empty(),
    };
    let mut i: usize = 0;
    proof {
        assert(lv.subrange(0, lv.len() as int) =~= lv);
    }
    while i < ls.len()
        invariant
            i <= ls.len(),
            lv == lines(d),
            d == match description {
                Some(dd) => dd@,
                None => Seq::<char>::empty(),
            },
            lv == ls@.map_values(|l: String| l@),
            first_status(lv) == first_status(lv.subrange(i as int, lv.len() as int)),
        decreases ls.len() - i,
    {
        let v = line_status(ls[i].as_str());
        proof {
            let t = lv.subrange(i as int, lv.len() as int);
            assert(t[0] == lv[i as int]);
            assert(t.drop_first() =~= lv.subrange(i + 1, lv.len() as int));
        }
        match v {
            Some(s) => {
                return s;
            },
            None => {},
        }
        i = i + 1;
    }
    String::from_str(task_status_name(fallback))
}

/// The metadata line for a status.
pub open spec fn status_line_prefix() -> Seq<char> {
    "- Original Status: "@
}

/// Whether a line (ignoring leading whitespace) is a status metadata line.
pub open spec fn is_status_line(line: Seq<char>) -> bool {
    has_prefix(trim_start(line), "- Original Status:"@) || has_prefix(
        trim_start(line),
        "Original Status:"@,
    )
}

/// A line with its status metadata (if any) replaced by `name`, keeping
/// its indentation.
pub open spec fn rewrite_status_line(line: Seq<char>, name: Seq<char>) -> Seq<char> {
    if is_status_line(line) {
        line.subrange(0, line.len() - trim_start(line).len()) + status_line_prefix() + name
    } else {
        line
    }
}

/// Description with its status metadata set to `name`.
pub open spec fn ensured_metadata(body: Seq<char>, name: Seq<char>) -> Option<Seq<char>> {
    let ls = lines(body);
    let joined = join(ls.map_values(|l: Seq<char>| rewrite_status_line(l, name)), "\n"@);
    let replaced = exists|i: int| 0 <= i < ls.len() && is_status_line(ls[i]);
    let next = if replaced {
        joined
    } else {
        (if trim(joined).len() == 0 {
            joined
        } else {
            joined + "\n\n"@
        }) + "Local metadata\n- Original Status: "@ + name
    };
    if trim(next).len() == 0 {
        None
    } else {
        Some(trim(next))
    }
}

/// Records (or updates) the `Original Status` line of a description.
pub fn ensure_status_metadata(description: Option<String>, status_name: &str) -> (r: Option<String>)
    ensures
        opt_str(r) == ensured_metadata(
            match description {
                Some(d) => d@,
                None => Seq::<char>::empty(),
            },
            status_name@,
        ),
{
    let body = match description {
        Some(d) => d,
        None => String::new(),
    };
    let ls = split_lines(body.as_str());
    let ghost lv = ls@.map_values(|l: String| l@);
    let ghost target = lv.map_values(|l: Seq<char>| rewrite_status_line(l, status_name@));
    let mut out: Vec<String> = Vec::new();
    let mut replaced = false;
    let mut i: usize = 0;
    while i < ls.len()
        invariant
            i <= ls.len(),
            lv == ls@.map_values(|l: String| l@),
            target == lv.map_values(|l: Seq<char>| rewrite_status_line(l, status_name@)),
            out@.map_values(|l: String| l@) =~= target.subrange(0, i as int),
            replaced == exists|j: int| 0 <= j < i && is_status_line(lv[j]),
        decreases ls.len() - i,
    {
        let line = ls[i].as_str();
        let trimmed = trim_start_str(line);
        let is_meta = crate::text::starts_with_str(trimmed, "- Original Status:")
            || crate::text::starts_with_str(trimmed, "Original Status:");
        let ghost ov = out@.map_values(|l: String| l@);
        proof {
            crate::text::lemma_trim_start_len(line@);
        }
        if is_meta {
            let prefix_len = line.unicode_len() - trimmed.unicode_len();
            let prefix = line.substring_char(0, prefix_len);
            let rewritten = String::from_str(prefix).concat("- Original Status: ").concat(
                status_name,
            );
            proof {
                assert(rewritten@ == rewrite_status_line(lv[i as int], status_name@));
            }
            out.push(rewritten);
            replaced = true;
        } else {
            let kept = String::from_str(line);
            proof {
                assert(kept@ == rewrite_status_line(lv[i as int], status_name@));
            }
            out.push(kept);
        }
        proof {
            assert(target.subrange(0, i + 1) =~= target.subrange(0, i as int).push(
                target[i as int],
            ));
            if is_meta {
                assert(is_status_line(lv[i as int]));
            }
        }
        i = i + 1;
    }
    proof {
        assert(target.subrange(0, ls.len() as int) =~= target);
    }
    let mut next = join_strings(&out, "\n");
    proof {
        reveal_strlit("\n");
    }
    if !replaced {
        if !is_blank(next.as_str()) {
            next.append("\n\n");
        }
        next.append("Local metadata\n- Original Status: ");
        next.append(status_name);
    }
    let trimmed = trim_str(next.as_str());
    if trimmed.unicode_len() == 0 {
        None
    } else {
        Some(String::from_str(trimmed))
    }
}


/// `v` without one `w` at each end, where it has one at both ends and is at
/// least two characters long.
pub open spec fn unwrapped(v: Seq<char>, w: char) -> Seq<char> {
    if v.len() >= 2 && v[0] == w && v[v.len() - 1] == w {
        v.subrange(1, v.len() - 1)
    } else {
        v
    }
}

/// `value` without a matching pair of `wrapper` characters around it.
pub fn trim_matching_wrappers(value: &str, wrapper: char) -> (r: &str)
    ensures
        r@ == unwrapped(value@, wrapper),
{
    let n = value.unicode_len();
    if n >= 2 && value.get_char(0) == wrapper && value.get_char(n - 1) == wrapper {
        value.substring_char(1, n - 1)
    } else {
        value
    }
}

/// The start of a metadata line for `key`: `- key:`.
pub open spec fn metadata_prefix(key: Seq<char>) -> Seq<char> {
    "- "@ + key + ":"@
}

/// The value a metadata line gives, unquoted and trimmed, when the line is
/// one for the prefix and the value is not empty.
pub open spec fn metadata_value(line: Seq<char>, prefix: Seq<char>) -> Option<Seq<char>> {
    let t = trim(line);
    if has_prefix(t, prefix) {
        let v = trim(t.subrange(prefix.len() as int, t.len() as int));
        let w = trim(unwrapped(unwrapped(v, '`'), '"'));
        if w.len() > 0 {
            Some(w)
        } else {
            None
        }
    } else {
        None
    }
}

/// The first value a metadata line for the prefix gives.
pub open spec fn first_metadata(ls: Seq<Seq<char>>, prefix: Seq<char>) -> Option<Seq<char>>
    decreases ls.len(),
{
    if ls.len() == 0 {
        None
    } else {
        match metadata_value(ls[0], prefix) {
            Some(v) => Some(v),
            None => first_metadata(ls.drop_first(), prefix),
        }
    }
}

/// The text of an optional description (empty where there is none).
pub open spec fn body_of(description: Option<&str>) -> Seq<char> {
    match description {
        Some(d) => d@,
        None => Seq::<char>::empty(),
    }
}

/// The value recorded for `key` in an imported issue description.
pub open spec fn cloud_metadata(description: Option<&str>, key: Seq<char>) -> Option<Seq<char>> {
    first_metadata(lines(body_of(description)), metadata_prefix(key))
}

fn line_metadata(line: &str, prefix: &str) -> (r: Option<String>)
    ensures
        opt_str(r) == metadata_value(line@, prefix@),
{
    let t = trim_str(line);
    match strip_prefix_str(t, prefix) {
        Some(rest) => {
            let v = trim_str(rest);
            let w = trim_str(trim_matching_wrappers(trim_matching_wrappers(v, '`'), '"'));
            if w.unicode_len() > 0 {
                Some(String::from_str(w))
            } else {
                None
            }
        },
        None => None,
    }
}

/// The value of the `- key:` line of an imported issue description: the
/// first such line whose value, trimmed and without surrounding backticks
/// and then quotes, is not empty.
pub fn extract_cloud_metadata_value(description: Option<&str>, key: &str) -> (r: Option<String>)
    ensures
        opt_str(r) == cloud_metadata(description, key@),
{
    let body = match description {
        Some(d) => d,
        None => "",
    };
    proof {
        if description is None {
            reveal_strlit("");
            assert(body@ =~= Seq::<char>::empty());
        }
        reveal_strlit("- ");
        reveal_strlit(":");
    }
    let prefix = "- ".to_string().concat(key).concat(":");
    assert(prefix@ =~= metadata_prefix(key@));
    let ls = split_lines(body);
    let ghost lv = ls@.map_values(|l: String| l@);
    let mut i: usize = 0;
    proof {
        assert(lv.subrange(0, lv.len() as int) =~= lv);
    }
    while i < ls.len()
        invariant
            i <= ls.len(),
            lv == lines(body_of(description)),
            lv == ls@.map_values(|l: String| l@),
            prefix@ == metadata_prefix(key@),
            first_metadata(lv, prefix@) == first_metadata(
                lv.subrange(i as int, lv.len() as int),
                prefix@,
            ),
        decreases ls.len() - i,
    {
        let v = line_metadata(ls[i].as_str(), prefix.as_str());
        proof {
            let t = lv.subrange(i as int, lv.len() as int);
            assert(t[0] == lv[i as int]);
            assert(t.drop_first() =~= lv.subrange(i + 1, lv.len() as int));
        }
        match v {
            Some(s) => {
                return Some(s);
            },
            None => {},
        }
        i = i + 1;
    }
    None
}


/// The number after the first `-` of a simple id, else `fallback`.
pub open spec fn suffix_number(sid: Seq<char>, fallback: i64) -> i64 {
    match split_once(sid, seq!['-']) {
        Some((_, suffix)) => match parse_i64_spec(suffix) {
            Some(v) => v,
            None => fallback,
        },
        None => fallback,
    }
}

/// The separator of a simple id and a title (`·`).
pub open spec fn title_separator() -> Seq<char> {
    seq!['\u{b7}']
}

/// Simple id, display title and issue number of an imported issue.
pub open spec fn simple_id_spec(title: Seq<char>, description: Option<&str>, issue_number: i64) -> (
    Seq<char>,
    Seq<char>,
    i64,
) {
    match cloud_metadata(description, "Original Cloud Issue ID"@) {
        Some(sid) => {
            let p = sid + seq![' ', '\u{b7}', ' '];
            let shown = if has_prefix(title, p) {
                title.subrange(p.len() as int, title.len() as int)
            } else {
                title
            };
            (sid, trim(shown), suffix_number(sid, issue_number))
        },
        None => match split_once(title, title_separator()) {
            Some((before, after)) => (trim(before), trim(after), suffix_number(trim(before), issue_number)),
            None => ("T"@ + signed_decimal(issue_number), title, issue_number),
        },
    }
}

fn suffix_number_of(sid: &str, fallback: i64) -> (r: i64)
    ensures
        r == suffix_number(sid@, fallback),
{
    proof {
        reveal_strlit("-");
        assert("-"@ =~= seq!['-']);
    }
    match split_once_str(sid, "-") {
        Some((_, suffix)) => match parse_i64(suffix) {
            Some(v) => v,
            None => fallback,
        },
        None => fallback,
    }
}

/// The simple id, the title to show and the issue number of a local task:
/// from the `Original Cloud Issue ID` metadata where there is one (the id's
/// prefix taken off the title), else from a `PREFIX-N · title` title, else
/// `T<number>` and the title as it is. The number is the one after the id's
/// first `-` where that parses, else `issue_number`.
pub fn extract_simple_id(title: &str, description: Option<&str>, issue_number: i64) -> (r: (
    String,
    String,
    i64,
))
    ensures
        (r.0@, r.1@, r.2) == simple_id_spec(title@, description, issue_number),
{
    proof {
        reveal_strlit("Original Cloud Issue ID");
        reveal_strlit(" \u{b7} ");
        reveal_strlit("\u{b7}");
        reveal_strlit("T");
        assert(" \u{b7} "@ =~= seq![' ', '\u{b7}', ' ']);
        assert("\u{b7}"@ =~= title_separator());
    }
    match extract_cloud_metadata_value(description, "Original Cloud Issue ID") {
        Some(sid) => {
            let p = sid.as_str().to_string().concat(" \u{b7} ");
            let shown = match strip_prefix_str(title, p.as_str()) {
                Some(rest) => rest,
                None => title,
            };
            let number = suffix_number_of(sid.as_str(), issue_number);
            let display = String::from_str(trim_str(shown));
            (sid, display, number)
        },
        None => match split_once_str(title, "\u{b7}") {
            Some((before, after)) => {
                let sid = trim_str(before);
                let number = suffix_number_of(sid, issue_number);
                (String::from_str(sid), String::from_str(trim_str(after)), number)
            },
            None => {
                let digits = i64_to_decimal(issue_number);
                let sid = "T".to_string().concat(digits.as_str());
                (sid, String::from_str(title), issue_number)
            },
        },
    }
}

/// The priority an imported issue records, where it is one of the four known.
pub open spec fn priority_spec(description: Option<&str>) -> Option<Seq<char>> {
    match cloud_metadata(description, "Original Priority"@) {
        Some(raw) => {
            let l = lower(raw);
            if l == "urgent"@ || l == "high"@ || l == "medium"@ || l == "low"@ {
                Some(l)
            } else {
                None
            }
        },
        None => None,
    }
}

/// The `Original Priority` of an imported issue, lower-cased, where it is
/// `urgent`, `high`, `medium` or `low`.
pub fn extract_priority(description: Option<&str>) -> (r: Option<String>)
    ensures
        opt_str(r) == priority_spec(description),
{
    proof {
        reveal_strlit("Original Priority");
    }
    match extract_cloud_metadata_value(description, "Original Priority") {
        Some(raw) => {
            let l = lower_str(raw.as_str());
            if str_eq(l.as_str(), "urgent") || str_eq(l.as_str(), "high") || str_eq(
                l.as_str(),
                "medium",
            ) || str_eq(l.as_str(), "low") {
                Some(l)
            } else {
                None
            }
        },
        None => None,
    }
}


/// What an imported issue records of its pull request.
pub struct PrMetadata {
    pub number: i64,
    pub url: String,
    pub status: String,
    pub target_branch_name: String,
}

/// The text before the first `<-` of `v`, or all of it.
pub open spec fn before_arrow(v: Seq<char>) -> Seq<char> {
    match split_once(v, "<-"@) {
        Some((before, _)) => before,
        None => v,
    }
}

/// `merged`, `closed` or `open`, from a recorded pull request state.
pub open spec fn pr_status_spec(state: Option<Seq<char>>) -> Seq<char> {
    let l = lower(
        match state {
            Some(x) => x,
            None => "OPEN"@,
        },
    );
    if l == "merged"@ {
        "merged"@
    } else if l == "closed"@ {
        "closed"@
    } else {
        "open"@
    }
}

/// The branch a recorded `base <- head` pair targets, else `main`.
pub open spec fn pr_target_spec(base_head: Option<Seq<char>>) -> Seq<char> {
    let t = match base_head {
        Some(x) => trim(unwrapped(trim(before_arrow(x)), '`')),
        None => Seq::<char>::empty(),
    };
    if t.len() > 0 {
        t
    } else {
        "main"@
    }
}

/// Number, URL, status and target branch an imported issue records of its
/// pull request: the `PR` metadata is `#<number> <url>`; without it, or
/// where the number does not parse, there is none.
pub open spec fn pr_metadata_spec(description: Option<&str>) -> Option<
    (i64, Seq<char>, Seq<char>, Seq<char>),
> {
    match cloud_metadata(description, "PR"@) {
        None => None,
        Some(v) => match first_word(v) {
            None => None,
            Some((w, rest)) => match parse_i64_spec(strip_leading(w, '#')) {
                None => None,
                Some(number) => Some(
                    (
                        number,
                        match first_word(rest) {
                            Some((u, _)) => u,
                            None => Seq::<char>::empty(),
                        },
                        pr_status_spec(cloud_metadata(description, "PR state"@)),
                        pr_target_spec(cloud_metadata(description, "PR base/head"@)),
                    ),
                ),
            },
        },
    }
}

fn pr_status_of(state: Option<String>) -> (r: String)
    ensures
        r@ == pr_status_spec(opt_str(state)),
{
    proof {
        reveal_strlit("OPEN");
    }
    let l = match state {
        Some(x) => lower_str(x.as_str()),
        None => lower_str("OPEN"),
    };
    if str_eq(l.as_str(), "merged") {
        "merged".to_string()
    } else if str_eq(l.as_str(), "closed") {
        "closed".to_string()
    } else {
        "open".to_string()
    }
}

fn pr_target_of(base_head: Option<String>) -> (r: String)
    ensures
        r@ == pr_target_spec(opt_str(base_head)),
{
    let t: String = match base_head {
        Some(x) => {
            let left = match split_once_str(x.as_str(), "<-") {
                Some((before, _)) => before,
                None => x.as_str(),
            };
            String::from_str(trim_str(trim_matching_wrappers(trim_str(left), '`')))
        },
        None => String::new(),
    };
    if t.unicode_len() > 0 {
        t
    } else {
        "main".to_string()
    }
}

/// The pull request an imported issue description records.
pub fn parse_pr_metadata(description: Option<&str>) -> (r: Option<PrMetadata>)
    ensures
        match r {
            Some(m) => pr_metadata_spec(description) == Some(
                (m.number, m.url@, m.status@, m.target_branch_name@),
            ),
            None => pr_metadata_spec(description) is None,
        },
{
    proof {
        reveal_strlit("PR");
        reveal_strlit("PR state");
        reveal_strlit("PR base/head");
    }
    let v = match extract_cloud_metadata_value(description, "PR") {
        Some(v) => v,
        None => {
            return None;
        },
    };
    let (w, rest) = match first_word_str(v.as_str()) {
        Some(p) => p,
        None => {
            return None;
        },
    };
    let number = match parse_i64(trim_start_matches_char(w, '#')) {
        Some(n) => n,
        None => {
            return None;
        },
    };
    let url = match first_word_str(rest) {
        Some((u, _)) => String::from_str(u),
        None => String::new(),
    };
    let status = pr_status_of(extract_cloud_metadata_value(description, "PR state"));
    let target_branch_name = pr_target_of(extract_cloud_metadata_value(description, "PR base/head"));
    Some(PrMetadata { number, url, status, target_branch_name })
}


/// The upper-cased first characters of the runs of ASCII letters and digits
/// of `s`; `in_run` says whether `s` continues a run.
pub open spec fn initials(s: Seq<char>, in_run: bool) -> Seq<char>
    decreases s.len(),
{
    if s.len() == 0 {
        Seq::<char>::empty()
    } else if is_ascii_alnum(s[0]) {
        if in_run {
            initials(s.drop_first(), true)
        } else {
            seq![upper_char(s[0])] + initials(s.drop_first(), true)
        }
    } else {
        initials(s.drop_first(), false)
    }
}

/// The issue prefix of a workspace shown as an issue: the part of its name
/// before `::`, trimmed, where that is not empty; else the initials of up to
/// three words of its branch; else `WS`.
pub open spec fn synthetic_prefix_spec(name: Option<Seq<char>>, branch: Seq<char>) -> Seq<char> {
    let named = match name {
        Some(n) => match split_once(n, "::"@) {
            Some((before, _)) => trim(before),
            None => Seq::<char>::empty(),
        },
        None => Seq::<char>::empty(),
    };
    let init = initials(branch, false);
    let short = if init.len() > 3 {
        init.subrange(0, 3)
    } else {
        init
    };
    if named.len() > 0 {
        named
    } else if short.len() > 0 {
        short
    } else {
        "WS"@
    }
}

/// The issue prefix of a workspace with the given name and branch.
pub fn synthetic_issue_prefix(name: Option<&str>, branch: &str) -> (r: String)
    ensures
        r@ == synthetic_prefix_spec(
            match name {
                Some(n) => Some(n@),
                None => None,
            },
            branch@,
        ),
{
    match name {
        Some(n) => match split_once_str(n, "::") {
            Some((before, _)) => {
                let t = trim_str(before);
                if t.unicode_len() > 0 {
                    return String::from_str(t);
                }
            },
            None => {},
        },
        None => {},
    }
    let n = branch.unicode_len();
    let mut out = String::new();
    let mut in_run = false;
    let mut i: usize = 0;
    proof {
        assert(branch@.subrange(0, n as int) =~= branch@);
    }
    while i < n && out.unicode_len() < 3
        invariant
            n == branch@.len(),
            i <= n,
            out@.len() <= 3,
            initials(branch@, false) == out@ + initials(branch@.subrange(i as int, n as int), in_run),
        decreases n - i,
    {
        let c = branch.get_char(i);
        proof {
            let u = branch@.subrange(i as int, n as int);
            assert(u.drop_first() =~= branch@.subrange(i + 1, n as int));
            assert(u[0] == c);
        }
        if crate::text::is_ascii_alnum_char(c) {
            if !in_run {
                let ghost before = out@;
                push_char(&mut out, upper_ascii_char(c));
                proof {
                    let rest = initials(branch@.subrange(i + 1, n as int), true);
                    assert(before + (seq![upper_char(c)] + rest) =~= out@ + rest);
                }
            }
            in_run = true;
        } else {
            in_run = false;
        }
        i = i + 1;
    }
    let ghost init = initials(branch@, false);
    proof {
        if out@.len() < 3 {
            assert(branch@.subrange(i as int, n as int).len() == 0);
            assert(init =~= out@);
        } else {
            assert(init.subrange(0, 3) =~= out@);
        }
    }
    if out.unicode_len() > 0 {
        out
    } else {
        "WS".to_string()
    }
}

/// Whether a workspace is shown as an issue: all but the staging checks.
pub open spec fn exposed_spec(name: Option<Seq<char>>) -> bool {
    match name {
        Some(n) => {
            let l = lower(trim(n));
            l != "fr::staging check"@ && l != "staging check"@
        },
        None => true,
    }
}

/// Whether a workspace with the given name is shown as an issue.
pub fn should_expose_synthetic_workspace(name: Option<&str>) -> (r: bool)
    ensures
        r == exposed_spec(
            match name {
                Some(n) => Some(n@),
                None => None,
            },
        ),
{
    match name {
        Some(n) => {
            let l = lower_str(trim_str(n));
            !str_eq(l.as_str(), "fr::staging check") && !str_eq(l.as_str(), "staging check")
        },
        None => true,
    }
}

/// State of a pull request.
#[derive(Clone, Copy, Debug, PartialEq, Eq, Structural)]
pub enum MergeStatus {
    Open,
    Merged,
    Closed,
    Unknown,
}

/// The parts of a compatibility issue that a local task gives.
pub struct TaskIssue {
    /// The imported id, else one made of the issue number.
    pub simple_id: String,
    /// The title without the imported id prefix.
    pub title: String,
    pub issue_number: i64,
    pub status_id: String,
    pub priority: Option<String>,
    /// Issues sort by their position in the task list.
    pub sort_order: i64,
}

/// A task, listed at `issue_number` with status column `status_id`, as an
/// issue: id, title and number as [`simple_id_spec`] says, priority as
/// [`priority_spec`] says.
pub fn task_to_issue(title: &str, description: Option<&str>, issue_number: i64, status_id: String) -> (r: TaskIssue)
    ensures
        (r.simple_id@, r.title@, r.issue_number) == simple_id_spec(title@, description, issue_number),
        opt_str(r.priority) == priority_spec(description),
        r.status_id@ == status_id@,
        r.sort_order == issue_number,
{
    let (simple_id, clean_title, number) = extract_simple_id(title, description, issue_number);
    let priority = extract_priority(description);
    TaskIssue { simple_id, title: clean_title, issue_number: number, status_id, priority, sort_order: issue_number }
}

/// The status name a pull request of the given state is shown with.
pub fn pull_request_status(pr_status: &MergeStatus) -> (r: String)
    ensures
        r@ == match *pr_status {
            MergeStatus::Merged => "merged"@,
            MergeStatus::Closed => "closed"@,
            _ => "open"@,
        },
{
    match pr_status {
        MergeStatus::Merged => "merged".to_string(),
        MergeStatus::Closed => "closed".to_string(),
        _ => "open".to_string(),
    }
}

/// The status id of a workspace shown as an issue: in review while it has
/// an open pull request, done once archived or merged, else in progress.
pub fn synthetic_status_id(archived: bool, has_open_pr: bool, has_merged_pr: bool) -> (r: &'static str)
    ensures
        r@ == (if has_open_pr {
            "in_review"@
        } else if archived || has_merged_pr {
            "done"@
        } else {
            "in_progress"@
        }),
{
    if has_open_pr {
        "in_review"
    } else if archived || has_merged_pr {
        "done"
    } else {
        "in_progress"
    }
}


/// A status column of a project.
pub struct ProjectStatusConfig {
    pub id: String,
    pub name: String,
    pub color: String,
    pub hidden: bool,
    pub sort_order: i64,
}

/// A status column as plain values.
pub struct StatusView {
    pub id: Seq<char>,
    pub name: Seq<char>,
    pub color: Seq<char>,
    pub hidden: bool,
    pub sort_order: i64,
}

impl View for ProjectStatusConfig {
    type V = StatusView;

    open spec fn view(&self) -> StatusView {
        StatusView { id: self.id@, name: self.name@, color: self.color@, hidden: self.hidden, sort_order: self.sort_order }
    }
}

/// The status columns as plain values.
pub open spec fn status_views(ss: Seq<ProjectStatusConfig>) -> Seq<StatusView> {
    ss.map_values(|s: ProjectStatusConfig| s@)
}

/// The column a status name stands for, at the given position.
pub open spec fn column_for(name: Seq<char>, sort_order: i64) -> StatusView {
    StatusView {
        id: status_id_from_name_spec(name),
        name,
        color: status_color_spec(name),
        hidden: status_key(name) == "cancelled"@ || status_key(name) == "canceled"@,
        sort_order,
    }
}

/// The column of a status name, at the given position.
pub fn status_column(name: &str, sort_order: i64) -> (r: ProjectStatusConfig)
    ensures
        r@ == column_for(name@, sort_order),
{
    ProjectStatusConfig {
        id: status_id_from_name(name),
        name: String::from_str(name),
        color: String::from_str(status_color(name)),
        hidden: status_hidden(name),
        sort_order,
    }
}

/// The columns of a project without configured ones.
pub open spec fn default_columns() -> Seq<StatusView> {
    seq![
        column_for("To do"@, status_sort_order_spec("To do"@)),
        column_for("In progress"@, status_sort_order_spec("In progress"@)),
        column_for("In review"@, status_sort_order_spec("In review"@)),
        column_for("Done"@, status_sort_order_spec("Done"@)),
        column_for("Cancelled"@, status_sort_order_spec("Cancelled"@)),
    ]
}

/// A local task, as far as its status column goes.
pub struct LocalTaskStatus {
    pub description: Option<String>,
    pub status: TaskStatus,
}

/// The status name a task shows: the one its description records, else
/// that of its own status.
pub open spec fn task_status_name_of(t: LocalTaskStatus) -> Seq<char> {
    match first_status(lines(match t.description {
        Some(d) => d@,
        None => Seq::<char>::empty(),
    })) {
        Some(v) => v,
        None => task_status_name_spec(t.status),
    }
}

/// The columns the tasks' status names stand for (their positions are
/// replaced in the end).
pub open spec fn task_columns(tasks: Seq<LocalTaskStatus>) -> Seq<StatusView> {
    tasks.map_values(|t: LocalTaskStatus| column_for(task_status_name_of(t), 0))
}

/// `acc` with each of `items` whose status key is not empty and not yet
/// taken, in order.
pub open spec fn new_columns(acc: Seq<StatusView>, items: Seq<StatusView>) -> Seq<StatusView>
    decreases items.len(),
{
    if items.len() == 0 {
        acc
    } else {
        let k = status_key(items[0].name);
        let taken = exists|i: int| 0 <= i < acc.len() && status_key(#[trigger] acc[i].name) == k;
        new_columns(
            if k.len() == 0 || taken {
                acc
            } else {
                acc.push(items[0])
            },
            items.drop_first(),
        )
    }
}

/// The columns numbered by their position.
pub open spec fn numbered(cs: Seq<StatusView>) -> Seq<StatusView> {
    Seq::new(cs.len(), |i: int| StatusView { sort_order: i as i64, ..cs[i] })
}

/// The sort key of a configured column: its position, then its name.
pub open spec fn column_key(c: StatusView) -> (i128, Seq<char>, u128) {
    (c.sort_order as i128, c.name, 0)
}

/// The status columns of a project: the configured ones by position and
/// name (the defaults where none are configured), then those of the tasks'
/// statuses; each status key once, the first column of it kept; numbered
/// by position.
pub open spec fn statuses_spec(tasks: Seq<LocalTaskStatus>, configured: Seq<StatusView>, out: Seq<StatusView>) -> bool {
    exists|base: Seq<StatusView>|
        (if configured.len() == 0 {
            base == default_columns()
        } else {
            exists|order: Seq<usize>|
                crate::order::is_named_order(configured.map_values(|c: StatusView| column_key(c)), order)
                    && base.len() == order.len() && forall|k: int|
                    0 <= k < base.len() ==> #[trigger] base[k] == configured[order[k] as int]
        }) && out == numbered(new_columns(Seq::empty(), base + task_columns(tasks)))
}

fn copy_status(c: &ProjectStatusConfig) -> (r: ProjectStatusConfig)
    ensures
        r@ == c@,
{
    ProjectStatusConfig {
        id: c.id.clone(),
        name: c.name.clone(),
        color: c.color.clone(),
        hidden: c.hidden,
        sort_order: c.sort_order,
    }
}

fn add_column(ordered: &mut Vec<ProjectStatusConfig>, keys: &mut Vec<String>, c: ProjectStatusConfig)
    requires
        old(keys)@.map_values(|k: String| k@) == status_views(old(ordered)@).map_values(|v: StatusView| status_key(v.name)),
    ensures
        final(keys)@.map_values(|k: String| k@) == status_views(final(ordered)@).map_values(|v: StatusView| status_key(v.name)),
        status_views(final(ordered)@) == new_columns(status_views(old(ordered)@), seq![c@]),
{
    let ghost acc = status_views(ordered@);
    let key = normalize_status_key(c.name.as_str());
    let n = key.unicode_len();
    let mut taken = false;
    let mut i: usize = 0;
    proof {
        assert(keys@.map_values(|k: String| k@).len() == keys@.len());
        assert(acc.map_values(|v: StatusView| status_key(v.name)).len() == acc.len());
    }
    while i < keys.len()
        invariant
            i <= keys@.len(),
            keys@.len() == acc.len(),
            keys@.map_values(|k: String| k@) == acc.map_values(|v: StatusView| status_key(v.name)),
            acc == status_views(ordered@),
            taken == exists|j: int| 0 <= j < i && status_key(#[trigger] acc[j].name) == key@,
            key@ == status_key(c@.name),
        decreases keys@.len() - i,
    {
        proof {
            assert(keys@.map_values(|k: String| k@)[i as int] == keys@[i as int]@);
            assert(acc.map_values(|v: StatusView| status_key(v.name))[i as int] == status_key(acc[i as int].name));
        }
        if str_eq(keys[i].as_str(), key.as_str()) {
            taken = true;
        }
        proof {
            if keys@[i as int]@ == key@ {
                assert(status_key(acc[i as int].name) == key@);
            }
        }
        i = i + 1;
    }
    proof {
        assert(seq![c@].drop_first() =~= Seq::<StatusView>::empty());
        assert(seq![c@][0] == c@);
        let next = if status_key(c@.name).len() == 0 || taken {
            acc
        } else {
            acc.push(c@)
        };
        assert(new_columns(next, Seq::<StatusView>::empty()) == next);
        assert(new_columns(acc, seq![c@]) == next);
    }
    if n == 0 || taken {
        return;
    }
    let ghost kb = keys@.map_values(|k: String| k@);
    keys.push(key);
    ordered.push(c);
    proof {
        assert(keys@.map_values(|k: String| k@) =~= kb.push(status_key(c@.name)));
        assert(status_views(ordered@) =~= acc.push(c@));
        assert(status_views(ordered@).map_values(|v: StatusView| status_key(v.name)) =~= acc.map_values(
            |v: StatusView| status_key(v.name),
        ).push(status_key(c@.name)));
    }
}

proof fn lemma_new_columns_len(acc: Seq<StatusView>, items: Seq<StatusView>)
    ensures
        new_columns(acc, items).len() <= acc.len() + items.len(),
    decreases items.len(),
{
    if items.len() > 0 {
        let k = status_key(items[0].name);
        let taken = exists|i: int| 0 <= i < acc.len() && status_key(#[trigger] acc[i].name) == k;
        let next = if k.len() == 0 || taken {
            acc
        } else {
            acc.push(items[0])
        };
        lemma_new_columns_len(next, items.drop_first());
    }
}

proof fn lemma_new_columns_append(acc: Seq<StatusView>, a: Seq<StatusView>, b: Seq<StatusView>)
    ensures
        new_columns(acc, a + b) == new_columns(new_columns(acc, a), b),
    decreases a.len(),
{
    if a.len() > 0 {
        assert((a + b).drop_first() =~= a.drop_first() + b);
        assert((a + b)[0] == a[0]);
        let k = status_key(a[0].name);
        let taken = exists|i: int| 0 <= i < acc.len() && status_key(#[trigger] acc[i].name) == k;
        let next = if k.len() == 0 || taken {
            acc
        } else {
            acc.push(a[0])
        };
        lemma_new_columns_append(next, a.drop_first(), b);
    } else {
        assert(a + b =~= b);
    }
}

/// The status columns of a project, as [`statuses_spec`] says.
pub fn status_columns(tasks: &Vec<LocalTaskStatus>, configured: &Vec<ProjectStatusConfig>) -> (r: Vec<
    ProjectStatusConfig,
>)
    requires
        configured@.len() + tasks@.len() + 5 <= i64::MAX,
    ensures
        statuses_spec(tasks@, status_views(configured@), status_views(r@)),
{
    let mut ordered: Vec<ProjectStatusConfig> = Vec::new();
    let mut keys: Vec<String> = Vec::new();
    let mut base: Vec<ProjectStatusConfig> = Vec::new();
    let ghost cv = status_views(configured@);
    if configured.len() == 0 {
        proof {
            reveal_strlit("To do");
            reveal_strlit("In progress");
            reveal_strlit("In review");
            reveal_strlit("Done");
            reveal_strlit("Cancelled");
        }
        base.push(status_column("To do", status_sort_order("To do")));
        base.push(status_column("In progress", status_sort_order("In progress")));
        base.push(status_column("In review", status_sort_order("In review")));
        base.push(status_column("Done", status_sort_order("Done")));
        base.push(status_column("Cancelled", status_sort_order("Cancelled")));
        proof {
            assert(status_views(base@) =~= default_columns());
        }
    } else {
        let mut ks: Vec<(i128, String, u128)> = Vec::new();
        let mut i: usize = 0;
        while i < configured.len()
            invariant
                i <= configured@.len(),
                cv == status_views(configured@),
                ks@.len() == i,
                forall|k: int| 0 <= k < i ==> (#[trigger] ks@[k]).0 == column_key(cv[k]).0 && ks@[k].1@
                    == column_key(cv[k]).1 && ks@[k].2 == column_key(cv[k]).2,
            decreases configured@.len() - i,
        {
            ks.push((configured[i].sort_order as i128, configured[i].name.clone(), 0));
            i = i + 1;
        }
        let order = crate::order::stable_named_order(&ks);
        proof {
            assert(crate::order::named_keys(ks@) =~= cv.map_values(|c: StatusView| column_key(c)));
        }
        let mut k: usize = 0;
        while k < order.len()
            invariant
                cv == status_views(configured@),
                crate::order::is_named_order(cv.map_values(|c: StatusView| column_key(c)), order@),
                k <= order@.len(),
                base@.len() == k,
                forall|t: int| 0 <= t < k ==> (#[trigger] base@[t])@ == cv[order@[t] as int],
            decreases order@.len() - k,
        {
            base.push(copy_status(&configured[order[k]]));
            k = k + 1;
        }
    }
    let ghost bv = status_views(base@);
    proof {
        assert(keys@.map_values(|k: String| k@) =~= status_views(ordered@).map_values(|v: StatusView| status_key(v.name)));
    }
    let mut b: usize = 0;
    while b < base.len()
        invariant
            b <= base@.len(),
            bv == status_views(base@),
            bv.len() <= configured@.len() + 5,
            keys@.map_values(|k: String| k@) == status_views(ordered@).map_values(|v: StatusView| status_key(v.name)),
            status_views(ordered@) == new_columns(Seq::empty(), bv.subrange(0, b as int)),
        decreases base@.len() - b,
    {
        let ghost before = status_views(ordered@);
        add_column(&mut ordered, &mut keys, copy_status(&base[b]));
        proof {
            lemma_new_columns_append(Seq::empty(), bv.subrange(0, b as int), seq![bv[b as int]]);
            assert(bv.subrange(0, b as int) + seq![bv[b as int]] =~= bv.subrange(0, b + 1));
        }
        b = b + 1;
    }
    proof {
        assert(bv.subrange(0, base@.len() as int) =~= bv);
    }
    let ghost tc = task_columns(tasks@);
    let mut t: usize = 0;
    while t < tasks.len()
        invariant
            t <= tasks@.len(),
            tc == task_columns(tasks@),
            bv.len() <= configured@.len() + 5,
            configured@.len() + tasks@.len() + 5 <= i64::MAX,
            keys@.map_values(|k: String| k@) == status_views(ordered@).map_values(|v: StatusView| status_key(v.name)),
            status_views(ordered@) == new_columns(Seq::empty(), bv + tc.subrange(0, t as int)),
        decreases tasks@.len() - t,
    {
        let name = extract_status_name(
            match &tasks[t].description {
                Some(d) => Some(d.as_str()),
                None => None,
            },
            &tasks[t].status,
        );
        add_column(&mut ordered, &mut keys, status_column(name.as_str(), 0));
        proof {
            lemma_new_columns_append(Seq::empty(), bv + tc.subrange(0, t as int), seq![tc[t as int]]);
            assert((bv + tc.subrange(0, t as int)) + seq![tc[t as int]] =~= bv + tc.subrange(0, t + 1));
        }
        t = t + 1;
    }
    proof {
        assert(tc.subrange(0, tasks@.len() as int) =~= tc);
    }
    let ghost ov = status_views(ordered@);
    proof {
        lemma_new_columns_len(Seq::empty(), bv + tc);
    }
    let mut out: Vec<ProjectStatusConfig> = Vec::new();
    let mut j: usize = 0;
    while j < ordered.len()
        invariant
            j <= ordered@.len(),
            ov == status_views(ordered@),
            ov.len() <= i64::MAX,
            status_views(out@) == numbered(ov).subrange(0, j as int),
        decreases ordered@.len() - j,
    {
        let c = &ordered[j];
        let ghost before = status_views(out@);
        out.push(ProjectStatusConfig {
            id: c.id.clone(),
            name: c.name.clone(),
            color: c.color.clone(),
            hidden: c.hidden,
            sort_order: j as i64,
        });
        proof {
            assert(ov[j as int] == ordered@[j as int]@);
            assert(numbered(ov).len() == ov.len());
            assert(before.len() == j);
            assert(out@.len() == j + 1);
            let nv = numbered(ov)[j as int];
            assert(nv == StatusView { sort_order: j as i64, ..ov[j as int] });
            assert(out@[j as int]@ == nv);
            assert(status_views(out@) =~= before.push(nv));
            assert(numbered(ov).subrange(0, j + 1) =~= numbered(ov).subrange(0, j as int).push(nv));
        }
        j = j + 1;
    }
    proof {
        assert(numbered(ov).subrange(0, ordered@.len() as int) =~= numbered(ov));
    }
    out
}


/// The name of the first column with the given id.
pub open spec fn name_with_id(ss: Seq<StatusView>, id: Seq<char>) -> Option<Seq<char>>
    decreases ss.len(),
{
    if ss.len() == 0 {
        None
    } else if ss[0].id == id {
        Some(ss[0].name)
    } else {
        name_with_id(ss.drop_first(), id)
    }
}

/// The name of the first column whose name has the given status key.
pub open spec fn name_with_key(ss: Seq<StatusView>, key: Seq<char>) -> Option<Seq<char>>
    decreases ss.len(),
{
    if ss.len() == 0 {
        None
    } else if status_key(ss[0].name) == key {
        Some(ss[0].name)
    } else {
        name_with_key(ss.drop_first(), key)
    }
}

/// The status name a status id stands for among the columns: the column
/// of that id, else the column of that status key, else the fallback
/// status's name, else the canonical name of the id.
pub open spec fn resolved_name(ss: Seq<StatusView>, id: Seq<char>, fallback: Option<TaskStatus>) -> Seq<char> {
    match name_with_id(ss, id) {
        Some(n) => n,
        None => match name_with_key(ss, status_key(id)) {
            Some(n) => n,
            None => match fallback {
                Some(f) => task_status_name_spec(f),
                None => canonical_status_name_spec(id),
            },
        },
    }
}

fn find_resolved(ss: &Vec<ProjectStatusConfig>, status_id: &str, fallback: Option<&TaskStatus>) -> (r: String)
    ensures
        r@ == resolved_name(
            status_views(ss@),
            status_id@,
            match fallback {
                Some(f) => Some(*f),
                None => None,
            },
        ),
{
    let ghost v = status_views(ss@);
    let mut i: usize = 0;
    proof {
        assert(v.subrange(0, v.len() as int) =~= v);
    }
    while i < ss.len()
        invariant
            i <= ss@.len(),
            v == status_views(ss@),
            name_with_id(v, status_id@) == name_with_id(v.subrange(i as int, v.len() as int), status_id@),
        decreases ss@.len() - i,
    {
        proof {
            let t = v.subrange(i as int, v.len() as int);
            assert(t.drop_first() =~= v.subrange(i + 1, v.len() as int));
            assert(t[0] == ss@[i as int]@);
        }
        if str_eq(ss[i].id.as_str(), status_id) {
            return ss[i].name.clone();
        }
        i = i + 1;
    }
    let key = normalize_status_key(status_id);
    let mut j: usize = 0;
    while j < ss.len()
        invariant
            j <= ss@.len(),
            v == status_views(ss@),
            name_with_id(v, status_id@) is None,
            key@ == status_key(status_id@),
            name_with_key(v, key@) == name_with_key(v.subrange(j as int, v.len() as int), key@),
        decreases ss@.len() - j,
    {
        proof {
            let t = v.subrange(j as int, v.len() as int);
            assert(t.drop_first() =~= v.subrange(j + 1, v.len() as int));
            assert(t[0] == ss@[j as int]@);
        }
        let k = normalize_status_key(ss[j].name.as_str());
        if str_eq(k.as_str(), key.as_str()) {
            return ss[j].name.clone();
        }
        j = j + 1;
    }
    match fallback {
        Some(f) => String::from_str(task_status_name(f)),
        None => canonical_status_name(status_id),
    }
}

/// The status name a status id stands for in a project, as
/// [`resolved_name`] says over the project's columns.
pub fn resolve_status_name(
    tasks: &Vec<LocalTaskStatus>,
    configured: &Vec<ProjectStatusConfig>,
    status_id: &str,
    fallback: Option<&TaskStatus>,
) -> (r: String)
    requires
        configured@.len() + tasks@.len() + 5 <= i64::MAX,
    ensures
        exists|ss: Seq<StatusView>|
            statuses_spec(tasks@, status_views(configured@), ss) && r@ == resolved_name(
                ss,
                status_id@,
                match fallback {
                    Some(f) => Some(*f),
                    None => None,
                },
            ),
{
    let statuses = status_columns(tasks, configured);
    find_resolved(&statuses, status_id, fallback)
}


/// A status column as the compatibility board lists it: the project's id
/// (its hyphenated UUID text) and the column.
pub struct CompatStatus {
    pub project_id: String,
    pub column: ProjectStatusConfig,
}

/// The status columns of project `project_id`, as [`statuses_spec`] says,
/// each stamped with the project's id.
pub fn compat_statuses(project_id: u128, tasks: &Vec<LocalTaskStatus>, configured: &Vec<ProjectStatusConfig>) -> (r:
    Vec<CompatStatus>)
    requires
        configured@.len() + tasks@.len() + 5 <= i64::MAX,
    ensures
        exists|ss: Seq<StatusView>|
            #![trigger statuses_spec(tasks@, status_views(configured@), ss)]
            statuses_spec(tasks@, status_views(configured@), ss) && r@.len() == ss.len() && forall|i: int|
                0 <= i < ss.len() ==> (#[trigger] r@[i]).column@ == ss[i] && r@[i].project_id@ == uuid_text(
                    project_id,
                ),
{
    let columns = status_columns(tasks, configured);
    let ghost ss = status_views(columns@);
    let id_text = crate::ids::format_uuid(project_id);
    let mut out: Vec<CompatStatus> = Vec::new();
    let mut i: usize = 0;
    while i < columns.len()
        invariant
            i <= columns@.len(),
            ss == status_views(columns@),
            id_text@ == uuid_text(project_id),
            out@.len() == i,
            forall|k: int| 0 <= k < i ==> (#[trigger] out@[k]).column@ == ss[k] && out@[k].project_id@ == uuid_text(
                project_id,
            ),
        decreases columns@.len() - i,
    {
        out.push(CompatStatus { project_id: id_text.clone(), column: copy_status(&columns[i]) });
        i = i + 1;
    }
    out
}


/// Why an issue of the compatibility board cannot be changed.
#[derive(Clone, Copy, Debug, PartialEq, Eq, Structural)]
pub enum IssueMutationError {
    /// The issue stands for a workspace, which is shown but not edited.
    WorkspaceBacked,
    /// No task or workspace has this id.
    NotFound,
    /// Issues cannot be created on a board made up from repositories.
    SyntheticBoard,
}

impl IssueMutationError {
    /// The message of the refusal.
    pub fn message(&self) -> (r: &'static str)
        ensures
            r@ == match *self {
                IssueMutationError::WorkspaceBacked => "Workspace-backed issues are read-only in local mode"@,
                IssueMutationError::NotFound => "no rows returned by a query that expected to return at least one row"@,
                IssueMutationError::SyntheticBoard => "Synthetic local project boards are read-only for issue creation"@,
            },
    {
        match self {
            IssueMutationError::WorkspaceBacked => "Workspace-backed issues are read-only in local mode",
            IssueMutationError::NotFound => "no rows returned by a query that expected to return at least one row",
            IssueMutationError::SyntheticBoard => "Synthetic local project boards are read-only for issue creation",
        }
    }
}

/// An issue may be changed when it is a task; a workspace shown as an
/// issue may not, and an unknown id is not found.
pub fn ensure_mutable_issue(is_task: bool, is_workspace: bool) -> (r: Result<(), IssueMutationError>)
    ensures
        r == (if is_task {
            Ok(())
        } else if is_workspace {
            Err(IssueMutationError::WorkspaceBacked)
        } else {
            Err(IssueMutationError::NotFound)
        }),
{
    if is_task {
        Ok(())
    } else if is_workspace {
        Err(IssueMutationError::WorkspaceBacked)
    } else {
        Err(IssueMutationError::NotFound)
    }
}

/// Issues may be created on a real project, or on an id that names no
/// board made up from repositories.
pub fn ensure_issue_creation_allowed(has_real_project: bool, is_synthetic_board: bool) -> (r: Result<
    (),
    IssueMutationError,
>)
    ensures
        r == (if !has_real_project && is_synthetic_board {
            Err(IssueMutationError::SyntheticBoard)
        } else {
            Ok(())
        }),
{
    if !has_real_project && is_synthetic_board {
        Err(IssueMutationError::SyntheticBoard)
    } else {
        Ok(())
    }
}

/// The status name a task's description records, else that of its status.
pub open spec fn recorded_status(description: Option<Seq<char>>, status: TaskStatus) -> Seq<char> {
    match first_status(lines(match description {
        Some(d) => d,
        None => Seq::<char>::empty(),
    })) {
        Some(v) => v,
        None => task_status_name_spec(status),
    }
}

/// The status name `status_id` resolves to on the project's board, where
/// `fallback` names the status used when no column matches.
pub open spec fn resolves_to(
    tasks: Seq<LocalTaskStatus>,
    configured: Seq<StatusView>,
    status_id: Seq<char>,
    fallback: Option<TaskStatus>,
    name: Seq<char>,
) -> bool {
    exists|ss: Seq<StatusView>| statuses_spec(tasks, configured, ss) && name == resolved_name(ss, status_id, fallback)
}

/// What an issue change writes: the status name it shows, its description
/// with the status recorded, the task status, and whether it enters
/// In Staging (its linked workspaces are then archived).
pub struct IssueUpdatePlan {
    pub status_name: String,
    pub description: Option<String>,
    pub status: TaskStatus,
    pub entered_in_staging: bool,
}

/// Plans an issue change: the requested status resolved on the board (the
/// recorded one where none is requested), the requested description (the
/// existing one where none is given) with that status recorded, and
/// whether the change moves the issue into In Staging.
pub fn plan_issue_update(
    tasks: &Vec<LocalTaskStatus>,
    configured: &Vec<ProjectStatusConfig>,
    existing_description: Option<String>,
    existing_status: TaskStatus,
    status_id: Option<&str>,
    description: Option<Option<String>>,
) -> (r: IssueUpdatePlan)
    requires
        configured@.len() + tasks@.len() + 5 <= i64::MAX,
    ensures
        match status_id {
            None => r.status_name@ == recorded_status(opt_str(existing_description), existing_status),
            Some(id) => resolves_to(tasks@, status_views(configured@), id@, Some(existing_status), r.status_name@),
        },
        opt_str(r.description) == ensured_metadata(
            match description {
                Some(Some(d)) => d@,
                Some(None) => Seq::<char>::empty(),
                None => match existing_description {
                    Some(d) => d@,
                    None => Seq::<char>::empty(),
                },
            },
            r.status_name@,
        ),
        r.status == parse_task_status_spec(r.status_name@),
        r.entered_in_staging == (status_key(recorded_status(opt_str(existing_description), existing_status))
            != "instaging"@ && status_key(r.status_name@) == "instaging"@),
{
    let previous = extract_status_name(
        match &existing_description {
            Some(d) => Some(d.as_str()),
            None => None,
        },
        &existing_status,
    );
    let status_name = match status_id {
        Some(id) => resolve_status_name(tasks, configured, id, Some(&existing_status)),
        None => previous.clone(),
    };
    let source = match description {
        Some(d) => d,
        None => existing_description,
    };
    let entered_in_staging = !is_in_staging_status(previous.as_str()) && is_in_staging_status(
        status_name.as_str(),
    );
    IssueUpdatePlan {
        description: ensure_status_metadata(source, status_name.as_str()),
        status: parse_task_status(status_name.as_str()),
        status_name,
        entered_in_staging,
    }
}

/// What a new issue is stored with: the requested status resolved on the
/// board (To do where no column matches), the description with that
/// status recorded, and the task status.
pub fn plan_issue_creation(
    tasks: &Vec<LocalTaskStatus>,
    configured: &Vec<ProjectStatusConfig>,
    status_id: &str,
    description: Option<String>,
) -> (r: (String, Option<String>, TaskStatus))
    requires
        configured@.len() + tasks@.len() + 5 <= i64::MAX,
    ensures
        resolves_to(tasks@, status_views(configured@), status_id@, Some(TaskStatus::Todo), r.0@),
        opt_str(r.1) == ensured_metadata(
            match description {
                Some(d) => d@,
                None => Seq::<char>::empty(),
            },
            r.0@,
        ),
        r.2 == parse_task_status_spec(r.0@),
{
    let status_name = resolve_status_name(tasks, configured, status_id, Some(&TaskStatus::Todo));
    let d = ensure_status_metadata(description, status_name.as_str());
    let t = parse_task_status(status_name.as_str());
    (status_name, d, t)
}

} // verus!
