//! Replay of completed execution logs: conversation patches applied to the
//! numbered entries of a turn, pages of those entries read from the newest
//! back, the coalescing of buffered patches, and the bounded cache of
//! replayed turns. Entry values are carried as their JSON text.
use vstd::prelude::*;
use crate::ids::hex_digit;
use crate::text::{parse_uint_spec, parse_usize, str_eq, strip_prefix_str};

verus! {

/// Kind of a JSON patch operation.
#[derive(Clone, Copy, Debug, PartialEq, Eq, Structural)]
pub enum PatchKind {
    Add,
    Replace,
    Remove,
    /// `move`, `copy` or `test`.
    Other,
}

/// A JSON patch operation on the entries of a conversation.
pub struct PatchOp {
    pub kind: PatchKind,
    pub path: String,
    /// The JSON text of the value (empty for a removal).
    pub value: String,
}

/// A patch operation as plain values.
pub struct PatchOpView {
    pub kind: PatchKind,
    pub path: Seq<char>,
    pub value: Seq<char>,
}

impl View for PatchOp {
    type V = PatchOpView;

    open spec fn view(&self) -> PatchOpView {
        PatchOpView { kind: self.kind, path: self.path@, value: self.value@ }
    }
}

/// A copy of an operation.
pub fn copy_op(op: &PatchOp) -> (r: PatchOp)
    ensures
        r@ == op@,
{
    PatchOp { kind: op.kind, path: op.path.clone(), value: op.value.clone() }
}

/// The entry a patch path names: `/entries/<n>` with `n` a `usize`.
pub open spec fn path_index(path: Seq<char>) -> Option<int> {
    let p = "/entries/"@;
    if p.len() <= path.len() && path.subrange(0, p.len() as int) == p {
        parse_uint_spec(path.subrange(p.len() as int, path.len() as int), usize::MAX as int)
    } else {
        None
    }
}

/// The entry index of a patch path, as [`path_index`] says.
pub fn entry_index(path: &str) -> (r: Option<usize>)
    ensures
        match r {
            Some(i) => path_index(path@) == Some(i as int),
            None => path_index(path@) is None,
        },
{
    match strip_prefix_str(path, "/entries/") {
        Some(rest) => parse_usize(rest),
        None => None,
    }
}

/// Why a patch cannot be replayed.
#[derive(Clone, Copy, Debug, PartialEq, Eq, Structural)]
pub enum ReplayError {
    /// The path does not name an entry.
    UnsupportedPath,
    /// The operation is neither an add, a replace nor a remove.
    UnsupportedOperation,
}

impl ReplayError {
    /// The message the request is refused with.
    pub fn message(&self) -> (r: &'static str)
        ensures
            r@ == match *self {
                ReplayError::UnsupportedPath => "Unsupported conversation patch path"@,
                ReplayError::UnsupportedOperation => "Unsupported conversation patch operation"@,
            },
    {
        match self {
            ReplayError::UnsupportedPath => "Unsupported conversation patch path",
            ReplayError::UnsupportedOperation => "Unsupported conversation patch operation",
        }
    }
}

/// The entries of a turn, by index, in increasing order of index.
pub struct LogEntries {
    pub entries: Vec<(usize, String)>,
}

/// The entries as plain values.
pub open spec fn entry_views(es: Seq<(usize, String)>) -> Seq<(usize, Seq<char>)> {
    es.map_values(|e: (usize, String)| (e.0, e.1@))
}

/// The indices increase strictly.
pub open spec fn sorted_entries(s: Seq<(usize, Seq<char>)>) -> bool {
    forall|a: int, b: int| 0 <= a < b < s.len() ==> #[trigger] s[a].0 < #[trigger] s[b].0
}

/// The entries as a map from index to value.
pub open spec fn entry_map(s: Seq<(usize, Seq<char>)>) -> Map<usize, Seq<char>>
    decreases s.len(),
{
    if s.len() == 0 {
        Map::empty()
    } else {
        entry_map(s.drop_last()).insert(s.last().0, s.last().1)
    }
}

impl View for LogEntries {
    type V = Seq<(usize, Seq<char>)>;

    open spec fn view(&self) -> Seq<(usize, Seq<char>)> {
        entry_views(self.entries@)
    }
}

proof fn lemma_entry_map_contains(s: Seq<(usize, Seq<char>)>, k: usize)
    requires
        sorted_entries(s),
    ensures
        entry_map(s).contains_key(k) <==> exists|i: int| 0 <= i < s.len() && s[i].0 == k,
        forall|i: int| 0 <= i < s.len() && s[i].0 == k ==> entry_map(s)[k] == s[i].1,
    decreases s.len(),
{
    if s.len() > 0 {
        let t = s.drop_last();
        let l = s.len() - 1;
        assert(sorted_entries(t));
        lemma_entry_map_contains(t, k);
        if entry_map(s).contains_key(k) {
            if s[l].0 == k {
                assert(0 <= l < s.len() && s[l].0 == k);
            } else {
                let i = choose|i: int| 0 <= i < t.len() && t[i].0 == k;
                assert(s[i].0 == k);
            }
        }
        if exists|i: int| 0 <= i < s.len() && s[i].0 == k {
            let i = choose|i: int| 0 <= i < s.len() && s[i].0 == k;
            if i < l {
                assert(t[i].0 == k);
            }
        }
        assert forall|i: int| 0 <= i < s.len() && s[i].0 == k implies entry_map(s)[k] == s[i].1 by {
            if i < l {
                assert(s[i].0 < s[l].0);
                assert(t[i] == s[i]);
            }
        }
    }
}

impl LogEntries {
    /// The indices increase strictly.
    pub open spec fn wf(&self) -> bool {
        sorted_entries(self@)
    }

    /// No entries.
    pub fn new() -> (r: LogEntries)
        ensures
            r.wf(),
            r@ == Seq::<(usize, Seq<char>)>::empty(),
    {
        LogEntries { entries: Vec::new() }
    }

    /// Position of the first entry whose index is at least `index`.
    fn position(&self, index: usize) -> (r: usize)
        requires
            self.wf(),
        ensures
            r <= self@.len(),
            forall|i: int| 0 <= i < r ==> #[trigger] self@[i].0 < index,
            forall|i: int| r <= i < self@.len() ==> #[trigger] self@[i].0 >= index,
    {
        let mut p: usize = 0;
        while p < self.entries.len() && self.entries[p].0 < index
            invariant
                self.wf(),
                p <= self@.len(),
                forall|i: int| 0 <= i < p ==> #[trigger] self@[i].0 < index,
            decreases self@.len() - p,
        {
            p = p + 1;
        }
        proof {
            assert forall|i: int| p <= i < self@.len() implies #[trigger] self@[i].0 >= index by {
                if i > p {
                    assert(self@[p as int].0 < self@[i].0);
                }
            }
        }
        p
    }

    /// Sets the value of entry `index` (adding it where it is missing).
    pub fn upsert(&mut self, index: usize, value: String)
        requires
            old(self).wf(),
        ensures
            final(self).wf(),
            entry_map(final(self)@) == entry_map(old(self)@).insert(index, value@),
    {
        let p = self.position(index);
        let ghost before = self@;
        if p < self.entries.len() && self.entries[p].0 == index {
            self.entries.set(p, (index, value));
            proof {
                assert(self@ =~= before.update(p as int, (index, value@)));
                lemma_map_update(before, p as int, value@);
            }
        } else {
            proof {
                assert forall|i: int| p <= i < before.len() implies #[trigger] before[i].0 > index by {
                    if i > p {
                        assert(before[p as int].0 < before[i].0);
                    }
                }
            }
            self.entries.insert(p, (index, value));
            proof {
                assert(self@ =~= before.insert(p as int, (index, value@)));
                lemma_map_insert(before, p as int, index, value@);
            }
        }
    }

    /// Removes entry `index`, where there is one.
    pub fn remove_entry(&mut self, index: usize)
        requires
            old(self).wf(),
        ensures
            final(self).wf(),
            entry_map(final(self)@) == entry_map(old(self)@).remove(index),
    {
        let p = self.position(index);
        let ghost before = self@;
        if p < self.entries.len() && self.entries[p].0 == index {
            self.entries.remove(p);
            proof {
                assert(self@ =~= before.remove(p as int));
                lemma_map_remove(before, p as int);
            }
        } else {
            proof {
                lemma_entry_map_contains(before, index);
                if entry_map(before).contains_key(index) {
                    let i = choose|i: int| 0 <= i < before.len() && before[i].0 == index;
                    if i > p {
                        assert(before[p as int].0 < before[i].0);
                    }
                    assert(false);
                }
                assert(entry_map(before).remove(index) =~= entry_map(before));
            }
        }
    }
}

proof fn lemma_map_update(s: Seq<(usize, Seq<char>)>, p: int, v: Seq<char>)
    requires
        sorted_entries(s),
        0 <= p < s.len(),
    ensures
        sorted_entries(s.update(p, (s[p].0, v))),
        entry_map(s.update(p, (s[p].0, v))) == entry_map(s).insert(s[p].0, v),
{
    let t = s.update(p, (s[p].0, v));
    assert(sorted_entries(t));
    let k = s[p].0;
    assert forall|x: usize| #[trigger] entry_map(t).contains_key(x) <==> entry_map(s).insert(k, v).contains_key(x) by {
        lemma_entry_map_contains(t, x);
        lemma_entry_map_contains(s, x);
        if entry_map(s).contains_key(x) {
            let i = choose|i: int| 0 <= i < s.len() && s[i].0 == x;
            assert(t[i].0 == x);
        }
        if entry_map(t).contains_key(x) {
            let i = choose|i: int| 0 <= i < t.len() && t[i].0 == x;
            assert(s[i].0 == x);
        }
    }
    assert forall|x: usize| #[trigger] entry_map(t).contains_key(x) implies entry_map(t)[x] == entry_map(s).insert(k, v)[x] by {
        lemma_entry_map_contains(t, x);
        lemma_entry_map_contains(s, x);
        let i = choose|i: int| 0 <= i < t.len() && t[i].0 == x;
        if i != p {
            assert(s[i].0 == x);
            assert(x != k);
        }
    }
    assert(entry_map(t) =~= entry_map(s).insert(k, v));
}

proof fn lemma_map_insert(s: Seq<(usize, Seq<char>)>, p: int, k: usize, v: Seq<char>)
    requires
        sorted_entries(s),
        0 <= p <= s.len(),
        forall|i: int| 0 <= i < p ==> #[trigger] s[i].0 < k,
        forall|i: int| p <= i < s.len() ==> #[trigger] s[i].0 > k,
    ensures
        sorted_entries(s.insert(p, (k, v))),
        entry_map(s.insert(p, (k, v))) == entry_map(s).insert(k, v),
{
    let t = s.insert(p, (k, v));
    assert forall|a: int, b: int| 0 <= a < b < t.len() implies #[trigger] t[a].0 < #[trigger] t[b].0 by {
        if a < p && b < p {
            assert(t[a] == s[a] && t[b] == s[b]);
        } else if a < p && b == p {
            assert(t[a] == s[a]);
        } else if a < p {
            assert(t[a] == s[a] && t[b] == s[b - 1]);
        } else if a == p {
            assert(t[b] == s[b - 1]);
        } else {
            assert(t[a] == s[a - 1] && t[b] == s[b - 1]);
        }
    }
    assert forall|x: usize| #[trigger] entry_map(t).contains_key(x) <==> entry_map(s).insert(k, v).contains_key(x) by {
        lemma_entry_map_contains(t, x);
        lemma_entry_map_contains(s, x);
        if entry_map(s).contains_key(x) {
            let i = choose|i: int| 0 <= i < s.len() && s[i].0 == x;
            if i < p {
                assert(t[i].0 == x);
            } else {
                assert(t[i + 1].0 == x);
            }
        }
        if x == k {
            assert(t[p].0 == x);
        }
        if entry_map(t).contains_key(x) {
            let i = choose|i: int| 0 <= i < t.len() && t[i].0 == x;
            if i < p {
                assert(s[i].0 == x);
            } else if i > p {
                assert(s[i - 1].0 == x);
            }
        }
    }
    assert forall|x: usize| #[trigger] entry_map(t).contains_key(x) implies entry_map(t)[x] == entry_map(s).insert(k, v)[x] by {
        lemma_entry_map_contains(t, x);
        lemma_entry_map_contains(s, x);
        let i = choose|i: int| 0 <= i < t.len() && t[i].0 == x;
        if i < p {
            assert(s[i].0 == x);
        } else if i > p {
            assert(s[i - 1].0 == x);
        }
    }
    assert(entry_map(t) =~= entry_map(s).insert(k, v));
}

proof fn lemma_map_remove(s: Seq<(usize, Seq<char>)>, p: int)
    requires
        sorted_entries(s),
        0 <= p < s.len(),
    ensures
        sorted_entries(s.remove(p)),
        entry_map(s.remove(p)) == entry_map(s).remove(s[p].0),
{
    let t = s.remove(p);
    let k = s[p].0;
    assert forall|a: int, b: int| 0 <= a < b < t.len() implies #[trigger] t[a].0 < #[trigger] t[b].0 by {
        if b < p {
            assert(t[a] == s[a] && t[b] == s[b]);
        } else if a < p {
            assert(t[a] == s[a] && t[b] == s[b + 1]);
        } else {
            assert(t[a] == s[a + 1] && t[b] == s[b + 1]);
        }
    }
    assert forall|x: usize| #[trigger] entry_map(t).contains_key(x) <==> entry_map(s).remove(k).contains_key(x) by {
        lemma_entry_map_contains(t, x);
        lemma_entry_map_contains(s, x);
        if entry_map(s).contains_key(x) && x != k {
            let i = choose|i: int| 0 <= i < s.len() && s[i].0 == x;
            if i < p {
                assert(t[i].0 == x);
            } else {
                assert(t[i - 1].0 == x);
            }
        }
        if entry_map(t).contains_key(x) {
            let i = choose|i: int| 0 <= i < t.len() && t[i].0 == x;
            if i < p {
                assert(s[i].0 == x);
                assert(s[i].0 < s[p].0);
            } else {
                assert(s[i + 1].0 == x);
                assert(s[p].0 < s[i + 1].0);
            }
        }
    }
    assert forall|x: usize| #[trigger] entry_map(t).contains_key(x) implies entry_map(t)[x] == entry_map(s).remove(k)[x] by {
        lemma_entry_map_contains(t, x);
        lemma_entry_map_contains(s, x);
        let i = choose|i: int| 0 <= i < t.len() && t[i].0 == x;
        if i < p {
            assert(s[i].0 == x);
        } else {
            assert(s[i + 1].0 == x);
        }
    }
    assert(entry_map(t) =~= entry_map(s).remove(k));
}

/// Applies one conversation patch operation to the entries: an add or a
/// replace sets the entry (a replace of a missing entry adds it), a remove
/// drops it. The path is checked first.
pub fn apply_entry(entries: &mut LogEntries, op: &PatchOp) -> (r: Result<(), ReplayError>)
    requires
        old(entries).wf(),
    ensures
        final(entries).wf(),
        match path_index(op@.path) {
            None => r == Err::<(), ReplayError>(ReplayError::UnsupportedPath) && final(entries)@ == old(entries)@,
            Some(i) => match op.kind {
                PatchKind::Add | PatchKind::Replace => r is Ok && entry_map(final(entries)@) == entry_map(
                    old(entries)@,
                ).insert(i as usize, op@.value),
                PatchKind::Remove => r is Ok && entry_map(final(entries)@) == entry_map(old(entries)@).remove(
                    i as usize,
                ),
                PatchKind::Other => r == Err::<(), ReplayError>(ReplayError::UnsupportedOperation)
                    && final(entries)@ == old(entries)@,
            },
        },
{
    let index = match entry_index(op.path.as_str()) {
        Some(i) => i,
        None => {
            return Err(ReplayError::UnsupportedPath);
        },
    };
    match op.kind {
        PatchKind::Add | PatchKind::Replace => {
            entries.upsert(index, op.value.clone());
            Ok(())
        },
        PatchKind::Remove => {
            entries.remove_entry(index);
            Ok(())
        },
        PatchKind::Other => Err(ReplayError::UnsupportedOperation),
    }
}

/// How `serde_json` writes a character inside a JSON string: quote and
/// backslash behind a backslash, the usual short escapes for backspace,
/// tab, line feed, form feed and carriage return, other control characters
/// as `\u00` and two lower-case hexadecimal digits, anything else as it is.
pub open spec fn json_escape_char(c: char) -> Seq<char> {
    let n = c as u32;
    if c == '"' {
        seq!['\\', '"']
    } else if c == '\\' {
        seq!['\\', '\\']
    } else if n == 8 {
        seq!['\\', 'b']
    } else if n == 9 {
        seq!['\\', 't']
    } else if n == 10 {
        seq!['\\', 'n']
    } else if n == 12 {
        seq!['\\', 'f']
    } else if n == 13 {
        seq!['\\', 'r']
    } else if n < 32 {
        seq!['\\', 'u', '0', '0', hex_digit((n / 16) as nat), hex_digit((n % 16) as nat)]
    } else {
        seq![c]
    }
}

/// The characters of a text escaped for a JSON string.
pub open spec fn json_escaped(s: Seq<char>) -> Seq<char>
    decreases s.len(),
{
    if s.len() == 0 {
        Seq::empty()
    } else {
        json_escaped(s.drop_last()) + json_escape_char(s.last())
    }
}

/// A text as a JSON string, in quotes.
pub open spec fn json_string(s: Seq<char>) -> Seq<char> {
    seq!['"'] + json_escaped(s) + seq!['"']
}

/// What `serde_json` prints for the entry `{"type": kind, "content": content}`
/// of a line of raw output: the compact object with its members in key
/// order.
pub open spec fn output_entry_json(kind: Seq<char>, content: Seq<char>) -> Seq<char> {
    seq!['{', '"', 'c', 'o', 'n', 't', 'e', 'n', 't', '"', ':'] + json_string(content) + seq![
        ',',
        '"',
        't',
        'y',
        'p',
        'e',
        '"',
        ':',
    ] + json_string(kind) + seq!['}']
}

/// The JSON text of the entry a line of raw output becomes, printed by
/// `serde_json` (`Value::to_string` of the object with the members `type`
/// and `content`), as [`output_entry_json`] says.
#[verifier::external_body]
fn output_entry(kind: &str, content: &str) -> (r: String)
    ensures
        r@ == output_entry_json(kind@, content@),
{
    let mut object = serde_json::Map::new();
    object.insert("type".to_string(), serde_json::Value::String(kind.to_string()));
    object.insert("content".to_string(), serde_json::Value::String(content.to_string()));
    serde_json::Value::Object(object).to_string()
}

/// A message of a process's log stream, as the history replay reads it.
pub enum LogMessage {
    /// Conversation patch operations.
    Patch(Vec<PatchOp>),
    /// A line a script printed on standard output.
    Stdout(String),
    /// A line a script printed on standard error.
    Stderr(String),
    /// The end of the stream.
    Finished,
    /// Anything else (session ids, ready signals, ...).
    Other,
}

/// A log message as plain values.
pub enum LogMessageView {
    Patch(Seq<PatchOpView>),
    Stdout(Seq<char>),
    Stderr(Seq<char>),
    Finished,
    Other,
}

impl View for LogMessage {
    type V = LogMessageView;

    open spec fn view(&self) -> LogMessageView {
        match self {
            LogMessage::Patch(ops) => LogMessageView::Patch(op_views(ops@)),
            LogMessage::Stdout(c) => LogMessageView::Stdout(c@),
            LogMessage::Stderr(c) => LogMessageView::Stderr(c@),
            LogMessage::Finished => LogMessageView::Finished,
            LogMessage::Other => LogMessageView::Other,
        }
    }
}

/// One patch operation applied to the entries (as [`apply_entry`] does).
pub open spec fn op_spec(m: Map<usize, Seq<char>>, op: PatchOpView) -> Result<Map<usize, Seq<char>>, ReplayError> {
    match path_index(op.path) {
        None => Err(ReplayError::UnsupportedPath),
        Some(i) => match op.kind {
            PatchKind::Add | PatchKind::Replace => Ok(m.insert(i as usize, op.value)),
            PatchKind::Remove => Ok(m.remove(i as usize)),
            PatchKind::Other => Err(ReplayError::UnsupportedOperation),
        },
    }
}

/// The operations of a patch applied in order; the first refused one
/// refuses the patch.
pub open spec fn patch_spec(m: Map<usize, Seq<char>>, ops: Seq<PatchOpView>) -> Result<Map<usize, Seq<char>>, ReplayError>
    decreases ops.len(),
{
    if ops.len() == 0 {
        Ok(m)
    } else {
        match patch_spec(m, ops.drop_last()) {
            Err(e) => Err(e),
            Ok(m2) => op_spec(m2, ops.last()),
        }
    }
}

/// A replay under way: the entries so far, the index the next line of raw
/// output takes, and whether the stream ended.
pub struct Replay {
    pub entries: LogEntries,
    pub raw_index: usize,
    pub finished: bool,
}

/// A replay as plain values.
pub struct ReplayView {
    pub entries: Map<usize, Seq<char>>,
    pub raw_index: usize,
    pub finished: bool,
}

/// The replay after one more message of the stream: patches are applied;
/// the raw output of a script becomes the next raw entry; the end of the
/// stream ends the replay; anything else is passed over.
pub open spec fn replay_step_spec(r: ReplayView, msg: LogMessageView, script: bool) -> Result<ReplayView, ReplayError> {
    match msg {
        LogMessageView::Patch(ops) => match patch_spec(r.entries, ops) {
            Ok(m) => Ok(ReplayView { entries: m, ..r }),
            Err(e) => Err(e),
        },
        LogMessageView::Stdout(c) => if script {
            Ok(
                ReplayView {
                    entries: r.entries.insert(r.raw_index, output_entry_json("STDOUT"@, c)),
                    raw_index: (r.raw_index + 1) as usize,
                    ..r
                },
            )
        } else {
            Ok(r)
        },
        LogMessageView::Stderr(c) => if script {
            Ok(
                ReplayView {
                    entries: r.entries.insert(r.raw_index, output_entry_json("STDERR"@, c)),
                    raw_index: (r.raw_index + 1) as usize,
                    ..r
                },
            )
        } else {
            Ok(r)
        },
        LogMessageView::Finished => Ok(ReplayView { finished: true, ..r }),
        LogMessageView::Other => Ok(r),
    }
}

impl Replay {
    /// The replay as plain values.
    pub open spec fn view_of(&self) -> ReplayView {
        ReplayView { entries: entry_map(self.entries@), raw_index: self.raw_index, finished: self.finished }
    }

    /// Nothing replayed yet.
    pub fn new() -> (r: Replay)
        ensures
            r.entries.wf(),
            r.view_of() == (ReplayView { entries: Map::empty(), raw_index: 0, finished: false }),
    {
        let r = Replay { entries: LogEntries::new(), raw_index: 0, finished: false };
        proof {
            assert(entry_map(r.entries@) =~= Map::<usize, Seq<char>>::empty());
        }
        r
    }

    /// Replays one message of the stream, as [`replay_step_spec`] says; a
    /// refused patch ends the replay with its error (the entries are then
    /// of no further use).
    pub fn step(&mut self, msg: LogMessage, script: bool) -> (r: Result<(), ReplayError>)
        requires
            old(self).entries.wf(),
            old(self).raw_index < usize::MAX,
        ensures
            final(self).entries.wf(),
            match replay_step_spec(old(self).view_of(), msg@, script) {
                Ok(next) => r is Ok && final(self).view_of() == next,
                Err(e) => r == Err::<(), ReplayError>(e),
            },
    {
        match &msg {
            LogMessage::Patch(ops) => {
                let ghost start = entry_map(self.entries@);
                let ghost ov = op_views(ops@);
                let mut k: usize = 0;
                while k < ops.len()
                    invariant
                        self.entries.wf(),
                        ov == op_views(ops@),
                        start == entry_map(old(self).entries@),
                        msg@ == LogMessageView::Patch(ov),
                        k <= ops@.len(),
                        patch_spec(start, ov.subrange(0, k as int)) == Ok::<Map<usize, Seq<char>>, ReplayError>(
                            entry_map(self.entries@),
                        ),
                        self.raw_index == old(self).raw_index,
                        self.finished == old(self).finished,
                    decreases ops@.len() - k,
                {
                    let ghost before = entry_map(self.entries@);
                    proof {
                        let next = ov.subrange(0, k + 1);
                        assert(next.drop_last() =~= ov.subrange(0, k as int));
                        assert(next.last() == ops@[k as int]@);
                        assert(patch_spec(start, next) == op_spec(before, ops@[k as int]@));
                    }
                    match apply_entry(&mut self.entries, &ops[k]) {
                        Ok(()) => {},
                        Err(e) => {
                            proof {
                                assert(patch_spec(start, ov.subrange(0, k + 1)) == Err::<Map<usize, Seq<char>>, ReplayError>(e));
                                lemma_patch_error_stays(start, ov, k as int + 1);
                                assert(start == old(self).view_of().entries);
                                assert(patch_spec(old(self).view_of().entries, ov) == Err::<Map<usize, Seq<char>>, ReplayError>(e));
                            }
                            return Err(e);
                        },
                    }
                    k = k + 1;
                }
                proof {
                    assert(ov.subrange(0, ops@.len() as int) =~= ov);
                }
                Ok(())
            },
            LogMessage::Stdout(c) => {
                if script {
                    let entry = output_entry("STDOUT", c.as_str());
                    self.entries.upsert(self.raw_index, entry);
                    self.raw_index = self.raw_index + 1;
                }
                Ok(())
            },
            LogMessage::Stderr(c) => {
                if script {
                    let entry = output_entry("STDERR", c.as_str());
                    self.entries.upsert(self.raw_index, entry);
                    self.raw_index = self.raw_index + 1;
                }
                Ok(())
            },
            LogMessage::Finished => {
                self.finished = true;
                Ok(())
            },
            LogMessage::Other => Ok(()),
        }
    }
}

/// Once an operation of a patch is refused, the whole patch is refused with
/// the first such error.
proof fn lemma_patch_error_stays(m: Map<usize, Seq<char>>, ops: Seq<PatchOpView>, k: int)
    requires
        0 < k <= ops.len(),
        patch_spec(m, ops.subrange(0, k)) is Err,
    ensures
        patch_spec(m, ops) == patch_spec(m, ops.subrange(0, k)),
    decreases ops.len() - k,
{
    if k == ops.len() {
        assert(ops.subrange(0, k) =~= ops);
    } else {
        let next = ops.subrange(0, k + 1);
        assert(next.drop_last() =~= ops.subrange(0, k));
        lemma_patch_error_stays(m, ops, k + 1);
    }
}

/// Entries read per history page when none or too many are asked for.
pub open spec fn history_limit_spec(limit: Option<usize>) -> usize {
    match limit {
        None => 40,
        Some(l) => if l < 1 {
            1
        } else if l > 200 {
            200
        } else {
            l
        },
    }
}

/// A history request: a running process's log must be read from the live
/// stream (refused with the message returned); otherwise the page size, by
/// default forty, held between one and two hundred.
pub fn history_request(running: bool, limit: Option<usize>) -> (r: Result<usize, &'static str>)
    ensures
        running ==> r == Err::<usize, &'static str>("Running logs must use the live stream"),
        !running ==> r == Ok::<usize, &'static str>(history_limit_spec(limit)),
{
    if running {
        return Err("Running logs must use the live stream");
    }
    match limit {
        None => Ok(40),
        Some(l) => Ok(
            if l < 1 {
                1
            } else if l > 200 {
                200
            } else {
                l
            },
        ),
    }
}

/// Number of leading entries older than `before` (all of them where there
/// is no bound).
pub open spec fn older_count(s: Seq<(usize, Seq<char>)>, before: Option<usize>) -> int
    decreases s.len(),
{
    if s.len() == 0 {
        0
    } else {
        match before {
            Some(b) => if s[0].0 < b {
                1 + older_count(s.drop_first(), before)
            } else {
                0
            },
            None => s.len() as int,
        }
    }
}

/// A page of entries, oldest first, and where the next older page starts.
pub struct HistoryPage {
    pub entries: Vec<(usize, String)>,
    pub next_before: Option<usize>,
}

/// The page of the `limit` newest entries older than `before`, oldest
/// first; where older entries remain, the next page is read from the oldest
/// index of this one.
pub open spec fn page_spec(s: Seq<(usize, Seq<char>)>, before: Option<usize>, limit: nat) -> (
    Seq<(usize, Seq<char>)>,
    Option<usize>,
) {
    let n = older_count(s, before);
    let start = if n > limit {
        n - limit
    } else {
        0
    };
    let shown = s.subrange(start, n);
    (shown, if n > limit && shown.len() > 0 {
        Some(shown[0].0)
    } else {
        None
    })
}

proof fn lemma_older_count(s: Seq<(usize, Seq<char>)>, before: Option<usize>)
    requires
        sorted_entries(s),
    ensures
        0 <= older_count(s, before) <= s.len(),
        forall|i: int| 0 <= i < older_count(s, before) ==> match before {
            Some(b) => #[trigger] s[i].0 < b,
            None => true,
        },
        forall|i: int| older_count(s, before) <= i < s.len() ==> match before {
            Some(b) => #[trigger] s[i].0 >= b,
            None => false,
        },
    decreases s.len(),
{
    if s.len() > 0 {
        match before {
            Some(b) => {
                let t = s.drop_first();
                assert(sorted_entries(t));
                lemma_older_count(t, before);
                if s[0].0 < b {
                    assert forall|i: int| 0 <= i < older_count(s, before) implies #[trigger] s[i].0 < b by {
                        if i > 0 {
                            assert(s[i] == t[i - 1]);
                        }
                    }
                    assert forall|i: int| older_count(s, before) <= i < s.len() implies #[trigger] s[i].0 >= b by {
                        assert(s[i] == t[i - 1]);
                    }
                } else {
                    assert forall|i: int| 0 <= i < s.len() implies #[trigger] s[i].0 >= b by {
                        if i > 0 {
                            assert(s[0].0 < s[i].0);
                        }
                    }
                }
            },
            None => {},
        }
    }
}

/// The page of entries, as [`page_spec`] says.
pub fn page(entries: &LogEntries, before: Option<usize>, limit: usize) -> (r: HistoryPage)
    requires
        entries.wf(),
    ensures
        (entry_views(r.entries@), r.next_before) == page_spec(entries@, before, limit as nat),
{
    proof {
        lemma_older_count(entries@, before);
    }
    let n = match before {
        Some(b) => entries.position(b),
        None => entries.entries.len(),
    };
    assert(n == older_count(entries@, before)) by {
        let k = older_count(entries@, before);
        if n < k {
            assert(entries@[n as int].0 < before->0);
        }
        if n > k {
            assert(entries@[k].0 >= before->0);
        }
    }
    let start = if n > limit {
        n - limit
    } else {
        0
    };
    let mut shown: Vec<(usize, String)> = Vec::new();
    let mut i = start;
    while i < n
        invariant
            start <= i <= n,
            n <= entries@.len(),
            entry_views(shown@) == entries@.subrange(start as int, i as int),
        decreases n - i,
    {
        let ghost before_shown = shown@;
        shown.push((entries.entries[i].0, entries.entries[i].1.clone()));
        proof {
            assert(entry_views(shown@) =~= entry_views(before_shown).push(entries@[i as int]));
            assert(entries@.subrange(start as int, i + 1) =~= entries@.subrange(start as int, i as int).push(
                entries@[i as int],
            ));
        }
        i = i + 1;
    }
    let next_before = if n > limit && shown.len() > 0 {
        Some(shown[0].0)
    } else {
        None
    };
    HistoryPage { entries: shown, next_before }
}

/// Reading pages from the newest back loses and repeats nothing: the
/// entries older than the next page's bound, followed by this page, are
/// exactly the entries older than this page's bound; and the last page
/// holds all of them.
pub proof fn lemma_pages_cover(s: Seq<(usize, Seq<char>)>, before: Option<usize>, limit: nat)
    requires
        sorted_entries(s),
        limit > 0,
    ensures
        match page_spec(s, before, limit).1 {
            Some(nb) => s.subrange(0, older_count(s, Some(nb))) + page_spec(s, before, limit).0
                == s.subrange(0, older_count(s, before)),
            None => page_spec(s, before, limit).0 == s.subrange(0, older_count(s, before)),
        },
{
    lemma_older_count(s, before);
    let n = older_count(s, before);
    if n > limit {
        let start = n - limit;
        let nb = s[start].0;
        lemma_older_count(s, Some(nb));
        let m = older_count(s, Some(nb));
        if m < start {
            assert(s[m].0 >= nb);
            assert(s[m].0 < s[start].0);
        }
        if m > start {
            assert(s[start].0 < nb);
        }
        assert(s.subrange(0, m) + s.subrange(start, n) =~= s.subrange(0, n));
    }
}

/// Whether a later operation in `ops` has the same path as the one at `i`.
pub open spec fn overwritten(ops: Seq<PatchOpView>, i: int) -> bool {
    exists|j: int| i < j < ops.len() && #[trigger] ops[j].path == ops[i].path
}

/// The operations that no later operation on the same path overwrites, in
/// their order.
pub open spec fn coalesced(ops: Seq<PatchOpView>, from: int) -> Seq<PatchOpView>
    decreases ops.len() - from,
{
    if from < 0 || from >= ops.len() {
        Seq::empty()
    } else if overwritten(ops, from) {
        coalesced(ops, from + 1)
    } else {
        seq![ops[from]] + coalesced(ops, from + 1)
    }
}

/// No two operations of `s` are on the same path.
pub open spec fn distinct_paths(s: Seq<PatchOpView>) -> bool {
    forall|a: int, b: int| 0 <= a < b < s.len() ==> (#[trigger] s[a]).path != (#[trigger] s[b]).path
}

/// The operation at `i` is the last one of `ops` on its path.
pub open spec fn last_on_path(ops: Seq<PatchOpView>, i: int) -> bool {
    forall|j: int| i < j < ops.len() ==> (#[trigger] ops[j]).path != ops[i].path
}

/// What coalescing keeps, from position `from` on: no two kept operations
/// share a path; each kept operation is one of `ops` that no later
/// operation on its path follows; and each such operation is kept, so
/// that for each path the kept operation on it is the last one.
pub proof fn lemma_coalesced_keeps_last_per_path(ops: Seq<PatchOpView>, from: int)
    requires
        0 <= from,
    ensures
        distinct_paths(coalesced(ops, from)),
        forall|k: int|
            0 <= k < coalesced(ops, from).len() ==> exists|i: int|
                from <= i < ops.len() && last_on_path(ops, i) && #[trigger] coalesced(ops, from)[k] == ops[i],
        forall|i: int|
            from <= i < ops.len() && #[trigger] last_on_path(ops, i) ==> coalesced(ops, from).contains(ops[i]),
    decreases ops.len() - from,
{
    let out = coalesced(ops, from);
    if from < ops.len() {
        let rest = coalesced(ops, from + 1);
        lemma_coalesced_keeps_last_per_path(ops, from + 1);
        if overwritten(ops, from) {
            assert(out == rest);
            assert forall|i: int| from <= i < ops.len() && #[trigger] last_on_path(ops, i) implies out.contains(
                ops[i],
            ) by {
                if i == from {
                    let j = choose|j: int| from < j < ops.len() && #[trigger] ops[j].path == ops[from].path;
                    assert(ops[j].path != ops[i].path);
                }
            }
        } else {
            assert(out == seq![ops[from]] + rest);
            assert(last_on_path(ops, from)) by {
                assert forall|j: int| from < j < ops.len() implies (#[trigger] ops[j]).path != ops[from].path by {
                    if ops[j].path == ops[from].path {
                        assert(overwritten(ops, from));
                    }
                }
            }
            assert forall|a: int, b: int| 0 <= a < b < out.len() implies (#[trigger] out[a]).path != (
            #[trigger] out[b]).path by {
                assert(out[b] == rest[b - 1]);
                if a == 0 {
                    let i = choose|i: int|
                        from + 1 <= i < ops.len() && last_on_path(ops, i) && #[trigger] rest[b - 1] == ops[i];
                    assert(ops[i].path != ops[from].path);
                } else {
                    assert(out[a] == rest[a - 1]);
                }
            }
            assert forall|k: int| 0 <= k < out.len() implies exists|i: int|
                from <= i < ops.len() && last_on_path(ops, i) && #[trigger] out[k] == ops[i] by {
                if k == 0 {
                    assert(out[0] == ops[from]);
                } else {
                    assert(out[k] == rest[k - 1]);
                }
            }
            assert forall|i: int| from <= i < ops.len() && #[trigger] last_on_path(ops, i) implies out.contains(
                ops[i],
            ) by {
                if i == from {
                    assert(out[0] == ops[i]);
                } else {
                    let k = choose|k: int| 0 <= k < rest.len() && rest[k] == ops[i];
                    assert(out[k + 1] == rest[k]);
                }
            }
        }
    }
}

/// The operations as plain values.
pub open spec fn op_views(ops: Seq<PatchOp>) -> Seq<PatchOpView> {
    ops.map_values(|o: PatchOp| o@)
}

/// Keeps only the last operation on each path, in the order of the kept
/// operations.
pub fn coalesce_patch_ops(ops: Vec<PatchOp>) -> (r: Vec<PatchOp>)
    ensures
        op_views(r@) == coalesced(op_views(ops@), 0),
        distinct_paths(op_views(r@)),
        forall|k: int|
            0 <= k < r@.len() ==> exists|i: int|
                #![trigger ops@[i]]
                0 <= i < ops@.len() && last_on_path(op_views(ops@), i) && (#[trigger] r@[k])@ == ops@[i]@,
        forall|i: int|
            0 <= i < ops@.len() && #[trigger] last_on_path(op_views(ops@), i) ==> op_views(r@).contains(ops@[i]@),
{
    let ghost v = op_views(ops@);
    let n = ops.len();
    let mut kept: Vec<PatchOp> = Vec::new();
    let mut i: usize = 0;
    while i < n
        invariant
            n == ops@.len(),
            v == op_views(ops@),
            i <= n,
            coalesced(v, 0) == op_views(kept@) + coalesced(v, i as int),
        decreases n - i,
    {
        let mut j = i + 1;
        let mut later = false;
        while j < n
            invariant
                n == ops@.len(),
                v == op_views(ops@),
                i < n,
                i < j <= n,
                later == exists|k: int| i < k < j && #[trigger] v[k].path == v[i as int].path,
            decreases n - j,
        {
            if str_eq(ops[j].path.as_str(), ops[i].path.as_str()) {
                later = true;
            }
            proof {
                if later {
                    if v[j as int].path == v[i as int].path {
                        assert(i < j < j + 1 && v[j as int].path == v[i as int].path);
                    }
                }
            }
            j = j + 1;
        }
        let ghost before = op_views(kept@);
        if !later {
            kept.push(copy_op(&ops[i]));
            proof {
                assert(op_views(kept@) =~= before.push(v[i as int]));
                assert(before + (seq![v[i as int]] + coalesced(v, i + 1)) =~= before.push(v[i as int])
                    + coalesced(v, i + 1));
            }
        }
        i = i + 1;
    }
    proof {
        assert(op_views(kept@) + coalesced(v, n as int) =~= op_views(kept@));
        lemma_coalesce_fields(ops@, kept@);
    }
    kept
}

proof fn lemma_coalesce_fields(ops: Seq<PatchOp>, r: Seq<PatchOp>)
    requires
        op_views(r) == coalesced(op_views(ops), 0),
    ensures
        distinct_paths(op_views(r)),
        forall|k: int|
            0 <= k < r.len() ==> exists|i: int|
                #![trigger ops[i]]
                0 <= i < ops.len() && last_on_path(op_views(ops), i) && (#[trigger] r[k])@ == ops[i]@,
        forall|i: int|
            0 <= i < ops.len() && #[trigger] last_on_path(op_views(ops), i) ==> op_views(r).contains(ops[i]@),
{
    let v = op_views(ops);
    let out = op_views(r);
    lemma_coalesced_keeps_last_per_path(v, 0);
    assert forall|k: int| 0 <= k < r.len() implies exists|i: int|
        #![trigger ops[i]]
        0 <= i < ops.len() && last_on_path(op_views(ops), i) && (#[trigger] r[k])@ == ops[i]@ by {
        assert(out[k] == r[k]@);
        let i = choose|i: int| 0 <= i < v.len() && last_on_path(v, i) && #[trigger] out[k] == v[i];
        assert(v[i] == ops[i]@);
    }
    assert forall|i: int| 0 <= i < ops.len() && #[trigger] last_on_path(v, i) implies out.contains(ops[i]@) by {
        assert(v[i] == ops[i]@);
    }
}


/// Most bytes of replayed entries the cache keeps.
pub const CACHE_BYTES: usize = 33554432;

/// Most turns the cache keeps.
pub const CACHE_TURNS: usize = 4;

/// How long a cached turn is kept, in milliseconds.
pub const CACHE_TTL_MS: u64 = 300000;

/// The replayed entries of one revision of a process.
pub struct CachedTurn {
    pub process_id: u128,
    pub revision: String,
    pub entries: LogEntries,
    /// Size of the entries' JSON text.
    pub bytes: usize,
    /// When the turn was cached, in milliseconds of a monotonic clock.
    pub created_ms: u64,
}

/// A cached turn as plain values.
pub struct TurnView {
    pub process_id: u128,
    pub revision: Seq<char>,
    pub entries: Seq<(usize, Seq<char>)>,
    pub bytes: usize,
    pub created_ms: u64,
}

impl View for CachedTurn {
    type V = TurnView;

    open spec fn view(&self) -> TurnView {
        TurnView {
            process_id: self.process_id,
            revision: self.revision@,
            entries: self.entries@,
            bytes: self.bytes,
            created_ms: self.created_ms,
        }
    }
}

/// A turn cached at `created` is still fresh at `now`: less than the time
/// to live has elapsed (none, where the clock reads earlier).
pub open spec fn fresh(created: u64, now: u64) -> bool {
    now < created || now - created < CACHE_TTL_MS
}

/// The turns still fresh at `now`, in order.
pub open spec fn fresh_turns(s: Seq<TurnView>, now: u64) -> Seq<TurnView>
    decreases s.len(),
{
    if s.len() == 0 {
        s
    } else {
        let rest = fresh_turns(s.drop_last(), now);
        if fresh(s.last().created_ms, now) {
            rest.push(s.last())
        } else {
            rest
        }
    }
}

/// The turns of other processes still fresh at `now`, in order.
pub open spec fn kept_turns(s: Seq<TurnView>, process: u128, now: u64) -> Seq<TurnView>
    decreases s.len(),
{
    if s.len() == 0 {
        s
    } else {
        let rest = kept_turns(s.drop_last(), process, now);
        if s.last().process_id != process && fresh(s.last().created_ms, now) {
            rest.push(s.last())
        } else {
            rest
        }
    }
}

/// Total size of the turns.
pub open spec fn total_bytes(s: Seq<TurnView>) -> int
    decreases s.len(),
{
    if s.len() == 0 {
        0
    } else {
        total_bytes(s.drop_last()) + s.last().bytes
    }
}

/// The turns left after dropping the oldest until there is room for a
/// turn of `bytes` more: fewer than the most turns, and the size bound kept.
pub open spec fn evicted(s: Seq<TurnView>, bytes: int) -> Seq<TurnView>
    decreases s.len(),
{
    if s.len() > 0 && (s.len() >= CACHE_TURNS || total_bytes(s) + bytes > CACHE_BYTES) {
        evicted(s.drop_first(), bytes)
    } else {
        s
    }
}

/// Position of the first turn with the given key.
pub open spec fn key_position(s: Seq<TurnView>, process: u128, revision: Seq<char>) -> Option<int> {
    if exists|i: int| 0 <= i < s.len() && s[i].process_id == process && s[i].revision == revision {
        Some(
            choose|i: int|
                0 <= i < s.len() && s[i].process_id == process && s[i].revision == revision && forall|j: int|
                    0 <= j < i ==> !(#[trigger] s[j].process_id == process && s[j].revision == revision),
        )
    } else {
        None
    }
}

/// What a lookup leaves and returns: stale turns are dropped; a found turn
/// moves to the newest end and its entries are returned.
pub open spec fn get_spec(s: Seq<TurnView>, process: u128, revision: Seq<char>, now: u64) -> (
    Seq<TurnView>,
    Option<Seq<(usize, Seq<char>)>>,
) {
    let f = fresh_turns(s, now);
    match key_position(f, process, revision) {
        Some(i) => (f.remove(i).push(f[i]), Some(f[i].entries)),
        None => (f, None),
    }
}

/// What an insertion leaves: the turns of the same process and the stale
/// ones are dropped; a turn larger than the whole cache is not kept;
/// otherwise the oldest turns make room and the new one is the newest.
pub open spec fn insert_spec(s: Seq<TurnView>, t: TurnView, now: u64) -> Seq<TurnView> {
    let k = kept_turns(s, t.process_id, now);
    if t.bytes > CACHE_BYTES {
        k
    } else {
        evicted(k, t.bytes as int).push(t)
    }
}

/// The cache of replayed completed turns, oldest first.
pub struct HistoryCache {
    pub turns: Vec<CachedTurn>,
}

impl View for HistoryCache {
    type V = Seq<TurnView>;

    open spec fn view(&self) -> Seq<TurnView> {
        self.turns@.map_values(|t: CachedTurn| t@)
    }
}

/// At most the most turns, within the size bound, each turn's entries in
/// order.
pub open spec fn cache_ok(s: Seq<TurnView>) -> bool {
    &&& s.len() <= CACHE_TURNS
    &&& total_bytes(s) <= CACHE_BYTES
    &&& forall|i: int| 0 <= i < s.len() ==> sorted_entries(#[trigger] s[i].entries)
}

proof fn lemma_total_nonneg(s: Seq<TurnView>)
    ensures
        total_bytes(s) >= 0,
        forall|i: int| 0 <= i < s.len() ==> #[trigger] s[i].bytes <= total_bytes(s),
    decreases s.len(),
{
    if s.len() > 0 {
        lemma_total_nonneg(s.drop_last());
        assert forall|i: int| 0 <= i < s.len() implies #[trigger] s[i].bytes <= total_bytes(s) by {
            if i < s.len() - 1 {
                assert(s.drop_last()[i] == s[i]);
            }
        }
    }
}

proof fn lemma_total_drop_first(s: Seq<TurnView>)
    requires
        s.len() > 0,
    ensures
        total_bytes(s) == s[0].bytes + total_bytes(s.drop_first()),
    decreases s.len(),
{
    if s.len() > 1 {
        let a = s.drop_last();
        let b = s.drop_first();
        lemma_total_drop_first(a);
        assert(a.drop_first() =~= b.drop_last());
        assert(b.last() == s.last());
        assert(a[0] == s[0]);
        assert(total_bytes(s) == total_bytes(a) + s.last().bytes);
        assert(total_bytes(b) == total_bytes(b.drop_last()) + b.last().bytes);
    } else {
        assert(total_bytes(s.drop_first()) == 0);
        assert(total_bytes(s.drop_last()) == 0);
        assert(s.last() == s[0]);
        assert(total_bytes(s) == total_bytes(s.drop_last()) + s.last().bytes);
    }
}

proof fn lemma_filtered_ok(s: Seq<TurnView>, t: Seq<TurnView>)
    requires
        cache_ok(s),
        t.len() <= s.len(),
        total_bytes(t) <= total_bytes(s),
        forall|i: int| 0 <= i < t.len() ==> exists|j: int| 0 <= j < s.len() && #[trigger] t[i] == s[j],
    ensures
        cache_ok(t),
{
    assert forall|i: int| 0 <= i < t.len() implies sorted_entries(#[trigger] t[i].entries) by {
        let j = choose|j: int| 0 <= j < s.len() && t[i] == s[j];
        assert(sorted_entries(s[j].entries));
    }
}

proof fn lemma_fresh_sub(s: Seq<TurnView>, now: u64)
    ensures
        fresh_turns(s, now).len() <= s.len(),
        total_bytes(fresh_turns(s, now)) <= total_bytes(s),
        forall|i: int| 0 <= i < fresh_turns(s, now).len() ==> exists|j: int| 0 <= j < s.len() && #[trigger] fresh_turns(s, now)[i] == s[j],
        forall|i: int| 0 <= i < fresh_turns(s, now).len() ==> fresh(#[trigger] fresh_turns(s, now)[i].created_ms, now),
    decreases s.len(),
{
    if s.len() > 0 {
        let l = s.len() - 1;
        lemma_fresh_sub(s.drop_last(), now);
        lemma_total_nonneg(s.drop_last());
        let r = fresh_turns(s.drop_last(), now);
        let f = fresh_turns(s, now);
        if fresh(s.last().created_ms, now) {
            assert(f.drop_last() =~= r);
        }
        assert forall|i: int| 0 <= i < f.len() implies exists|j: int| 0 <= j < s.len() && #[trigger] f[i] == s[j] by {
            if i < r.len() {
                let j = choose|j: int| 0 <= j < s.drop_last().len() && r[i] == s.drop_last()[j];
                assert(f[i] == s[j]);
            } else {
                assert(f[i] == s[l]);
            }
        }
        assert forall|i: int| 0 <= i < f.len() implies fresh(#[trigger] f[i].created_ms, now) by {
            if i < r.len() {
                assert(f[i] == r[i]);
            }
        }
    }
}

proof fn lemma_kept_sub(s: Seq<TurnView>, process: u128, now: u64)
    ensures
        kept_turns(s, process, now).len() <= s.len(),
        total_bytes(kept_turns(s, process, now)) <= total_bytes(s),
        forall|i: int| 0 <= i < kept_turns(s, process, now).len() ==> exists|j: int| 0 <= j < s.len() && #[trigger] kept_turns(s, process, now)[i] == s[j],
        forall|i: int| 0 <= i < kept_turns(s, process, now).len() ==> (#[trigger] kept_turns(s, process, now)[i]).process_id != process,
    decreases s.len(),
{
    if s.len() > 0 {
        let l = s.len() - 1;
        lemma_kept_sub(s.drop_last(), process, now);
        lemma_total_nonneg(s.drop_last());
        let r = kept_turns(s.drop_last(), process, now);
        let f = kept_turns(s, process, now);
        if s.last().process_id != process && fresh(s.last().created_ms, now) {
            assert(f.drop_last() =~= r);
        }
        assert forall|i: int| 0 <= i < f.len() implies exists|j: int| 0 <= j < s.len() && #[trigger] f[i] == s[j] by {
            if i < r.len() {
                let j = choose|j: int| 0 <= j < s.drop_last().len() && r[i] == s.drop_last()[j];
                assert(f[i] == s[j]);
            } else {
                assert(f[i] == s[l]);
            }
        }
        assert forall|i: int| 0 <= i < f.len() implies (#[trigger] f[i]).process_id != process by {
            if i < r.len() {
                assert(f[i] == r[i]);
            }
        }
    }
}

proof fn lemma_evicted(s: Seq<TurnView>, bytes: int)
    requires
        0 <= bytes <= CACHE_BYTES,
    ensures
        evicted(s, bytes).len() < CACHE_TURNS,
        total_bytes(evicted(s, bytes)) + bytes <= CACHE_BYTES,
        evicted(s, bytes).len() <= s.len(),
        forall|i: int| 0 <= i < evicted(s, bytes).len() ==> exists|j: int| 0 <= j < s.len() && #[trigger] evicted(s, bytes)[i] == s[j],
    decreases s.len(),
{
    if s.len() > 0 && (s.len() >= CACHE_TURNS || total_bytes(s) + bytes > CACHE_BYTES) {
        let t = s.drop_first();
        lemma_evicted(t, bytes);
        let e = evicted(s, bytes);
        assert forall|i: int| 0 <= i < e.len() implies exists|j: int| 0 <= j < s.len() && #[trigger] e[i] == s[j] by {
            let j = choose|j: int| 0 <= j < t.len() && e[i] == t[j];
            assert(e[i] == s[j + 1]);
        }
    } else {
        assert(s.len() > 0 || total_bytes(s) == 0);
    }
}

proof fn lemma_get_ok(s: Seq<TurnView>, process: u128, revision: Seq<char>, now: u64)
    requires
        cache_ok(s),
    ensures
        cache_ok(get_spec(s, process, revision, now).0),
        match get_spec(s, process, revision, now).1 {
            Some(e) => sorted_entries(e),
            None => true,
        },
{
    let f = fresh_turns(s, now);
    lemma_fresh_sub(s, now);
    lemma_filtered_ok(s, f);
    match key_position(f, process, revision) {
        Some(i) => {
            let g = f.remove(i).push(f[i]);
            lemma_total_remove(f, i);
            assert(g.drop_last() =~= f.remove(i));
            assert forall|k: int| 0 <= k < g.len() implies sorted_entries(#[trigger] g[k].entries) by {
                if k < g.len() - 1 {
                    if k < i {
                        assert(g[k] == f[k]);
                    } else {
                        assert(g[k] == f[k + 1]);
                    }
                }
            }
        },
        None => {},
    }
}

proof fn lemma_total_remove(s: Seq<TurnView>, i: int)
    requires
        0 <= i < s.len(),
    ensures
        total_bytes(s.remove(i)) + s[i].bytes == total_bytes(s),
    decreases s.len(),
{
    let l = s.len() - 1;
    if i < l {
        lemma_total_remove(s.drop_last(), i);
        assert(s.remove(i).drop_last() =~= s.drop_last().remove(i));
        assert(s.remove(i).last() == s.last());
    } else {
        assert(s.remove(i) =~= s.drop_last());
    }
}


/// A copy of a turn's entries.
pub fn copy_entries(e: &LogEntries) -> (r: LogEntries)
    ensures
        r@ == e@,
{
    let mut out: Vec<(usize, String)> = Vec::new();
    let mut i: usize = 0;
    while i < e.entries.len()
        invariant
            i <= e@.len(),
            entry_views(out@) == e@.subrange(0, i as int),
        decreases e@.len() - i,
    {
        let ghost before = out@;
        out.push((e.entries[i].0, e.entries[i].1.clone()));
        proof {
            assert(entry_views(out@) =~= entry_views(before).push(e@[i as int]));
            assert(e@.subrange(0, i + 1) =~= e@.subrange(0, i as int).push(e@[i as int]));
        }
        i = i + 1;
    }
    proof {
        assert(e@.subrange(0, e@.len() as int) =~= e@);
    }
    LogEntries { entries: out }
}

proof fn lemma_first_key(s: Seq<TurnView>, process: u128, revision: Seq<char>, i: int)
    requires
        0 <= i < s.len(),
        s[i].process_id == process && s[i].revision == revision,
        forall|j: int| 0 <= j < i ==> !(#[trigger] s[j].process_id == process && s[j].revision == revision),
    ensures
        key_position(s, process, revision) == Some(i),
{
    let c = choose|c: int|
        0 <= c < s.len() && s[c].process_id == process && s[c].revision == revision && forall|j: int|
            0 <= j < c ==> !(#[trigger] s[j].process_id == process && s[j].revision == revision);
    assert(0 <= c < s.len() && s[c].process_id == process && s[c].revision == revision);
    if c < i {
        assert(!(s[c].process_id == process && s[c].revision == revision));
    }
    if c > i {
        assert(!(s[i].process_id == process && s[i].revision == revision));
    }
}

impl HistoryCache {
    /// An empty cache.
    pub fn new() -> (r: HistoryCache)
        ensures
            r@ == Seq::<TurnView>::empty(),
            cache_ok(r@),
    {
        HistoryCache { turns: Vec::new() }
    }

    /// Drops the turns that are stale at `now`, or belong to `process` where
    /// one is given.
    fn retain_turns(&mut self, process: Option<u128>, now: u64)
        ensures
            final(self)@ == match process {
                Some(p) => kept_turns(old(self)@, p, now),
                None => fresh_turns(old(self)@, now),
            },
    {
        let ghost orig = self@;
        let ghost target = match process {
            Some(p) => kept_turns(orig, p, now),
            None => fresh_turns(orig, now),
        };
        let mut i: usize = self.turns.len();
        proof {
            assert(self@.subrange(0, i as int) =~= orig);
            assert(target =~= target + self@.subrange(i as int, self@.len() as int));
        }
        while i > 0
            invariant
                i <= self@.len(),
                target == match process {
                    Some(p) => kept_turns(self@.subrange(0, i as int), p, now),
                    None => fresh_turns(self@.subrange(0, i as int), now),
                } + self@.subrange(i as int, self@.len() as int),
            decreases i,
        {
            let ghost cur = self@;
            let ghost pre = cur.subrange(0, i as int);
            proof {
                assert(pre.drop_last() =~= cur.subrange(0, i - 1));
                assert(pre.last() == cur[i - 1]);
            }
            let t = &self.turns[i - 1];
            let stale = !(now < t.created_ms || now - t.created_ms < CACHE_TTL_MS);
            let drop = stale || match process {
                Some(p) => t.process_id == p,
                None => false,
            };
            if drop {
                self.turns.remove(i - 1);
                proof {
                    assert(self@ =~= cur.remove(i - 1));
                    assert(self@.subrange(0, i - 1) =~= cur.subrange(0, i - 1));
                    assert(self@.subrange(i - 1, self@.len() as int) =~= cur.subrange(i as int, cur.len() as int));
                }
            } else {
                proof {
                    assert(cur.subrange(i - 1, cur.len() as int) =~= seq![cur[i - 1]] + cur.subrange(i as int, cur.len() as int));
                    match process {
                        Some(p) => {
                            assert(kept_turns(pre, p, now) == kept_turns(cur.subrange(0, i - 1), p, now).push(cur[i - 1]));
                            assert(kept_turns(cur.subrange(0, i - 1), p, now).push(cur[i - 1]) + cur.subrange(i as int, cur.len() as int)
                                =~= kept_turns(cur.subrange(0, i - 1), p, now) + cur.subrange(i - 1, cur.len() as int));
                        },
                        None => {
                            assert(fresh_turns(pre, now) == fresh_turns(cur.subrange(0, i - 1), now).push(cur[i - 1]));
                            assert(fresh_turns(cur.subrange(0, i - 1), now).push(cur[i - 1]) + cur.subrange(i as int, cur.len() as int)
                                =~= fresh_turns(cur.subrange(0, i - 1), now) + cur.subrange(i - 1, cur.len() as int));
                        },
                    }
                }
            }
            i = i - 1;
        }
        proof {
            assert(self@.subrange(0, 0) =~= Seq::<TurnView>::empty());
            assert(self@.subrange(0, self@.len() as int) =~= self@);
        }
    }

    /// Looks up the entries of a revision of a process, as [`get_spec`] says.
    pub fn get(&mut self, process_id: u128, revision: &str, now_ms: u64) -> (r: Option<LogEntries>)
        requires
            cache_ok(old(self)@),
        ensures
            cache_ok(final(self)@),
            final(self)@ == get_spec(old(self)@, process_id, revision@, now_ms).0,
            match r {
                Some(e) => e.wf() && get_spec(old(self)@, process_id, revision@, now_ms).1 == Some(e@),
                None => get_spec(old(self)@, process_id, revision@, now_ms).1 is None,
            },
    {
        proof {
            lemma_get_ok(old(self)@, process_id, revision@, now_ms);
        }
        self.retain_turns(None, now_ms);
        let ghost f = self@;
        proof {
            lemma_fresh_sub(old(self)@, now_ms);
            lemma_filtered_ok(old(self)@, f);
        }
        let mut i: usize = 0;
        while i < self.turns.len()
            invariant
                f == self@,
                f == fresh_turns(old(self)@, now_ms),
                cache_ok(get_spec(old(self)@, process_id, revision@, now_ms).0),
                cache_ok(f),
                i <= self@.len(),
                forall|j: int| 0 <= j < i ==> !(#[trigger] f[j].process_id == process_id && f[j].revision == revision@),
            decreases self@.len() - i,
        {
            if self.turns[i].process_id == process_id && str_eq(self.turns[i].revision.as_str(), revision) {
                proof {
                    lemma_first_key(f, process_id, revision@, i as int);
                }
                let t = self.turns.remove(i);
                let e = copy_entries(&t.entries);
                self.turns.push(t);
                proof {
                    assert(self@ =~= f.remove(i as int).push(f[i as int]));
                }
                return Some(e);
            }
            i = i + 1;
        }
        None
    }

    /// Caches the entries of a revision of a process, as [`insert_spec`]
    /// says, stamped with `now_ms`.
    pub fn insert(&mut self, process_id: u128, revision: String, entries: LogEntries, bytes: usize, now_ms: u64)
        requires
            cache_ok(old(self)@),
            entries.wf(),
        ensures
            cache_ok(final(self)@),
            final(self)@ == insert_spec(
                old(self)@,
                TurnView { process_id, revision: revision@, entries: entries@, bytes, created_ms: now_ms },
                now_ms,
            ),
    {
        proof {
            lemma_kept_sub(old(self)@, process_id, now_ms);
            lemma_filtered_ok(old(self)@, kept_turns(old(self)@, process_id, now_ms));
        }
        self.retain_turns(Some(process_id), now_ms);
        let ghost k = self@;
        assert(cache_ok(k));
        if bytes > CACHE_BYTES {
            return;
        }
        proof {
            lemma_evicted(k, bytes as int);
        }
        loop
            invariant
                cache_ok(self@),
                bytes <= CACHE_BYTES,
                k == kept_turns(old(self)@, process_id, now_ms),
                entries.wf(),
                evicted(k, bytes as int) == evicted(self@, bytes as int),
                forall|i: int| 0 <= i < self@.len() ==> exists|j: int| 0 <= j < k.len() && #[trigger] self@[i] == k[j],
            ensures
                cache_ok(self@),
                k == kept_turns(old(self)@, process_id, now_ms),
                entries.wf(),
                evicted(k, bytes as int) == self@,
                self@.len() < CACHE_TURNS,
                total_bytes(self@) + bytes <= CACHE_BYTES,
            decreases self@.len(),
        {
            let mut total: usize = 0;
            let mut j: usize = 0;
            proof {
                lemma_total_nonneg(self@);
            }
            while j < self.turns.len()
                invariant
                    cache_ok(self@),
                    j <= self@.len(),
                    total == total_bytes(self@.subrange(0, j as int)),
                decreases self@.len() - j,
            {
                proof {
                    let t = self@.subrange(0, j + 1);
                    assert(t.drop_last() =~= self@.subrange(0, j as int));
                    lemma_total_nonneg(self@.subrange(0, j + 1));
                    lemma_prefix_total(self@, j + 1);
                }
                total = total + self.turns[j].bytes;
                j = j + 1;
            }
            proof {
                assert(self@.subrange(0, self@.len() as int) =~= self@);
            }
            if !(self.turns.len() > 0 && (self.turns.len() >= CACHE_TURNS || total + bytes > CACHE_BYTES)) {
                proof {
                    if self@.len() == 0 {
                        assert(total_bytes(self@) == 0);
                    }
                }
                break;
            }
            let ghost cur = self@;
            self.turns.remove(0);
            proof {
                assert(self@ =~= cur.drop_first());
                lemma_total_drop_first(cur);
                lemma_total_nonneg(cur.drop_first());
                assert forall|i: int| 0 <= i < self@.len() implies sorted_entries(#[trigger] self@[i].entries) by {
                    assert(self@[i] == cur[i + 1]);
                }
                assert forall|i: int| 0 <= i < self@.len() implies exists|j: int| 0 <= j < k.len() && #[trigger] self@[i] == k[j] by {
                    assert(self@[i] == cur[i + 1]);
                }
            }
        }
        let ghost e = self@;
        proof {
            lemma_total_nonneg(e);
        }
        self.turns.push(CachedTurn { process_id, revision, entries, bytes, created_ms: now_ms });
        proof {
            let t = TurnView { process_id, revision: revision@, entries: entries@, bytes, created_ms: now_ms };
            assert(self@ =~= e.push(t));
            assert(self@.drop_last() =~= e);
            assert forall|i: int| 0 <= i < self@.len() implies sorted_entries(#[trigger] self@[i].entries) by {
                if i < e.len() {
                    assert(self@[i] == e[i]);
                }
            }
        }
    }
}

proof fn lemma_prefix_total(s: Seq<TurnView>, j: int)
    requires
        0 <= j <= s.len(),
    ensures
        total_bytes(s.subrange(0, j)) <= total_bytes(s),
    decreases s.len() - j,
{
    if j < s.len() {
        lemma_prefix_total(s, j + 1);
        let t = s.subrange(0, j + 1);
        assert(t.drop_last() =~= s.subrange(0, j));
    } else {
        assert(s.subrange(0, j) =~= s);
    }
}

proof fn lemma_kept_fresh(s: Seq<TurnView>, process: u128, now: u64)
    ensures
        forall|i: int| 0 <= i < kept_turns(s, process, now).len() ==> fresh(#[trigger] kept_turns(s, process, now)[i].created_ms, now),
    decreases s.len(),
{
    if s.len() > 0 {
        lemma_kept_fresh(s.drop_last(), process, now);
        let r = kept_turns(s.drop_last(), process, now);
        let f = kept_turns(s, process, now);
        if s.last().process_id != process && fresh(s.last().created_ms, now) {
            assert forall|i: int| 0 <= i < f.len() implies fresh(#[trigger] f[i].created_ms, now) by {
                if i < r.len() {
                    assert(f[i] == r[i]);
                }
            }
        }
    }
}

proof fn lemma_evicted_suffix(s: Seq<TurnView>, bytes: int)
    ensures
        evicted(s, bytes).len() <= s.len(),
        evicted(s, bytes) == s.subrange(s.len() - evicted(s, bytes).len(), s.len() as int),
    decreases s.len(),
{
    if s.len() > 0 && (s.len() >= CACHE_TURNS || total_bytes(s) + bytes > CACHE_BYTES) {
        let t = s.drop_first();
        lemma_evicted_suffix(t, bytes);
        let e = evicted(t, bytes);
        assert(e =~= s.subrange(s.len() - e.len(), s.len() as int));
    } else {
        assert(s.subrange(0, s.len() as int) =~= s);
    }
}

/// What an insertion leaves, whatever was cached: no other turn of the same
/// process and no stale turn survives; a turn larger than the whole cache
/// is not kept; otherwise the new turn is the newest, at most the most
/// turns remain within the size bound, and the turns kept besides it are
/// the newest of the surviving ones (the oldest are evicted first).
pub proof fn lemma_insert_evicts_oldest(s: Seq<TurnView>, t: TurnView, now: u64)
    requires
        t.created_ms == now,
    ensures
        ({
            let r = insert_spec(s, t, now);
            let k = kept_turns(s, t.process_id, now);
            &&& forall|i: int|
                0 <= i < r.len() && (#[trigger] r[i]).process_id == t.process_id ==> t.bytes <= CACHE_BYTES && i
                    == r.len() - 1
            &&& forall|i: int| 0 <= i < r.len() ==> fresh(#[trigger] r[i].created_ms, now)
            &&& t.bytes > CACHE_BYTES ==> r == k
            &&& t.bytes <= CACHE_BYTES ==> {
                &&& r.len() > 0
                &&& r.last() == t
                &&& r.len() <= CACHE_TURNS
                &&& total_bytes(r) <= CACHE_BYTES
                &&& r.drop_last() == k.subrange(k.len() - (r.len() - 1), k.len() as int)
            }
        }),
{
    let k = kept_turns(s, t.process_id, now);
    lemma_kept_sub(s, t.process_id, now);
    lemma_kept_fresh(s, t.process_id, now);
    if t.bytes <= CACHE_BYTES {
        lemma_evicted(k, t.bytes as int);
        lemma_evicted_suffix(k, t.bytes as int);
        let e = evicted(k, t.bytes as int);
        let r = e.push(t);
        assert(r.drop_last() =~= e);
        assert forall|i: int| 0 <= i < r.len() implies fresh(#[trigger] r[i].created_ms, now) by {
            if i < e.len() {
                let j = choose|j: int| 0 <= j < k.len() && e[i] == k[j];
                assert(fresh(k[j].created_ms, now));
            }
        }
        assert forall|i: int| 0 <= i < r.len() && (#[trigger] r[i]).process_id == t.process_id implies i == r.len() - 1 by {
            if i < e.len() {
                let j = choose|j: int| 0 <= j < k.len() && e[i] == k[j];
                assert(k[j].process_id != t.process_id);
            }
        }
    }
}

/// A turn just cached is what a lookup of its process and revision at the
/// same moment returns, where it fits in the cache.
pub proof fn lemma_insert_then_get(s: Seq<TurnView>, t: TurnView, now: u64)
    requires
        cache_ok(s),
        t.bytes <= CACHE_BYTES,
        t.created_ms == now,
    ensures
        get_spec(insert_spec(s, t, now), t.process_id, t.revision, now).1 == Some(t.entries),
{
    let k = kept_turns(s, t.process_id, now);
    lemma_kept_sub(s, t.process_id, now);
    lemma_evicted(k, t.bytes as int);
    let e = evicted(k, t.bytes as int);
    let c = e.push(t);
    lemma_fresh_sub(c, now);
    let f = fresh_turns(c, now);
    lemma_fresh_of_kept(k, e, t, now);
    assert(f.last() == t);
    assert forall|j: int| 0 <= j < f.len() - 1 implies !(#[trigger] f[j].process_id == t.process_id && f[j].revision == t.revision) by {
        assert(f[j].process_id != t.process_id);
    }
    lemma_first_key(f, t.process_id, t.revision, f.len() - 1);
}

proof fn lemma_fresh_of_kept(k: Seq<TurnView>, e: Seq<TurnView>, t: TurnView, now: u64)
    requires
        forall|i: int| 0 <= i < k.len() ==> (#[trigger] k[i]).process_id != t.process_id,
        forall|i: int| 0 <= i < e.len() ==> exists|j: int| 0 <= j < k.len() && #[trigger] e[i] == k[j],
        t.created_ms == now,
    ensures
        fresh_turns(e.push(t), now).len() > 0,
        fresh_turns(e.push(t), now).last() == t,
        forall|i: int| 0 <= i < fresh_turns(e.push(t), now).len() - 1 ==> (#[trigger] fresh_turns(e.push(t), now)[i]).process_id != t.process_id,
{
    let c = e.push(t);
    assert(c.drop_last() =~= e);
    lemma_fresh_sub(e, now);
    let fe = fresh_turns(e, now);
    assert(fresh_turns(c, now) == fe.push(t));
    assert forall|i: int| 0 <= i < fe.len() implies (#[trigger] fe[i]).process_id != t.process_id by {
        let j = choose|j: int| 0 <= j < e.len() && fe[i] == e[j];
        let m = choose|m: int| 0 <= m < k.len() && e[j] == k[m];
    }
    assert forall|i: int| 0 <= i < fresh_turns(c, now).len() - 1 implies (#[trigger] fresh_turns(c, now)[i]).process_id != t.process_id by {
        assert(fresh_turns(c, now)[i] == fe[i]);
    }
}

/// Caching a new revision of a process drops the process's older revisions:
/// a lookup of another revision of it finds nothing.
pub proof fn lemma_new_revision_replaces(s: Seq<TurnView>, t: TurnView, now: u64, revision: Seq<char>)
    requires
        cache_ok(s),
        t.created_ms == now,
        revision != t.revision,
    ensures
        get_spec(insert_spec(s, t, now), t.process_id, revision, now).1 is None,
{
    let k = kept_turns(s, t.process_id, now);
    lemma_kept_sub(s, t.process_id, now);
    if t.bytes > CACHE_BYTES {
        lemma_fresh_sub(k, now);
        let f = fresh_turns(k, now);
        if key_position(f, t.process_id, revision) is Some {
            let i = choose|i: int| 0 <= i < f.len() && f[i].process_id == t.process_id && f[i].revision == revision;
            let j = choose|j: int| 0 <= j < k.len() && f[i] == k[j];
        }
    } else {
        lemma_evicted(k, t.bytes as int);
        let e = evicted(k, t.bytes as int);
        lemma_fresh_of_kept(k, e, t, now);
        let f = fresh_turns(e.push(t), now);
        if key_position(f, t.process_id, revision) is Some {
            let i = choose|i: int| 0 <= i < f.len() && f[i].process_id == t.process_id && f[i].revision == revision;
            if i < f.len() - 1 {
                assert(f[i].process_id != t.process_id);
            }
        }
    }
}

} // verus!
