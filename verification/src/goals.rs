//! VK progress guard around Codex's native, persisted goal engine. Codex owns
//! objectives, scheduling, usage accounting and goal status; this keeps only
//! supporting evidence and circuit breakers.
use vstd::prelude::*;
use crate::lease::byte_len;
use crate::json::{get_member, json_text, json_view, lemma_members_view, member, members_view, parse_json, Json, JsonView};
use crate::order::{is_named_order, lemma_named_order_covers, lemma_named_order_distinct, named_before, named_keys, named_lt, stable_named_order};
use crate::text::{
    decimal, lemma_seq_lt_irreflexive, lemma_seq_lt_transitive, seq_lt, u64_to_decimal, usize_to_decimal,
    has_suffix, is_ascii_alnum, is_blank, rsplit_once, rsplit_once_str, str_eq, strip_suffix_str, trim,
    trim_str,
};

verus! {

/// Name of the checkpoint tool offered to the model.
pub const TOOL: &'static str = "vk_goal_checkpoint";

/// A native goal as reported by the app server.
pub struct NativeGoal {
    pub thread_id: String,
    pub objective: String,
    pub status: String,
    pub created_at: i64,
}

/// One checklist entry: a requirement id and its description or evidence.
pub struct Entry {
    pub key: String,
    pub value: String,
}

/// Views of a list of entries as pairs.
pub open spec fn entry_views(es: Seq<Entry>) -> Seq<(Seq<char>, Seq<char>)> {
    es.map_values(|e: Entry| (e.key@, e.value@))
}

/// No key occurs twice.
pub open spec fn distinct_keys(es: Seq<(Seq<char>, Seq<char>)>) -> bool {
    forall|i: int, j: int| 0 <= i < es.len() && 0 <= j < es.len() && i != j ==> es[i].0 != es[j].0
}

/// Some entry has key `k`.
pub open spec fn has_key(es: Seq<(Seq<char>, Seq<char>)>, k: Seq<char>) -> bool {
    exists|i: int| 0 <= i < es.len() && es[i].0 == k
}

/// The map a list of distinct-key entries stands for.
pub open spec fn entry_map(es: Seq<(Seq<char>, Seq<char>)>) -> Map<Seq<char>, Seq<char>> {
    Map::new(
        |k: Seq<char>| has_key(es, k),
        |k: Seq<char>| es[choose|i: int| 0 <= i < es.len() && es[i].0 == k].1,
    )
}

/// Durable checklist and circuit breakers of one native goal.
pub struct Progress {
    pub objective: String,
    pub created_at: i64,
    pub requirements: Vec<Entry>,
    pub completed: Vec<Entry>,
    pub turns: u32,
    pub stagnant_turns: u32,
    pub last_completed_count: usize,
    pub last_turn: Option<String>,
    pub pause_reason: Option<String>,
}

pub open spec fn opt_view(o: Option<String>) -> Option<Seq<char>> {
    match o {
        Some(s) => Some(s@),
        None => None,
    }
}

pub struct ProgressView {
    pub objective: Seq<char>,
    pub created_at: i64,
    pub requirements: Seq<(Seq<char>, Seq<char>)>,
    pub completed: Seq<(Seq<char>, Seq<char>)>,
    pub turns: u32,
    pub stagnant_turns: u32,
    pub last_completed_count: usize,
    pub last_turn: Option<Seq<char>>,
    pub pause_reason: Option<Seq<char>>,
}

impl View for Progress {
    type V = ProgressView;

    open spec fn view(&self) -> ProgressView {
        ProgressView {
            objective: self.objective@,
            created_at: self.created_at,
            requirements: entry_views(self.requirements@),
            completed: entry_views(self.completed@),
            turns: self.turns,
            stagnant_turns: self.stagnant_turns,
            last_completed_count: self.last_completed_count,
            last_turn: opt_view(self.last_turn),
            pause_reason: opt_view(self.pause_reason),
        }
    }
}

impl ProgressView {
    /// Both checklists are maps: no requirement id occurs twice; and every
    /// piece of evidence is for a requirement of the checklist.
    pub open spec fn wf(self) -> bool {
        distinct_keys(self.requirements) && distinct_keys(self.completed) && evidence_within(
            self.requirements,
            self.completed,
        )
    }
}

/// Every entry of `completed` is for a requirement listed in `reqs`.
pub open spec fn evidence_within(reqs: Seq<(Seq<char>, Seq<char>)>, completed: Seq<(Seq<char>, Seq<char>)>) -> bool {
    forall|i: int| 0 <= i < completed.len() ==> has_key(reqs, #[trigger] completed[i].0)
}

/// Pause reason after six turns without a newly closed requirement.
pub open spec fn stagnation_reason() -> Seq<char> {
    "Six goal turns closed no requirement. Reassess the remaining objective before resuming."@
}

/// Pause reason once a run reaches fifty turns.
pub open spec fn turn_limit_reason() -> Seq<char> {
    "Fifty goal turns reached the run limit. Review progress before resuming."@
}

/// Progress after the native turn `turn` completed, and the pause reason it
/// reports. A repeated notification for the last turn changes nothing.
pub open spec fn finish_turn_spec(p: ProgressView, turn: Seq<char>) -> (ProgressView, Option<Seq<char>>) {
    if p.last_turn == Some(turn) {
        (p, p.pause_reason)
    } else {
        let turns = (p.turns + 1) as u32;
        let stagnant = if p.completed.len() > p.last_completed_count {
            0u32
        } else {
            (p.stagnant_turns + 1) as u32
        };
        let pause = if p.pause_reason is Some {
            p.pause_reason
        } else if stagnant >= 6 {
            Some(stagnation_reason())
        } else if turns >= 50 {
            Some(turn_limit_reason())
        } else {
            None
        };
        (
            ProgressView {
                last_turn: Some(turn),
                turns,
                stagnant_turns: stagnant,
                last_completed_count: p.completed.len() as usize,
                pause_reason: pause,
                ..p
            },
            pause,
        )
    }
}

/// Progress after the user resumes autonomy: counters reset, evidence kept.
pub open spec fn resume_spec(p: ProgressView) -> ProgressView {
    ProgressView {
        turns: 0,
        stagnant_turns: 0,
        pause_reason: None,
        last_completed_count: p.completed.len() as usize,
        ..p
    }
}

/// Every requirement of a non-empty checklist has evidence.
pub open spec fn all_complete_spec(p: ProgressView) -> bool {
    p.requirements.len() != 0 && p.requirements.len() == p.completed.len()
}

impl Progress {
    /// A fresh record for a goal.
    pub fn new(objective: String, created_at: i64) -> (r: Progress)
        ensures
            r@.objective == objective@,
            r@.created_at == created_at,
            r@.requirements.len() == 0,
            r@.completed.len() == 0,
            r@.turns == 0,
            r@.stagnant_turns == 0,
            r@.last_completed_count == 0,
            r@.last_turn is None,
            r@.pause_reason is None,
            r@.wf(),
    {
        Progress {
            objective,
            created_at,
            requirements: Vec::new(),
            completed: Vec::new(),
            turns: 0,
            stagnant_turns: 0,
            last_completed_count: 0,
            last_turn: None,
            pause_reason: None,
        }
    }

    /// Records the end of a native turn and returns why autonomy must pause,
    /// if it must.
    pub fn finish_turn(&mut self, turn_id: &str) -> (r: Option<String>)
        requires
            old(self)@.last_turn != Some(turn_id@) ==> old(self)@.turns < u32::MAX,
            old(self)@.last_turn != Some(turn_id@) ==> old(self)@.stagnant_turns < u32::MAX,
        ensures
            final(self)@ == finish_turn_spec(old(self)@, turn_id@).0,
            opt_view(r) == finish_turn_spec(old(self)@, turn_id@).1,
    {
        let repeated = match &self.last_turn {
            Some(t) => str_eq(t.as_str(), turn_id),
            None => false,
        };
        if repeated {
            return match &self.pause_reason {
                Some(r) => Some(r.clone()),
                None => None,
            };
        }
        self.last_turn = Some(String::from_str(turn_id));
        self.turns = self.turns + 1;
        if self.completed.len() > self.last_completed_count {
            self.stagnant_turns = 0;
        } else {
            self.stagnant_turns = self.stagnant_turns + 1;
        }
        self.last_completed_count = self.completed.len();
        if self.pause_reason.is_none() {
            self.pause_reason = if self.stagnant_turns >= 6 {
                Some(
                    String::from_str(
                        "Six goal turns closed no requirement. Reassess the remaining objective before resuming.",
                    ),
                )
            } else if self.turns >= 50 {
                Some(
                    String::from_str(
                        "Fifty goal turns reached the run limit. Review progress before resuming.",
                    ),
                )
            } else {
                None
            };
        }
        match &self.pause_reason {
            Some(r) => Some(r.clone()),
            None => None,
        }
    }

    /// Resets the run counters when the user resumes the goal.
    pub fn resume(&mut self)
        ensures
            final(self)@ == resume_spec(old(self)@),
    {
        self.turns = 0;
        self.stagnant_turns = 0;
        self.pause_reason = None;
        self.last_completed_count = self.completed.len();
    }

    /// Every requirement of a non-empty checklist has evidence.
    pub fn all_complete(&self) -> (r: bool)
        ensures
            r == all_complete_spec(self@),
    {
        !self.requirements.is_empty() && self.requirements.len() == self.completed.len()
    }

    /// Advice returned with every checkpoint.
    pub fn guidance(&self) -> (r: &'static str)
        ensures
            self@.stagnant_turns >= 3 ==> r@ == stagnant_guidance(),
            self@.stagnant_turns < 3 ==> r@ == steady_guidance(),
    {
        if self.stagnant_turns >= 3 {
            "Reassess the FULL objective. Stop revisiting completed work. Choose a different action closing a remaining requirement; request user input if none exists."
        } else {
            "Close remaining requirements with evidence; stop at sufficient completion."
        }
    }
}

pub open spec fn stagnant_guidance() -> Seq<char> {
    "Reassess the FULL objective. Stop revisiting completed work. Choose a different action closing a remaining requirement; request user input if none exists."@
}

pub open spec fn steady_guidance() -> Seq<char> {
    "Close remaining requirements with evidence; stop at sufficient completion."@
}


/// A checkpoint the model submits through the tool.
pub struct Checkpoint {
    pub requirements: Vec<Entry>,
    pub completed: Vec<Entry>,
    pub disposition: String,
    pub reason: String,
}

pub struct CheckpointView {
    pub requirements: Seq<(Seq<char>, Seq<char>)>,
    pub completed: Seq<(Seq<char>, Seq<char>)>,
    pub disposition: Seq<char>,
    pub reason: Seq<char>,
}

impl View for Checkpoint {
    type V = CheckpointView;

    open spec fn view(&self) -> CheckpointView {
        CheckpointView {
            requirements: entry_views(self.requirements@),
            completed: entry_views(self.completed@),
            disposition: self.disposition@,
            reason: self.reason@,
        }
    }
}

/// Why a checkpoint was refused; the progress is then left unchanged.
#[derive(Clone, Copy, Debug, PartialEq, Eq)]
pub enum CheckpointError {
    BadDisposition,
    MissingReason,
    TooManyRequirements,
    BadEntry,
    ScopeFixed,
    UnknownRequirement,
}

impl CheckpointError {
    /// The message the model is answered with.
    pub fn message(&self) -> (r: &'static str)
        ensures
            r@ == match *self {
                CheckpointError::BadDisposition => "disposition must be continue or needs_input"@,
                CheckpointError::MissingReason => "Explain the substantive reason user involvement is needed"@,
                CheckpointError::TooManyRequirements => "Use at most 100 material requirements"@,
                CheckpointError::BadEntry => "IDs must be 1\u{2013}100 bytes and descriptions/evidence 1\u{2013}4000 bytes"@,
                CheckpointError::ScopeFixed => "The checklist is fixed. Read it using empty maps; do not redefine scope"@,
                CheckpointError::UnknownRequirement => "Completion must reference an existing requirement ID"@,
            },
    {
        match self {
            CheckpointError::BadDisposition => "disposition must be continue or needs_input",
            CheckpointError::MissingReason => "Explain the substantive reason user involvement is needed",
            CheckpointError::TooManyRequirements => "Use at most 100 material requirements",
            CheckpointError::BadEntry => "IDs must be 1\u{2013}100 bytes and descriptions/evidence 1\u{2013}4000 bytes",
            CheckpointError::ScopeFixed => "The checklist is fixed. Read it using empty maps; do not redefine scope",
            CheckpointError::UnknownRequirement => "Completion must reference an existing requirement ID",
        }
    }
}

/// An entry id or text is blank or too long.
pub open spec fn bad_entry(e: (Seq<char>, Seq<char>)) -> bool {
    trim(e.0).len() == 0 || byte_len(e.0) > 100 || trim(e.1).len() == 0 || byte_len(e.1) > 4000
}

/// Entries in `a` all occur with the same text in `b`.
pub open spec fn entries_within(
    a: Seq<(Seq<char>, Seq<char>)>,
    b: Seq<(Seq<char>, Seq<char>)>,
) -> bool {
    forall|i: int| 0 <= i < a.len() ==> occurs(b, #[trigger] a[i])
}

/// `e` is one of the entries of `b`.
pub open spec fn occurs(b: Seq<(Seq<char>, Seq<char>)>, e: (Seq<char>, Seq<char>)) -> bool {
    exists|j: int| 0 <= j < b.len() && b[j] == e
}

/// Same entries, as maps.
pub open spec fn same_entries(a: Seq<(Seq<char>, Seq<char>)>, b: Seq<(Seq<char>, Seq<char>)>) -> bool {
    entries_within(a, b) && entries_within(b, a)
}

/// Completed evidence after merging `new`: existing evidence is never
/// rewritten, new ids are added after it in order.
pub open spec fn merged_evidence(
    old: Seq<(Seq<char>, Seq<char>)>,
    new: Seq<(Seq<char>, Seq<char>)>,
) -> Seq<(Seq<char>, Seq<char>)>
    decreases new.len(),
{
    if new.len() == 0 {
        old
    } else {
        let rest = merged_evidence(old, new.drop_last());
        if has_key(rest, new.last().0) {
            rest
        } else {
            rest.push(new.last())
        }
    }
}

/// The first `n` characters of `s`.
pub open spec fn take_chars(s: Seq<char>, n: nat) -> Seq<char> {
    if s.len() <= n {
        s
    } else {
        s.subrange(0, n as int)
    }
}

/// Outcome of a checkpoint against progress `p`.
pub open spec fn checkpoint_spec(p: ProgressView, c: CheckpointView) -> Result<
    ProgressView,
    CheckpointError,
> {
    let needs_input = c.disposition == "needs_input"@;
    if c.disposition != "continue"@ && !needs_input {
        Err(CheckpointError::BadDisposition)
    } else if needs_input && trim(c.reason).len() == 0 {
        Err(CheckpointError::MissingReason)
    } else if c.requirements.len() > 100 || c.completed.len() > 100 {
        Err(CheckpointError::TooManyRequirements)
    } else if (exists|i: int| 0 <= i < c.requirements.len() && bad_entry(c.requirements[i])) || (
    exists|i: int| 0 <= i < c.completed.len() && bad_entry(c.completed[i])) {
        Err(CheckpointError::BadEntry)
    } else if p.requirements.len() != 0 && c.requirements.len() != 0 && !same_entries(
        c.requirements,
        p.requirements,
    ) {
        Err(CheckpointError::ScopeFixed)
    } else {
        let reqs = if p.requirements.len() == 0 {
            c.requirements
        } else {
            p.requirements
        };
        if exists|i: int| 0 <= i < c.completed.len() && !has_key(reqs, c.completed[i].0) {
            Err(CheckpointError::UnknownRequirement)
        } else {
            Ok(
                ProgressView {
                    requirements: reqs,
                    completed: merged_evidence(p.completed, c.completed),
                    pause_reason: if needs_input {
                        Some(take_chars(c.reason, 4000))
                    } else {
                        p.pause_reason
                    },
                    ..p
                },
            )
        }
    }
}

fn copy_entry(e: &Entry) -> (r: Entry)
    ensures
        r.key@ == e.key@,
        r.value@ == e.value@,
{
    Entry { key: e.key.clone(), value: e.value.clone() }
}

/// Whether some entry has key `k`.
fn find_key(es: &Vec<Entry>, k: &str) -> (r: bool)
    ensures
        r == has_key(entry_views(es@), k@),
{
    let mut i: usize = 0;
    while i < es.len()
        invariant
            i <= es.len(),
            forall|j: int| 0 <= j < i ==> entry_views(es@)[j].0 != k@,
        decreases es.len() - i,
    {
        if str_eq(es[i].key.as_str(), k) {
            assert(entry_views(es@)[i as int].0 == k@);
            return true;
        }
        i = i + 1;
    }
    false
}

/// Whether `es` has an entry equal to `(k, v)`.
fn find_entry(es: &Vec<Entry>, k: &str, v: &str) -> (r: bool)
    ensures
        r == occurs(entry_views(es@), (k@, v@)),
{
    let mut i: usize = 0;
    while i < es.len()
        invariant
            i <= es.len(),
            forall|j: int| 0 <= j < i ==> entry_views(es@)[j] != (k@, v@),
        decreases es.len() - i,
    {
        if str_eq(es[i].key.as_str(), k) && str_eq(es[i].value.as_str(), v) {
            assert(entry_views(es@)[i as int] == (k@, v@));
            return true;
        }
        i = i + 1;
    }
    false
}

/// Whether every entry of `a` occurs in `b`.
fn all_within(a: &Vec<Entry>, b: &Vec<Entry>) -> (r: bool)
    ensures
        r == entries_within(entry_views(a@), entry_views(b@)),
{
    let mut i: usize = 0;
    while i < a.len()
        invariant
            i <= a.len(),
            forall|t: int| 0 <= t < i ==> occurs(entry_views(b@), #[trigger] entry_views(a@)[t]),
        decreases a.len() - i,
    {
        if !find_entry(b, a[i].key.as_str(), a[i].value.as_str()) {
            assert(entry_views(a@)[i as int] == (a@[i as int].key@, a@[i as int].value@));
            return false;
        }
        i = i + 1;
    }
    true
}

/// Index of the first blank or oversized entry, if any.
fn first_bad_entry(es: &Vec<Entry>) -> (r: bool)
    ensures
        r == exists|i: int| 0 <= i < es.len() && bad_entry(entry_views(es@)[i]),
{
    let mut i: usize = 0;
    while i < es.len()
        invariant
            i <= es.len(),
            forall|j: int| 0 <= j < i ==> !bad_entry(entry_views(es@)[j]),
        decreases es.len() - i,
    {
        let e = &es[i];
        if is_blank(e.key.as_str()) || e.key.as_str().len() > 100 || is_blank(e.value.as_str())
            || e.value.as_str().len() > 4000 {
            assert(bad_entry(entry_views(es@)[i as int]));
            return true;
        }
        i = i + 1;
    }
    false
}

/// The first `n` characters of `s` (`s.chars().take(n).collect()`).
fn take_chars_str(s: &str, n: usize) -> (r: String)
    ensures
        r@ == take_chars(s@, n as nat),
{
    let len = s.unicode_len();
    if len <= n {
        String::from_str(s)
    } else {
        String::from_str(s.substring_char(0, n))
    }
}

impl Progress {
    /// Reads or updates the checklist. Requirements are fixed once defined,
    /// evidence is monotonic, and `needs_input` pauses autonomy. A refused
    /// checkpoint changes nothing.
    #[verifier::loop_isolation(false)]
    pub fn checkpoint(&mut self, request: Checkpoint) -> (r: Result<(), CheckpointError>)
        requires
            old(self)@.wf(),
            distinct_keys(request@.requirements),
            distinct_keys(request@.completed),
        ensures
            match checkpoint_spec(old(self)@, request@) {
                Ok(p) => r is Ok && final(self)@ == p,
                Err(e) => r == Err::<(), CheckpointError>(e) && final(self)@ == old(self)@,
            },
            final(self)@.wf(),
    {
        let ghost c = request@;
        let needs_input = str_eq(request.disposition.as_str(), "needs_input");
        let cont = str_eq(request.disposition.as_str(), "continue");
        if !cont && !needs_input {
            return Err(CheckpointError::BadDisposition);
        }
        if needs_input && is_blank(request.reason.as_str()) {
            return Err(CheckpointError::MissingReason);
        }
        if request.requirements.len() > 100 || request.completed.len() > 100 {
            return Err(CheckpointError::TooManyRequirements);
        }
        if first_bad_entry(&request.requirements) || first_bad_entry(&request.completed) {
            return Err(CheckpointError::BadEntry);
        }
        if !self.requirements.is_empty() && !request.requirements.is_empty() && !(all_within(
            &request.requirements,
            &self.requirements,
        ) && all_within(&self.requirements, &request.requirements)) {
            return Err(CheckpointError::ScopeFixed);
        }
        let use_request = self.requirements.is_empty();
        let mut i: usize = 0;
        while i < request.completed.len()
            invariant
                i <= request.completed.len(),
                c == request@,
                use_request == (self@.requirements.len() == 0),
                forall|j: int|
                    0 <= j < i ==> has_key(
                        if use_request {
                            c.requirements
                        } else {
                            self@.requirements
                        },
                        c.completed[j].0,
                    ),
            decreases request.completed.len() - i,
        {
            let key = request.completed[i].key.as_str();
            let known = if use_request {
                find_key(&request.requirements, key)
            } else {
                find_key(&self.requirements, key)
            };
            if !known {
                assert(c.completed[i as int].0 == key@);
                return Err(CheckpointError::UnknownRequirement);
            }
            i = i + 1;
        }
        let Checkpoint { requirements, completed, disposition: _, reason } = request;
        if use_request {
            self.requirements = requirements;
        }
        let mut k: usize = 0;
        let ghost base = self@.completed;
        let ghost reqs = self@.requirements;
        assert(reqs == if old(self)@.requirements.len() == 0 { c.requirements } else { old(self)@.requirements });
        assert(base == old(self)@.completed);
        while k < completed.len()
            invariant
                k <= completed.len(),
                self@ == (ProgressView { completed: self@.completed, requirements: reqs, ..old(self)@ }),
                distinct_keys(reqs),
                entry_views(completed@) == c.completed,
                self@.completed == merged_evidence(base, c.completed.subrange(0, k as int)),
                distinct_keys(self@.completed),
            decreases completed.len() - k,
        {
            let ghost before = self@.completed;
            let present = find_key(&self.completed, completed[k].key.as_str());
            if !present {
                self.completed.push(copy_entry(&completed[k]));
                proof {
                    assert(entry_views(self.completed@) =~= before.push(c.completed[k as int]));
                    assert forall|a: int, b: int|
                        0 <= a < self@.completed.len() && 0 <= b < self@.completed.len() && a
                            != b implies self@.completed[a].0 != self@.completed[b].0 by {
                        if a == before.len() as int {
                            assert(!has_key(before, c.completed[k as int].0));
                        } else if b == before.len() as int {
                            assert(!has_key(before, c.completed[k as int].0));
                        }
                    }
                }
            }
            proof {
                let s1 = c.completed.subrange(0, k + 1);
                assert(s1.drop_last() =~= c.completed.subrange(0, k as int));
                assert(s1.last() == c.completed[k as int]);
            }
            k = k + 1;
        }
        proof {
            assert(c.completed.subrange(0, completed.len() as int) =~= c.completed);
        }
        if needs_input {
            self.pause_reason = Some(take_chars_str(reason.as_str(), 4000));
        }
        proof {
            let reqs = if old(self)@.requirements.len() == 0 { c.requirements } else { old(self)@.requirements };
            assert(self@.requirements == reqs);
            assert(self@.completed == merged_evidence(old(self)@.completed, c.completed));
            assert(!(exists|i: int| 0 <= i < c.completed.len() && !has_key(reqs, c.completed[i].0)));
            assert(checkpoint_spec(old(self)@, c) is Ok);
            lemma_evidence_names_requirements(old(self)@, c);
        }
        Ok(())
    }
}



/// What is said when the thread has no native goal.
pub const NO_GOAL_DESCRIPTION: &'static str = "No goal is set. Use /goal followed by the requested outcome.";

/// Keys strictly increase along `l`.
pub open spec fn keys_ascending(l: Seq<(Seq<char>, Seq<char>)>) -> bool {
    forall|a: int, b: int| 0 <= a < b < l.len() ==> seq_lt(#[trigger] l[a].0, #[trigger] l[b].0)
}

/// `l` lists the entries of `es`, each once, in key order.
pub open spec fn key_listing(es: Seq<(Seq<char>, Seq<char>)>, l: Seq<(Seq<char>, Seq<char>)>) -> bool {
    &&& l.len() == es.len()
    &&& same_entries(l, es)
    &&& keys_ascending(l)
}

proof fn lemma_listing_prefix(
    es: Seq<(Seq<char>, Seq<char>)>,
    l1: Seq<(Seq<char>, Seq<char>)>,
    l2: Seq<(Seq<char>, Seq<char>)>,
    i: int,
)
    requires
        key_listing(es, l1),
        key_listing(es, l2),
        0 <= i <= l1.len(),
    ensures
        forall|k: int| 0 <= k < i ==> l1[k] == l2[k],
    decreases i,
{
    if i > 0 {
        let m = i - 1;
        lemma_listing_prefix(es, l1, l2, m);
        // l1[m] sits in l2 at some index j, and l2[m] in l1 at some index j2.
        assert(occurs(es, l1[m]));
        let e = choose|x: int| 0 <= x < es.len() && es[x] == l1[m];
        assert(occurs(l2, es[e]));
        let j = choose|x: int| 0 <= x < l2.len() && l2[x] == l1[m];
        assert(occurs(es, l2[m]));
        let e2 = choose|x: int| 0 <= x < es.len() && es[x] == l2[m];
        assert(occurs(l1, es[e2]));
        let j2 = choose|x: int| 0 <= x < l1.len() && l1[x] == l2[m];
        if j < m {
            assert(l2[j] == l1[j]);
            assert(seq_lt(l1[j].0, l1[m].0));
            lemma_seq_lt_irreflexive(l1[m].0);
        }
        if j2 < m {
            assert(l1[j2] == l2[j2]);
            assert(seq_lt(l2[j2].0, l2[m].0));
            lemma_seq_lt_irreflexive(l2[m].0);
        }
        if j != m && j2 != m {
            assert(seq_lt(l2[m].0, l2[j].0));
            assert(seq_lt(l1[m].0, l1[j2].0));
            lemma_seq_lt_transitive(l1[m].0, l2[m].0, l1[m].0);
            lemma_seq_lt_irreflexive(l1[m].0);
        }
    }
}

/// There is at most one key-ordered listing of a checklist, so the text
/// [`describe`] gives is determined by its arguments.
pub proof fn lemma_key_listing_unique(
    es: Seq<(Seq<char>, Seq<char>)>,
    l1: Seq<(Seq<char>, Seq<char>)>,
    l2: Seq<(Seq<char>, Seq<char>)>,
)
    requires
        key_listing(es, l1),
        key_listing(es, l2),
    ensures
        l1 == l2,
{
    lemma_listing_prefix(es, l1, l2, l1.len() as int);
    assert(l1 =~= l2);
}

/// One checklist line: the requirement, ticked where it has evidence.
pub open spec fn requirement_line(e: (Seq<char>, Seq<char>), completed: Seq<(Seq<char>, Seq<char>)>) -> Seq<char> {
    "\n- ["@ + (if has_key(completed, e.0) {
        "x"@
    } else {
        " "@
    }) + "] "@ + e.1
}

/// The checklist lines of `l`, in order.
pub open spec fn requirement_lines(l: Seq<(Seq<char>, Seq<char>)>, completed: Seq<(Seq<char>, Seq<char>)>) -> Seq<char>
    decreases l.len(),
{
    if l.len() == 0 {
        Seq::empty()
    } else {
        requirement_lines(l.drop_last(), completed) + requirement_line(l.last(), completed)
    }
}

/// Token usage, with the budget where one is reported.
pub open spec fn usage_text(tokens_used: Option<u64>, token_budget: Option<u64>) -> Seq<char> {
    match tokens_used {
        None => Seq::empty(),
        Some(t) => "\n\n**Tokens used:** "@ + decimal(t as nat) + match token_budget {
            Some(b) => " of "@ + decimal(b as nat),
            None => Seq::empty(),
        },
    }
}

/// Everything before the checklist lines.
pub open spec fn describe_head(
    objective: Seq<char>,
    status: Seq<char>,
    tokens_used: Option<u64>,
    token_budget: Option<u64>,
    p: ProgressView,
) -> Seq<char> {
    "**Goal:** "@ + objective + "\n\n**Status:** "@ + status + "\n\n**Requirements verified:** "@ + decimal(
        p.completed.len(),
    ) + " of "@ + decimal(p.requirements.len()) + usage_text(tokens_used, token_budget) + match p.pause_reason {
        Some(r) => "\n\n"@ + r,
        None => Seq::empty(),
    }
}

/// The description of a goal whose checklist is listed as `listing`.
pub open spec fn describe_text(
    objective: Seq<char>,
    status: Seq<char>,
    tokens_used: Option<u64>,
    token_budget: Option<u64>,
    p: ProgressView,
    listing: Seq<(Seq<char>, Seq<char>)>,
) -> Seq<char> {
    describe_head(objective, status, tokens_used, token_budget, p) + requirement_lines(listing, p.completed)
}

/// Describes a native goal (objective and status as the app server reports
/// them) with its checklist in key order.
pub fn describe(
    objective: &str,
    status: &str,
    tokens_used: Option<u64>,
    token_budget: Option<u64>,
    progress: &Progress,
) -> (r: String)
    requires
        progress@.wf(),
    ensures
        exists|l: Seq<(Seq<char>, Seq<char>)>|
            key_listing(progress@.requirements, l) && r@ == describe_text(
                objective@,
                status@,
                tokens_used,
                token_budget,
                progress@,
                l,
            ),
{
    let ghost p = progress@;
    let done = usize_to_decimal(progress.completed.len());
    let total = usize_to_decimal(progress.requirements.len());
    let mut out = "**Goal:** ".to_string().concat(objective).concat("\n\n**Status:** ").concat(status).concat(
        "\n\n**Requirements verified:** ",
    ).concat(done.as_str()).concat(" of ").concat(total.as_str());
    match tokens_used {
        Some(t) => {
            let ts = u64_to_decimal(t);
            out = out.concat("\n\n**Tokens used:** ").concat(ts.as_str());
            match token_budget {
                Some(b) => {
                    let bs = u64_to_decimal(b);
                    out = out.concat(" of ").concat(bs.as_str());
                },
                None => {},
            }
        },
        None => {},
    }
    match &progress.pause_reason {
        Some(reason) => {
            out = out.concat("\n\n").concat(reason.as_str());
        },
        None => {},
    }
    proof {
        assert(out@ =~= describe_head(objective@, status@, tokens_used, token_budget, p));
    }
    let ghost head = out@;
    let n = progress.requirements.len();
    let mut keys: Vec<(i128, String, u128)> = Vec::new();
    let mut i: usize = 0;
    while i < n
        invariant
            n == progress.requirements@.len(),
            p == progress@,
            i <= n,
            keys@.len() == i,
            forall|k: int| 0 <= k < i ==> #[trigger] named_keys(keys@)[k] == (0i128, p.requirements[k].0, 0u128),
        decreases n - i,
    {
        let ghost before = keys@;
        keys.push((0, progress.requirements[i].key.clone(), 0));
        proof {
            assert forall|k: int| 0 <= k < i + 1 implies #[trigger] named_keys(keys@)[k] == (
                0i128,
                p.requirements[k].0,
                0u128,
            ) by {
                if k < i {
                    assert(keys@[k] == before[k]);
                    assert(named_keys(before)[k] == (0i128, p.requirements[k].0, 0u128));
                }
            }
        }
        i = i + 1;
    }
    let order = stable_named_order(&keys);
    let ghost kv = named_keys(keys@);
    let ghost listing = Seq::new(n as nat, |k: int| p.requirements[order@[k] as int]);
    proof {
        assert forall|a: int, b: int| 0 <= a < b < listing.len() implies seq_lt(
            #[trigger] listing[a].0,
            #[trigger] listing[b].0,
        ) by {
            assert(named_before(kv, order@[a] as int, order@[b] as int));
            lemma_named_order_distinct(kv, order@, a, b);
            if !named_lt(kv[order@[a] as int], kv[order@[b] as int]) {
                assert(p.requirements[order@[a] as int].0 == p.requirements[order@[b] as int].0);
            }
        }
        assert forall|a: int| 0 <= a < listing.len() implies occurs(p.requirements, #[trigger] listing[a]) by {
            assert(p.requirements[order@[a] as int] == listing[a]);
        }
        assert forall|q: int| 0 <= q < p.requirements.len() implies occurs(listing, #[trigger] p.requirements[q]) by {
            lemma_named_order_covers(kv, order@, q);
            let k = choose|k: int| 0 <= k < order@.len() && order@[k] == q;
            assert(listing[k] == p.requirements[q]);
        }
        assert(key_listing(p.requirements, listing));
    }
    let mut k: usize = 0;
    while k < n
        invariant
            n == progress.requirements@.len(),
            p == progress@,
            order@.len() == n,
            forall|x: int| 0 <= x < n ==> #[trigger] order@[x] < n,
            listing == Seq::new(n as nat, |x: int| p.requirements[order@[x] as int]),
            k <= n,
            out@ == head + requirement_lines(listing.subrange(0, k as int), p.completed),
        decreases n - k,
    {
        let e = &progress.requirements[order[k]];
        let ticked = find_key(&progress.completed, e.key.as_str());
        let mark = if ticked {
            "x"
        } else {
            " "
        };
        out = out.concat("\n- [").concat(mark).concat("] ").concat(e.value.as_str());
        proof {
            let pre = listing.subrange(0, k as int);
            let next = listing.subrange(0, k + 1);
            assert(next.drop_last() =~= pre);
            assert(next.last() == p.requirements[order@[k as int] as int]);
            assert(p.requirements[order@[k as int] as int] == (e.key@, e.value@));
            assert(out@ =~= head + requirement_lines(next, p.completed));
        }
        k = k + 1;
    }
    proof {
        assert(listing.subrange(0, n as int) =~= listing);
    }
    out
}

/// The checkpoint an assistant message carries, read as JSON: the payload
/// [`checkpoint_payload`] cuts out, where `serde_json` parses it.
pub fn checkpoint_from_message(text: &str) -> (r: Option<Json>)
    ensures
        match checkpoint_payload_spec(text@) {
            None => r is None,
            Some(p) => match json_text(p) {
                Some(v) => r matches Some(j) && json_view(j) == v,
                None => r is None,
            },
        },
{
    match checkpoint_payload(text) {
        None => None,
        Some(payload) => parse_json(payload),
    }
}

/// The fields a checkpoint call's arguments may have.
pub open spec fn checkpoint_field(k: Seq<char>) -> bool {
    k == "requirements"@ || k == "completed"@ || k == "disposition"@ || k == "reason"@
}

/// The members of a JSON object as pairs of texts, where every value is a
/// string.
pub open spec fn string_pairs(ms: Seq<(Seq<char>, JsonView)>) -> Option<Seq<(Seq<char>, Seq<char>)>>
    decreases ms.len(),
{
    if ms.len() == 0 {
        Some(Seq::empty())
    } else {
        match (string_pairs(ms.drop_last()), ms.last().1) {
            (Some(rest), JsonView::Str(t)) => Some(rest.push((ms.last().0, t))),
            _ => None,
        }
    }
}

/// A map of texts read from a JSON value: an object whose values are all
/// strings, each key kept once (its first member).
pub open spec fn text_map_of(v: Option<JsonView>) -> Option<Seq<(Seq<char>, Seq<char>)>> {
    match v {
        Some(JsonView::Object(ms)) => match string_pairs(ms) {
            Some(ps) => Some(merged_evidence(Seq::empty(), ps)),
            None => None,
        },
        _ => None,
    }
}

/// The checkpoint a call's four fields make, where each has its type.
pub open spec fn checkpoint_of_fields(
    requirements: Option<JsonView>,
    completed: Option<JsonView>,
    disposition: Option<JsonView>,
    reason: Option<JsonView>,
) -> Option<CheckpointView> {
    match (text_map_of(requirements), text_map_of(completed), disposition, reason) {
        (Some(r), Some(c), Some(JsonView::Str(d)), Some(JsonView::Str(e))) => Some(
            CheckpointView { requirements: r, completed: c, disposition: d, reason: e },
        ),
        _ => None,
    }
}

/// What `serde_json::from_value` makes of a checkpoint call's arguments:
/// an object with exactly the fields `requirements` and `completed` (maps
/// of texts), `disposition` and `reason` (texts), and no other; or an array
/// of those four values in that order. `None` for anything else.
pub open spec fn checkpoint_of_json(v: JsonView) -> Option<CheckpointView> {
    match v {
        JsonView::Object(ms) => if forall|i: int| 0 <= i < ms.len() ==> checkpoint_field(#[trigger] ms[i].0) {
            checkpoint_of_fields(
                member(v, "requirements"@),
                member(v, "completed"@),
                member(v, "disposition"@),
                member(v, "reason"@),
            )
        } else {
            None
        },
        JsonView::Array(xs) => if xs.len() == 4 {
            checkpoint_of_fields(Some(xs[0]), Some(xs[1]), Some(xs[2]), Some(xs[3]))
        } else {
            None
        },
        _ => None,
    }
}

proof fn lemma_merged_distinct(old: Seq<(Seq<char>, Seq<char>)>, new: Seq<(Seq<char>, Seq<char>)>)
    requires
        distinct_keys(old),
    ensures
        distinct_keys(merged_evidence(old, new)),
    decreases new.len(),
{
    if new.len() > 0 {
        lemma_merged_distinct(old, new.drop_last());
        let rest = merged_evidence(old, new.drop_last());
        if !has_key(rest, new.last().0) {
            let m = rest.push(new.last());
            assert forall|a: int, b: int| 0 <= a < m.len() && 0 <= b < m.len() && a != b implies m[a].0 != m[b].0 by {
                if a == rest.len() && b < rest.len() {
                    assert(m[b] == rest[b]);
                } else if b == rest.len() && a < rest.len() {
                    assert(m[a] == rest[a]);
                } else {
                    assert(m[a] == rest[a] && m[b] == rest[b]);
                }
            }
        }
    }
}

/// Checkpoint evidence is merged as a map union that never rewrites: with
/// distinct keys on both sides, an entry is in the merge exactly when it
/// was recorded before, or it is new and its id had no evidence yet; and
/// the merge keeps each id once.
pub proof fn lemma_merged_is_union(old: Seq<(Seq<char>, Seq<char>)>, new: Seq<(Seq<char>, Seq<char>)>)
    requires
        distinct_keys(old),
        distinct_keys(new),
    ensures
        distinct_keys(merged_evidence(old, new)),
        forall|e: (Seq<char>, Seq<char>)|
            occurs(merged_evidence(old, new), e) <==> (occurs(old, e) || (occurs(new, e) && !has_key(old, e.0))),
    decreases new.len(),
{
    lemma_merged_distinct(old, new);
    if new.len() > 0 {
        let front = new.drop_last();
        assert forall|a: int, b: int| 0 <= a < front.len() && 0 <= b < front.len() && a != b implies front[a].0
            != front[b].0 by {
            assert(front[a] == new[a] && front[b] == new[b]);
        }
        lemma_merged_is_union(old, front);
        let rest = merged_evidence(old, front);
        let last = new.last();
        assert forall|e: (Seq<char>, Seq<char>)| occurs(new, e) <==> (occurs(front, e) || e == last) by {
            if occurs(new, e) {
                let j = choose|j: int| 0 <= j < new.len() && new[j] == e;
                if j < new.len() - 1 {
                    assert(front[j] == e);
                }
            }
            if occurs(front, e) {
                let j = choose|j: int| 0 <= j < front.len() && front[j] == e;
                assert(new[j] == e);
            }
            if e == last {
                assert(new[new.len() - 1] == e);
            }
        }
        // The last id does not occur earlier among the new entries.
        assert(!has_key(front, last.0)) by {
            if has_key(front, last.0) {
                let j = choose|j: int| 0 <= j < front.len() && front[j].0 == last.0;
                assert(new[j].0 == new[new.len() - 1].0);
            }
        }
        assert(has_key(rest, last.0) <==> has_key(old, last.0)) by {
            if has_key(rest, last.0) {
                let j = choose|j: int| 0 <= j < rest.len() && rest[j].0 == last.0;
                let e = rest[j];
                assert(occurs(rest, e));
                if !occurs(old, e) {
                    assert(occurs(front, e));
                    let k = choose|k: int| 0 <= k < front.len() && front[k] == e;
                    assert(front[k].0 == last.0);
                }
                let k = choose|k: int| 0 <= k < old.len() && old[k] == e;
                assert(old[k].0 == last.0);
            }
            if has_key(old, last.0) {
                let k = choose|k: int| 0 <= k < old.len() && old[k].0 == last.0;
                assert(occurs(old, old[k]));
                assert(occurs(rest, old[k]));
                let j = choose|j: int| 0 <= j < rest.len() && rest[j] == old[k];
                assert(rest[j].0 == last.0);
            }
        }
        let m = merged_evidence(old, new);
        assert forall|e: (Seq<char>, Seq<char>)|
            occurs(m, e) <==> (occurs(old, e) || (occurs(new, e) && !has_key(old, e.0))) by {
            if !has_key(rest, last.0) {
                assert(m == rest.push(last));
                if occurs(m, e) {
                    let j = choose|j: int| 0 <= j < m.len() && m[j] == e;
                    if j < rest.len() {
                        assert(rest[j] == e);
                    }
                }
                if occurs(rest, e) {
                    let j = choose|j: int| 0 <= j < rest.len() && rest[j] == e;
                    assert(m[j] == e);
                }
                if e == last {
                    assert(m[rest.len() as int] == e);
                }
            } else {
                assert(m == rest);
                if e == last && occurs(old, e) {
                }
                if e == last && !occurs(old, e) {
                    assert(has_key(old, e.0));
                }
            }
            if occurs(old, e) && e.0 == last.0 {
            }
        }
    }
}

/// What an accepted checkpoint does to well-formed progress: the checklist
/// is the one reported where none was defined, else the defined one; the
/// evidence is the old evidence together with each reported piece whose id
/// had none (old evidence is never rewritten), each id once, each for a
/// requirement of the checklist; the counters, the objective and the last
/// turn are kept, and a report that continues keeps the pause reason.
pub proof fn lemma_checkpoint_evidence_law(p: ProgressView, c: CheckpointView)
    requires
        p.wf(),
        distinct_keys(c.completed),
        checkpoint_spec(p, c) is Ok,
    ensures
        ({
            let q = checkpoint_spec(p, c)->Ok_0;
            &&& q.requirements == (if p.requirements.len() == 0 {
                c.requirements
            } else {
                p.requirements
            })
            &&& forall|e: (Seq<char>, Seq<char>)|
                occurs(q.completed, e) <==> (occurs(p.completed, e) || (occurs(c.completed, e) && !has_key(
                    p.completed,
                    e.0,
                )))
            &&& distinct_keys(q.completed)
            &&& evidence_within(q.requirements, q.completed)
            &&& q.turns == p.turns && q.stagnant_turns == p.stagnant_turns && q.last_turn == p.last_turn
            &&& q.last_completed_count == p.last_completed_count && q.objective == p.objective
            &&& c.disposition == "continue"@ ==> q.pause_reason == p.pause_reason
        }),
{
    reveal_strlit("continue");
    reveal_strlit("needs_input");
    assert("continue"@ != "needs_input"@) by {
        assert("continue"@.len() != "needs_input"@.len());
    }
    lemma_merged_is_union(p.completed, c.completed);
    lemma_evidence_names_requirements(p, c);
}

fn push_entry(es: &mut Vec<Entry>, key: &String, value: &String)
    ensures
        entry_views(final(es)@) == entry_views(old(es)@).push((key@, value@)),
{
    let ghost before = entry_views(es@);
    es.push(Entry { key: key.clone(), value: value.clone() });
    proof {
        assert(entry_views(es@) =~= before.push((key@, value@)));
    }
}

/// A map of texts read from a JSON value, as [`text_map_of`] says.
fn text_map_value(v: Option<&Json>) -> (r: Option<Vec<Entry>>)
    ensures
        r matches Some(es) ==> distinct_keys(entry_views(es@)),
        match r {
            Some(es) => match v {
                Some(j) => text_map_of(Some(json_view(*j))) == Some(entry_views(es@)),
                None => false,
            },
            None => match v {
                Some(j) => text_map_of(Some(json_view(*j))) is None,
                None => true,
            },
        },
{
    let members = match v {
        Some(Json::Object(ms)) => ms,
        _ => {
            return None;
        },
    };
    let ghost mv = members_view(members@);
    proof {
        lemma_members_view(members@);
    }
    let mut pairs: Vec<Entry> = Vec::new();
    let mut i: usize = 0;
    while i < members.len()
        invariant
            i <= members@.len(),
            mv == members_view(members@),
            match v {
                Some(j) => json_view(*j) == JsonView::Object(mv),
                None => false,
            },
            mv.len() == members@.len(),
            forall|k: int| 0 <= k < members@.len() ==> #[trigger] mv[k] == (members@[k].0@, json_view(members@[k].1)),
            string_pairs(mv.subrange(0, i as int)) == Some(entry_views(pairs@)),
        decreases members@.len() - i,
    {
        proof {
            let t = mv.subrange(0, i + 1);
            assert(t.drop_last() =~= mv.subrange(0, i as int));
            assert(t.last() == mv[i as int]);
        }
        match &members[i].1 {
            Json::Str(t) => {
                push_entry(&mut pairs, &members[i].0, t);
            },
            _ => {
                proof {
                    assert(string_pairs(mv.subrange(0, i + 1)) is None);
                    lemma_string_pairs_none(mv, i as int + 1);
                }
                return None;
            },
        }
        i = i + 1;
    }
    proof {
        assert(mv.subrange(0, mv.len() as int) =~= mv);
    }
    let ghost pv = entry_views(pairs@);
    let mut out: Vec<Entry> = Vec::new();
    let mut k: usize = 0;
    proof {
        assert(entry_views(out@) =~= Seq::<(Seq<char>, Seq<char>)>::empty());
        assert(pv.subrange(0, 0) =~= Seq::<(Seq<char>, Seq<char>)>::empty());
    }
    while k < pairs.len()
        invariant
            k <= pairs@.len(),
            pv == entry_views(pairs@),
            entry_views(out@) == merged_evidence(Seq::empty(), pv.subrange(0, k as int)),
        decreases pairs@.len() - k,
    {
        proof {
            let t = pv.subrange(0, k + 1);
            assert(t.drop_last() =~= pv.subrange(0, k as int));
            assert(t.last() == pv[k as int]);
        }
        if !find_key(&out, pairs[k].key.as_str()) {
            push_entry(&mut out, &pairs[k].key, &pairs[k].value);
        }
        k = k + 1;
    }
    proof {
        assert(pv.subrange(0, pv.len() as int) =~= pv);
        lemma_merged_distinct(Seq::empty(), pv);
    }
    Some(out)
}

proof fn lemma_string_pairs_none(ms: Seq<(Seq<char>, JsonView)>, i: int)
    requires
        0 < i <= ms.len(),
        string_pairs(ms.subrange(0, i)) is None,
    ensures
        string_pairs(ms) is None,
    decreases ms.len() - i,
{
    if i == ms.len() {
        assert(ms.subrange(0, i) =~= ms);
    } else {
        let t = ms.subrange(0, i + 1);
        assert(t.drop_last() =~= ms.subrange(0, i));
        lemma_string_pairs_none(ms, i + 1);
    }
}

fn text_of(v: Option<&Json>) -> (r: Option<String>)
    ensures
        match r {
            Some(s) => match v {
                Some(j) => json_view(*j) == JsonView::Str(s@),
                None => false,
            },
            None => match v {
                Some(j) => !(json_view(*j) is Str),
                None => true,
            },
        },
{
    match v {
        Some(Json::Str(s)) => Some(s.clone()),
        _ => None,
    }
}

fn checkpoint_from_fields(requirements: Option<&Json>, completed: Option<&Json>, disposition: Option<&Json>, reason: Option<
    &Json,
>) -> (r: Option<Checkpoint>)
    ensures
        r matches Some(c) ==> distinct_keys(c@.requirements) && distinct_keys(c@.completed),
        match r {
            Some(c) => checkpoint_of_fields(
                match requirements {
                    Some(j) => Some(json_view(*j)),
                    None => None,
                },
                match completed {
                    Some(j) => Some(json_view(*j)),
                    None => None,
                },
                match disposition {
                    Some(j) => Some(json_view(*j)),
                    None => None,
                },
                match reason {
                    Some(j) => Some(json_view(*j)),
                    None => None,
                },
            ) == Some(c@),
            None => checkpoint_of_fields(
                match requirements {
                    Some(j) => Some(json_view(*j)),
                    None => None,
                },
                match completed {
                    Some(j) => Some(json_view(*j)),
                    None => None,
                },
                match disposition {
                    Some(j) => Some(json_view(*j)),
                    None => None,
                },
                match reason {
                    Some(j) => Some(json_view(*j)),
                    None => None,
                },
            ) is None,
        },
{
    let r = text_map_value(requirements);
    let c = text_map_value(completed);
    let d = text_of(disposition);
    let e = text_of(reason);
    match (r, c, d, e) {
        (Some(r), Some(c), Some(d), Some(e)) => Some(
            Checkpoint { requirements: r, completed: c, disposition: d, reason: e },
        ),
        _ => None,
    }
}

/// The checkpoint a call's arguments (a JSON value) carry, as
/// [`checkpoint_of_json`] says; `None` where `serde_json` would refuse them
/// (its error text, which the model is answered with, is not made here).
/// Each map keeps an id once.
pub fn checkpoint_request(args: &Json) -> (r: Option<Checkpoint>)
    ensures
        match r {
            Some(c) => checkpoint_of_json(json_view(*args)) == Some(c@) && distinct_keys(c@.requirements)
                && distinct_keys(c@.completed),
            None => checkpoint_of_json(json_view(*args)) is None,
        },
{
    let r = match args {
        Json::Object(members) => {
            let ghost mv = members_view(members@);
            proof {
                lemma_members_view(members@);
                assert(json_view(*args) == JsonView::Object(mv));
            }
            let mut i: usize = 0;
            while i < members.len()
                invariant
                    i <= members@.len(),
                    mv == members_view(members@),
                    json_view(*args) == JsonView::Object(mv),
                    mv.len() == members@.len(),
                    forall|k: int| 0 <= k < members@.len() ==> #[trigger] mv[k] == (members@[k].0@, json_view(members@[k].1)),
                    forall|k: int| 0 <= k < i ==> checkpoint_field(#[trigger] mv[k].0),
                decreases members@.len() - i,
            {
                let k = members[i].0.as_str();
                proof {
                    reveal_strlit("requirements");
                    reveal_strlit("completed");
                    reveal_strlit("disposition");
                    reveal_strlit("reason");
                }
                if !(str_eq(k, "requirements") || str_eq(k, "completed") || str_eq(k, "disposition") || str_eq(
                    k,
                    "reason",
                )) {
                    proof {
                        assert(!checkpoint_field(mv[i as int].0));
                        assert(!(forall|x: int| 0 <= x < mv.len() ==> checkpoint_field(#[trigger] mv[x].0)));
                        assert(checkpoint_of_json(JsonView::Object(mv)) is None);
                        assert(json_view(*args) == JsonView::Object(mv));
                        assert(checkpoint_of_json(json_view(*args)) is None);
                    }
                    return None;
                }
                i = i + 1;
            }
            checkpoint_from_fields(
                get_member(args, "requirements"),
                get_member(args, "completed"),
                get_member(args, "disposition"),
                get_member(args, "reason"),
            )
        },
        Json::Array(items) => {
            proof {
                crate::json::lemma_items_view(items@);
            }
            if items.len() != 4 {
                return None;
            }
            checkpoint_from_fields(Some(&items[0]), Some(&items[1]), Some(&items[2]), Some(&items[3]))
        },
        _ => None,
    };
    r
}

/// Thread ids are untrusted protocol input: only short ASCII names made of
/// letters, digits, `-` and `_` may name a progress file.
pub open spec fn valid_thread_id(id: Seq<char>) -> bool {
    &&& id.len() > 0
    &&& byte_len(id) <= 100
    &&& forall|i: int| 0 <= i < id.len() ==> is_ascii_alnum(#[trigger] id[i]) || id[i] == '-' || id[i] == '_'
}

/// Why no progress file can be named.
#[derive(Clone, Copy, Debug, PartialEq, Eq)]
pub enum ProgressPathError {
    InvalidThreadId,
    NoCodexHome,
}

impl ProgressPathError {
    /// The message of the I/O error this is reported as.
    pub fn message(&self) -> (r: &'static str)
        ensures
            r@ == match *self {
                ProgressPathError::InvalidThreadId => "Invalid goal thread ID"@,
                ProgressPathError::NoCodexHome => "Codex home unavailable for durable goal progress"@,
            },
    {
        match self {
            ProgressPathError::InvalidThreadId => "Invalid goal thread ID",
            ProgressPathError::NoCodexHome => "Codex home unavailable for durable goal progress",
        }
    }
}

/// `<codex home>/vk-goal-progress/<thread id>.json`.
pub open spec fn progress_file(home: Seq<char>, thread_id: Seq<char>) -> Seq<char> {
    crate::controller::join_path(
        crate::controller::join_path(home, "vk-goal-progress"@),
        thread_id + ".json"@,
    )
}

/// The durable progress file of a native goal thread, under the Codex home.
pub fn progress_path(thread_id: &str, codex_home: Option<String>) -> (r: Result<
    String,
    ProgressPathError,
>)
    ensures
        !valid_thread_id(thread_id@) ==> r == Err::<String, ProgressPathError>(
            ProgressPathError::InvalidThreadId,
        ),
        valid_thread_id(thread_id@) && codex_home is None ==> r == Err::<String, ProgressPathError>(
            ProgressPathError::NoCodexHome,
        ),
        valid_thread_id(thread_id@) && codex_home is Some ==> r is Ok && r->Ok_0@ == progress_file(
            codex_home->0@,
            thread_id@,
        ),
{
    let n = thread_id.unicode_len();
    if n == 0 || thread_id.len() > 100 {
        return Err(ProgressPathError::InvalidThreadId);
    }
    let mut i: usize = 0;
    while i < n
        invariant
            n == thread_id@.len(),
            i <= n,
            forall|j: int|
                0 <= j < i ==> is_ascii_alnum(#[trigger] thread_id@[j]) || thread_id@[j] == '-'
                    || thread_id@[j] == '_',
        decreases n - i,
    {
        let c = thread_id.get_char(i);
        if !(crate::text::is_ascii_alnum_char(c) || c == '-' || c == '_') {
            return Err(ProgressPathError::InvalidThreadId);
        }
        i = i + 1;
    }
    match codex_home {
        None => Err(ProgressPathError::NoCodexHome),
        Some(home) => {
            let dir = crate::controller::join_path_str(home.as_str(), "vk-goal-progress");
            let name = String::from_str(thread_id).concat(".json");
            Ok(crate::controller::join_path_str(dir.as_str(), name.as_str()))
        },
    }
}


/// The checkpoint an assistant message ends with: the text between the last
/// opening tag and the closing tag that ends the trimmed message, where it
/// is at most 450000 bytes.
pub open spec fn checkpoint_payload_spec(text: Seq<char>) -> Option<Seq<char>> {
    let t = trim(text);
    let close = "</vk_goal_checkpoint>"@;
    if !has_suffix(t, close) {
        None
    } else {
        match rsplit_once(t.subrange(0, t.len() - close.len()), "<vk_goal_checkpoint>"@) {
            None => None,
            Some((_, payload)) => if byte_len(payload) > 450000 {
                None
            } else {
                Some(payload)
            },
        }
    }
}

/// The JSON text of the checkpoint an assistant message carries, as
/// [`checkpoint_payload_spec`] says.
pub fn checkpoint_payload(text: &str) -> (r: Option<&str>)
    ensures
        match r {
            Some(p) => checkpoint_payload_spec(text@) == Some(p@),
            None => checkpoint_payload_spec(text@) is None,
        },
{
    let t = trim_str(text);
    let body = match strip_suffix_str(t, "</vk_goal_checkpoint>") {
        Some(b) => b,
        None => {
            return None;
        },
    };
    match rsplit_once_str(body, "<vk_goal_checkpoint>") {
        None => None,
        Some((_, payload)) => {
            if payload.len() > 450000 {
                None
            } else {
                Some(payload)
            }
        },
    }
}

/// The progress of a goal: the stored record where it belongs to the same
/// objective and creation time, else a fresh one.
pub fn adopt_progress(stored: Option<Progress>, goal: &NativeGoal) -> (r: Progress)
    ensures
        match stored {
            Some(p) => if p.objective@ == goal.objective@ && p.created_at == goal.created_at {
                r@ == p@
            } else {
                r@ == Progress::fresh(goal.objective@, goal.created_at)
            },
            None => r@ == Progress::fresh(goal.objective@, goal.created_at),
        },
{
    match stored {
        Some(p) => {
            if str_eq(p.objective.as_str(), goal.objective.as_str()) && p.created_at == goal.created_at {
                return p;
            }
        },
        None => {},
    }
    let r = Progress::new(goal.objective.clone(), goal.created_at);
    proof {
        assert(r@.requirements =~= Seq::<(Seq<char>, Seq<char>)>::empty());
        assert(r@.completed =~= Seq::<(Seq<char>, Seq<char>)>::empty());
    }
    r
}

impl Progress {
    /// A fresh record for a goal, as plain values.
    pub open spec fn fresh(objective: Seq<char>, created_at: i64) -> ProgressView {
        ProgressView {
            objective,
            created_at,
            requirements: Seq::empty(),
            completed: Seq::empty(),
            turns: 0,
            stagnant_turns: 0,
            last_completed_count: 0,
            last_turn: None,
            pause_reason: None,
        }
    }
}

/// Pause reason of a goal in plan mode, whose plan the user must review.
pub open spec fn plan_review_reason() -> Seq<char> {
    "Plan mode requires user review before autonomous implementation."@
}

/// What happens once a native goal turn completed.
pub struct GoalTurnOutcome {
    /// The session stays alive for another turn.
    pub keep_alive: bool,
    /// Codex claimed completion of an incomplete checklist; this is logged.
    pub report_incomplete: bool,
    /// The goal must pause, for this reason, and the execution then ends
    /// where the flag says.
    pub pause: Option<(String, bool)>,
    /// The checkpoint guidance is logged.
    pub show_guidance: bool,
    /// Watch that the native engine starts the next turn.
    pub watch_next_turn: bool,
}

/// The stagnation counts at which the guidance is shown: three, then every
/// sixth.
pub open spec fn guidance_due(stagnant: u32) -> bool {
    stagnant == 3 || (stagnant >= 6 && stagnant % 6 == 0)
}

/// Records a completed turn of an active native goal and decides what
/// follows. While a pause is under way nothing is recorded and the session
/// stays alive. A goal that is not active is left alone and ends the
/// session, reporting a claimed completion of an incomplete checklist. An
/// active goal counts the turn; it pauses in plan mode, or for the reason
/// the count gives, and otherwise stays alive while the native engine is
/// watched to start the next turn.
pub fn goal_turn_completed(
    pausing: bool,
    goal_status: Option<&str>,
    progress: &mut Progress,
    plan_mode: bool,
    turn_id: &str,
) -> (r: GoalTurnOutcome)
    requires
        old(progress)@.last_turn != Some(turn_id@) ==> old(progress)@.turns < u32::MAX,
        old(progress)@.last_turn != Some(turn_id@) ==> old(progress)@.stagnant_turns < u32::MAX,
    ensures
        pausing ==> r.keep_alive && *final(progress) == *old(progress) && r.pause is None
            && !r.report_incomplete && !r.show_guidance && !r.watch_next_turn,
        !pausing ==> match goal_status {
            None => !r.keep_alive && *final(progress) == *old(progress) && r.pause is None
                && !r.report_incomplete && !r.show_guidance && !r.watch_next_turn,
            Some(s) => if s@ != "active"@ {
                &&& !r.keep_alive
                &&& *final(progress) == *old(progress)
                &&& r.pause is None
                &&& !r.show_guidance
                &&& !r.watch_next_turn
                &&& r.report_incomplete == (s@ == "complete"@ && !all_complete_spec(old(progress)@))
            } else {
                let (next, reason) = finish_turn_spec(old(progress)@, turn_id@);
                &&& final(progress)@ == next
                &&& r.keep_alive
                &&& !r.report_incomplete
                &&& match r.pause {
                    Some((why, exit)) => exit && (if plan_mode {
                        why@ == plan_review_reason()
                    } else {
                        Some(why@) == reason
                    }),
                    None => !plan_mode && reason is None,
                }
                &&& r.show_guidance == (!plan_mode && reason is None && guidance_due(next.stagnant_turns))
                &&& r.watch_next_turn == (!plan_mode && reason is None)
            },
        },
{
    let none = GoalTurnOutcome {
        keep_alive: false,
        report_incomplete: false,
        pause: None,
        show_guidance: false,
        watch_next_turn: false,
    };
    if pausing {
        return GoalTurnOutcome { keep_alive: true, ..none };
    }
    let status = match goal_status {
        Some(s) => s,
        None => {
            return none;
        },
    };
    if !str_eq(status, "active") {
        let incomplete = str_eq(status, "complete") && !progress.all_complete();
        return GoalTurnOutcome { report_incomplete: incomplete, ..none };
    }
    let reason = progress.finish_turn(turn_id);
    if plan_mode {
        GoalTurnOutcome {
            keep_alive: true,
            pause: Some((String::from_str("Plan mode requires user review before autonomous implementation."), true)),
            ..none
        }
    } else {
        match reason {
            Some(why) => GoalTurnOutcome { keep_alive: true, pause: Some((why, true)), ..none },
            None => {
                let s = progress.stagnant_turns;
                let due = s == 3 || (s >= 6 && s % 6 == 0);
                GoalTurnOutcome { keep_alive: true, show_guidance: due, watch_next_turn: true, ..none }
            },
        }
    }
}


proof fn lemma_merged_within(
    reqs: Seq<(Seq<char>, Seq<char>)>,
    old: Seq<(Seq<char>, Seq<char>)>,
    new: Seq<(Seq<char>, Seq<char>)>,
)
    requires
        evidence_within(reqs, old),
        forall|i: int| 0 <= i < new.len() ==> has_key(reqs, #[trigger] new[i].0),
    ensures
        evidence_within(reqs, merged_evidence(old, new)),
    decreases new.len(),
{
    if new.len() > 0 {
        let front = new.drop_last();
        assert forall|i: int| 0 <= i < front.len() implies has_key(reqs, #[trigger] front[i].0) by {
            assert(front[i] == new[i]);
        }
        lemma_merged_within(reqs, old, front);
        let rest = merged_evidence(old, front);
        if !has_key(rest, new.last().0) {
            let m = rest.push(new.last());
            assert forall|i: int| 0 <= i < m.len() implies has_key(reqs, #[trigger] m[i].0) by {
                if i < rest.len() {
                    assert(m[i] == rest[i]);
                } else {
                    assert(m[i] == new[new.len() - 1]);
                }
            }
        }
    }
}

/// Evidence is only ever recorded for requirements of the checklist: an
/// accepted checkpoint of well-formed progress leaves every piece of
/// evidence naming a requirement.
pub proof fn lemma_evidence_names_requirements(p: ProgressView, c: CheckpointView)
    requires
        p.wf(),
        checkpoint_spec(p, c) is Ok,
    ensures
        evidence_within(checkpoint_spec(p, c)->Ok_0.requirements, checkpoint_spec(p, c)->Ok_0.completed),
{
    let reqs = if p.requirements.len() == 0 {
        c.requirements
    } else {
        p.requirements
    };
    if p.requirements.len() == 0 {
        assert(p.completed.len() == 0) by {
            if p.completed.len() > 0 {
                assert(has_key(p.requirements, p.completed[0].0));
            }
        }
    }
    lemma_merged_within(reqs, p.completed, c.completed);
}

proof fn lemma_merged_keeps_old(old: Seq<(Seq<char>, Seq<char>)>, new: Seq<(Seq<char>, Seq<char>)>)
    ensures
        old.len() <= merged_evidence(old, new).len(),
        merged_evidence(old, new).subrange(0, old.len() as int) == old,
    decreases new.len(),
{
    if new.len() > 0 {
        lemma_merged_keeps_old(old, new.drop_last());
        let rest = merged_evidence(old, new.drop_last());
        if !has_key(rest, new.last().0) {
            assert(rest.push(new.last()).subrange(0, old.len() as int) =~= rest.subrange(0, old.len() as int));
        }
    }
}

/// An accepted checkpoint never changes a defined checklist, never changes
/// or drops evidence already recorded, never lifts a pause, and never
/// resets the counters that bound autonomy: refining the checklist or
/// rewording evidence does not buy more turns.
pub proof fn lemma_checkpoint_keeps_scope_and_evidence(p: ProgressView, c: CheckpointView)
    requires
        checkpoint_spec(p, c) is Ok,
    ensures
        ({
            let q = checkpoint_spec(p, c)->Ok_0;
            &&& p.requirements.len() != 0 ==> q.requirements == p.requirements
            &&& p.completed.len() <= q.completed.len()
            &&& q.completed.subrange(0, p.completed.len() as int) == p.completed
            &&& p.pause_reason is Some ==> q.pause_reason is Some
            &&& q.turns == p.turns
            &&& q.stagnant_turns == p.stagnant_turns
            &&& q.last_completed_count == p.last_completed_count
            &&& q.objective == p.objective
            &&& q.created_at == p.created_at
        }),
{
    lemma_merged_keeps_old(p.completed, c.completed);
}

/// A repeated notification of the same finished turn changes nothing.
pub proof fn lemma_finish_turn_idempotent(p: ProgressView, turn: Seq<char>)
    ensures
        finish_turn_spec(finish_turn_spec(p, turn).0, turn) == finish_turn_spec(p, turn),
{
}

/// The run limit holds however much progress is claimed: a new turn that
/// brings the count to fifty always pauses the goal, and a paused goal
/// stays paused until the user resumes it.
pub proof fn lemma_turn_limit_pauses(p: ProgressView, turn: Seq<char>)
    requires
        p.turns < u32::MAX,
        p.stagnant_turns < u32::MAX,
    ensures
        p.last_turn != Some(turn) && p.turns + 1 >= 50 ==> finish_turn_spec(p, turn).1 is Some,
        p.pause_reason is Some ==> finish_turn_spec(p, turn).1 == p.pause_reason,
        finish_turn_spec(p, turn).1 == finish_turn_spec(p, turn).0.pause_reason,
{
}

/// Resuming restores the turn budget but keeps the checklist and the
/// evidence.
pub proof fn lemma_resume_keeps_evidence(p: ProgressView)
    ensures
        resume_spec(p).requirements == p.requirements,
        resume_spec(p).completed == p.completed,
        resume_spec(p).turns == 0,
        resume_spec(p).pause_reason is None,
{
}

} // verus!
