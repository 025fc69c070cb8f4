//! Follow-up messages queued per session while an agent turn runs, or while
//! waiting for global executor capacity.
use vstd::prelude::*;
use crate::text::{decimal, push_char, usize_to_decimal};

verus! {

/// The coding agents an execution can run.
#[derive(Clone, Copy, Debug, PartialEq, Eq, Structural)]
pub enum BaseCodingAgent {
    ClaudeCode,
    Amp,
    Gemini,
    Codex,
    Opencode,
    CursorAgent,
    QwenCode,
    Copilot,
    Droid,
}

/// When steering the running turn is unavailable, only non-Codex agents
/// fall back to queueing the follow-up: a Codex follow-up is never silently
/// deferred.
pub fn should_queue_when_steer_is_unavailable(executor: &BaseCodingAgent) -> (r: bool)
    ensures
        r == (*executor != BaseCodingAgent::Codex),
{
    *executor != BaseCodingAgent::Codex
}

/// Which agent (and variant of its profile) runs a follow-up.
pub struct ExecutorConfig {
    pub executor: BaseCodingAgent,
    pub variant: Option<String>,
}

/// One follow-up message with the configuration chosen for it.
pub struct DraftFollowUpData {
    pub message: String,
    pub executor_config: ExecutorConfig,
}

pub struct ExecutorConfigView {
    pub executor: BaseCodingAgent,
    pub variant: Option<Seq<char>>,
}

pub struct DraftView {
    pub message: Seq<char>,
    pub executor_config: ExecutorConfigView,
}

impl View for ExecutorConfig {
    type V = ExecutorConfigView;

    open spec fn view(&self) -> ExecutorConfigView {
        ExecutorConfigView {
            executor: self.executor,
            variant: match self.variant {
                Some(v) => Some(v@),
                None => None,
            },
        }
    }
}

impl View for DraftFollowUpData {
    type V = DraftView;

    open spec fn view(&self) -> DraftView {
        DraftView { message: self.message@, executor_config: self.executor_config@ }
    }
}

pub fn copy_config(c: &ExecutorConfig) -> (r: ExecutorConfig)
    ensures
        r@ == c@,
{
    ExecutorConfig {
        executor: c.executor,
        variant: match &c.variant {
            Some(v) => Some(v.clone()),
            None => None,
        },
    }
}

pub fn copy_draft(d: &DraftFollowUpData) -> (r: DraftFollowUpData)
    ensures
        r@ == d@,
{
    DraftFollowUpData { message: d.message.clone(), executor_config: copy_config(&d.executor_config) }
}

/// A queued follow-up for one session.
pub struct QueuedMessage {
    pub session_id: u128,
    /// The most recent follow-up, kept for API compatibility and edit restore.
    pub data: DraftFollowUpData,
    /// Ordered follow-ups queued while the agent was running.
    pub messages: Vec<DraftFollowUpData>,
    /// When it was queued, in nanoseconds since the Unix epoch.
    pub queued_at_ns: i128,
    /// Waiting for global executor capacity rather than for a running turn
    /// of the same session.
    pub wait_for_capacity: bool,
}

pub struct QueuedView {
    pub session_id: u128,
    pub data: DraftView,
    pub messages: Seq<DraftView>,
    pub queued_at_ns: i128,
    pub wait_for_capacity: bool,
}

impl View for QueuedMessage {
    type V = QueuedView;

    open spec fn view(&self) -> QueuedView {
        QueuedView {
            session_id: self.session_id,
            data: self.data@,
            messages: self.messages@.map_values(|d: DraftFollowUpData| d@),
            queued_at_ns: self.queued_at_ns,
            wait_for_capacity: self.wait_for_capacity,
        }
    }
}

pub fn copy_queued(q: &QueuedMessage) -> (r: QueuedMessage)
    ensures
        r@ == q@,
{
    let mut messages: Vec<DraftFollowUpData> = Vec::new();
    let mut i: usize = 0;
    while i < q.messages.len()
        invariant
            i <= q.messages.len(),
            messages@.map_values(|d: DraftFollowUpData| d@) =~= q.messages@.subrange(
                0,
                i as int,
            ).map_values(|d: DraftFollowUpData| d@),
        decreases q.messages.len() - i,
    {
        messages.push(copy_draft(&q.messages[i]));
        proof {
            assert(q.messages@.subrange(0, i + 1).map_values(|d: DraftFollowUpData| d@) =~= q.messages@.subrange(
                0,
                i as int,
            ).map_values(|d: DraftFollowUpData| d@).push(q.messages@[i as int]@));
        }
        i = i + 1;
    }
    proof {
        assert(q.messages@.subrange(0, q.messages.len() as int) =~= q.messages@);
    }
    QueuedMessage {
        session_id: q.session_id,
        data: copy_draft(&q.data),
        messages,
        queued_at_ns: q.queued_at_ns,
        wait_for_capacity: q.wait_for_capacity,
    }
}

/// Preamble of a prompt that combines several follow-ups.
pub open spec fn combined_preamble() -> Seq<char> {
    "The user sent these follow-up messages while the previous turn was still running. Address them in order.\n\n"@
}

/// The combined prompt for the first `n` of `ms`.
pub open spec fn combined_prompt(ms: Seq<DraftView>, n: nat) -> Seq<char>
    decreases n,
{
    if n == 0 {
        combined_preamble()
    } else {
        let prev = combined_prompt(ms, (n - 1) as nat);
        let sep = if n > 1 {
            "\n\n"@
        } else {
            Seq::<char>::empty()
        };
        prev + sep + "Follow-up "@ + decimal(n) + ":\n"@ + ms[n - 1].message
    }
}

/// The follow-ups a queued message stands for: its list, or its latest data
/// when the list is empty.
pub open spec fn queued_messages(q: QueuedView) -> Seq<DraftView> {
    if q.messages.len() == 0 {
        seq![q.data]
    } else {
        q.messages
    }
}

/// The single prompt for the next turn.
pub open spec fn follow_up_message(q: QueuedView) -> Seq<char> {
    let ms = queued_messages(q);
    if ms.len() == 1 {
        ms[0].message
    } else {
        combined_prompt(ms, ms.len())
    }
}

impl QueuedMessage {
    /// Collapses the queued follow-ups into one prompt for the next turn,
    /// run with the configuration of the last of them.
    pub fn into_follow_up_data(self) -> (r: DraftFollowUpData)
        requires
            self.messages.len() < usize::MAX,
        ensures
            r@.message == follow_up_message(self@),
            r@.executor_config == queued_messages(self@).last().executor_config,
    {
        let ghost q = self@;
        let messages: Vec<DraftFollowUpData> = if self.messages.len() == 0 {
            let mut v = Vec::new();
            v.push(self.data);
            v
        } else {
            self.messages
        };
        let ghost ms = messages@.map_values(|d: DraftFollowUpData| d@);
        assert(ms =~= queued_messages(q));
        let n = messages.len();
        let executor_config = copy_config(&messages[n - 1].executor_config);
        if n == 1 {
            let message = messages[0].message.clone();
            return DraftFollowUpData { message, executor_config };
        }
        let mut prompt = String::from_str(
            "The user sent these follow-up messages while the previous turn was still running. Address them in order.\n\n",
        );
        let mut i: usize = 0;
        while i < n
            invariant
                i <= n,
                n == messages.len(),
                n < usize::MAX,
                ms == messages@.map_values(|d: DraftFollowUpData| d@),
                prompt@ == combined_prompt(ms, i as nat),
            decreases n - i,
        {
            if i > 0 {
                prompt.append("\n\n");
            }
            prompt.append("Follow-up ");
            let num = usize_to_decimal(i + 1);
            prompt.append(num.as_str());
            prompt.append(":\n");
            prompt.append(messages[i].message.as_str());
            proof {
                if i > 0 {
                    assert(prompt@ =~= combined_prompt(ms, i as nat) + "\n\n"@ + "Follow-up "@
                        + decimal((i + 1) as nat) + ":\n"@ + ms[i as int].message);
                } else {
                    assert(prompt@ =~= combined_prompt(ms, i as nat) + Seq::<char>::empty()
                        + "Follow-up "@ + decimal((i + 1) as nat) + ":\n"@ + ms[i as int].message);
                }
            }
            i = i + 1;
        }
        DraftFollowUpData { message: prompt, executor_config }
    }
}

/// Queue status shown for a session.
pub enum QueueStatus {
    Empty,
    Queued { message: QueuedMessage },
}

/// `dashmap::DashMap`, the concurrent map that holds the queue.
#[verifier::external_type_specification]
#[verifier::external_body]
#[verifier::reject_recursive_types(K)]
#[verifier::reject_recursive_types(V)]
#[verifier::reject_recursive_types(S)]
pub struct ExDashMap<K, V, S>(dashmap::DashMap<K, V, S>);

/// The map that holds the queue, by session id.
pub type QueueMap = dashmap::DashMap<u128, QueuedMessage>;

/// What a queue map holds: the queued message of each session id, as plain
/// values.
pub uninterp spec fn queue_contents(m: QueueMap) -> Map<u128, QueuedView>;

/// No message queued for any session.
pub open spec fn no_queued_messages() -> Map<u128, QueuedView> {
    Map::empty()
}

/// `DashMap::new`: an empty map.
#[verifier::external_body]
fn queue_map_new() -> (r: QueueMap)
    ensures
        queue_contents(r) == no_queued_messages(),
{
    dashmap::DashMap::new()
}

/// `DashMap::get`, the entry copied out: the value held for the key, if any.
#[verifier::external_body]
fn queue_map_get(m: &QueueMap, key: u128) -> (r: Option<QueuedMessage>)
    ensures
        match r {
            Some(q) => queue_contents(*m).contains_key(key) && q@ == queue_contents(*m)[key],
            None => !queue_contents(*m).contains_key(key),
        },
{
    m.get(&key).map(|entry| copy_queued(entry.value()))
}

/// `DashMap::contains_key`.
#[verifier::external_body]
fn queue_map_contains(m: &QueueMap, key: u128) -> (r: bool)
    ensures
        r == queue_contents(*m).contains_key(key),
{
    m.contains_key(&key)
}

/// `DashMap::insert`: the key now holds the value (any old value is
/// replaced); every other key keeps its own.
#[verifier::external_body]
fn queue_map_insert(m: &mut QueueMap, key: u128, value: QueuedMessage)
    ensures
        queue_contents(*final(m)) == queue_contents(*old(m)).insert(key, value@),
{
    m.insert(key, value);
}

/// `DashMap::remove`, keeping the value: the value the key held, if any,
/// and the map without the key.
#[verifier::external_body]
fn queue_map_remove(m: &mut QueueMap, key: u128) -> (r: Option<QueuedMessage>)
    ensures
        queue_contents(*final(m)) == queue_contents(*old(m)).remove(key),
        match r {
            Some(q) => queue_contents(*old(m)).contains_key(key) && q@ == queue_contents(*old(m))[key],
            None => !queue_contents(*old(m)).contains_key(key),
        },
{
    m.remove(&key).map(|(_, value)| value)
}

/// `DashMap::iter`, each entry mapped to its key, time of queueing and
/// capacity flag: every entry once, in an order the map chooses.
#[verifier::external_body]
fn queue_map_entries(m: &QueueMap) -> (r: Vec<(u128, i128, bool)>)
    ensures
        forall|i: int|
            0 <= i < r@.len() ==> queue_contents(*m).contains_key(#[trigger] r@[i].0) && r@[i].1
                == queue_contents(*m)[r@[i].0].queued_at_ns && r@[i].2 == queue_contents(*m)[r@[i].0].wait_for_capacity,
        forall|k: u128| queue_contents(*m).contains_key(k) ==> exists|i: int| 0 <= i < r@.len() && #[trigger] r@[i].0 == k,
{
    m.iter().map(|entry| (*entry.key(), entry.value().queued_at_ns, entry.value().wait_for_capacity)).collect()
}

/// At most one queued message per session, keyed by session id; the
/// service is owned by one caller at a time (the application shares it
/// behind a lock).
pub struct QueuedMessageService {
    queue: QueueMap,
}

impl QueuedMessageService {
    /// The queued messages by session.
    pub closed spec fn contents(&self) -> Map<u128, QueuedView> {
        queue_contents(self.queue)
    }

    /// The queued message of `session`, if any.
    pub open spec fn queued_for(&self, session: u128) -> Option<QueuedView> {
        if self.contents().contains_key(session) {
            Some(self.contents()[session])
        } else {
            None
        }
    }

    /// Each message is held under its own session id.
    pub closed spec fn wf(&self) -> bool {
        forall|k: u128| #[trigger] self.contents().contains_key(k) ==> self.contents()[k].session_id == k
    }

    pub fn new() -> (r: QueuedMessageService)
        ensures
            r.wf(),
            forall|s: u128| r.queued_for(s) is None,
    {
        QueuedMessageService { queue: queue_map_new() }
    }

    /// Appends a follow-up to the session's queued message (creating it).
    pub fn queue_message(&mut self, session_id: u128, data: DraftFollowUpData, now_ns: i128) -> (r:
        QueuedMessage)
        requires
            old(self).wf(),
        ensures
            final(self).wf(),
            final(self).queued_for(session_id) == Some(r@),
            r@.data == data@,
            match old(self).queued_for(session_id) {
                Some(q) => r@ == (QueuedView { data: data@, messages: q.messages.push(data@), ..q }),
                None => r@ == (QueuedView {
                    session_id,
                    data: data@,
                    messages: seq![data@],
                    queued_at_ns: now_ns,
                    wait_for_capacity: false,
                }),
            },
            forall|s: u128| s != session_id ==> final(self).queued_for(s) == old(self).queued_for(s),
    {
        match queue_map_get(&self.queue, session_id) {
            Some(existing) => {
                let mut updated = existing;
                let ghost ev = updated@;
                let ghost dv = data@;
                updated.data = copy_draft(&data);
                updated.messages.push(data);
                assert(updated@.messages =~= ev.messages.push(dv));
                let r = copy_queued(&updated);
                queue_map_insert(&mut self.queue, session_id, updated);
                r
            },
            None => {
                let mut messages = Vec::new();
                let d2 = copy_draft(&data);
                messages.push(data);
                let queued = QueuedMessage {
                    session_id,
                    data: d2,
                    messages,
                    queued_at_ns: now_ns,
                    wait_for_capacity: false,
                };
                assert(queued@.messages =~= seq![d2@]);
                let r = copy_queued(&queued);
                queue_map_insert(&mut self.queue, session_id, queued);
                r
            },
        }
    }

    /// Queues a message that starts when global executor capacity opens,
    /// replacing anything queued for the session.
    pub fn queue_for_capacity(&mut self, session_id: u128, data: DraftFollowUpData, now_ns: i128) -> (r:
        QueuedMessage)
        requires
            old(self).wf(),
        ensures
            final(self).wf(),
            r@ == (QueuedView {
                session_id,
                data: data@,
                messages: seq![data@],
                queued_at_ns: now_ns,
                wait_for_capacity: true,
            }),
            final(self).queued_for(session_id) == Some(r@),
            forall|s: u128| s != session_id ==> final(self).queued_for(s) == old(self).queued_for(s),
    {
        let mut messages = Vec::new();
        let d2 = copy_draft(&data);
        messages.push(data);
        let queued = QueuedMessage {
            session_id,
            data: d2,
            messages,
            queued_at_ns: now_ns,
            wait_for_capacity: true,
        };
        assert(queued@.messages =~= seq![data@]);
        let r = copy_queued(&queued);
        queue_map_insert(&mut self.queue, session_id, queued);
        r
    }

    /// Removes and returns the session's queued message.
    pub fn take_queued(&mut self, session_id: u128) -> (r: Option<QueuedMessage>)
        requires
            old(self).wf(),
        ensures
            final(self).wf(),
            match r {
                Some(q) => old(self).queued_for(session_id) == Some(q@),
                None => old(self).queued_for(session_id) is None,
            },
            final(self).queued_for(session_id) is None,
            forall|s: u128| s != session_id ==> final(self).queued_for(s) == old(self).queued_for(s),
    {
        queue_map_remove(&mut self.queue, session_id)
    }

    /// Cancels (removes) the session's queued message.
    pub fn cancel_queued(&mut self, session_id: u128) -> (r: Option<QueuedMessage>)
        requires
            old(self).wf(),
        ensures
            final(self).wf(),
            match r {
                Some(q) => old(self).queued_for(session_id) == Some(q@),
                None => old(self).queued_for(session_id) is None,
            },
            final(self).queued_for(session_id) is None,
            forall|s: u128| s != session_id ==> final(self).queued_for(s) == old(self).queued_for(s),
    {
        self.take_queued(session_id)
    }

    /// The first step of a follow-up request: a session with no running
    /// turn to consume its queue cannot take one; its queued follow-ups are
    /// dropped and the request is refused with the message returned.
    pub fn admit_follow_up(&mut self, session_id: u128, has_running_consumer: bool) -> (r: Result<
        (),
        &'static str,
    >)
        requires
            old(self).wf(),
        ensures
            final(self).wf(),
            has_running_consumer ==> r is Ok && forall|s: u128| final(self).queued_for(s) == old(self).queued_for(s),
            !has_running_consumer ==> r == Err::<(), &'static str>(
                "Cannot queue a follow-up because this session is not currently running",
            ) && final(self).queued_for(session_id) is None && forall|s: u128|
                s != session_id ==> final(self).queued_for(s) == old(self).queued_for(s),
    {
        if !has_running_consumer {
            self.cancel_queued(session_id);
            return Err("Cannot queue a follow-up because this session is not currently running");
        }
        Ok(())
    }

    /// The last step of a follow-up request, once steering the running turn
    /// with it was tried: a steered follow-up leaves the queue empty of it;
    /// a Codex follow-up that could not steer is refused (it is never
    /// silently deferred); any other is queued.
    pub fn after_steer(&mut self, session_id: u128, steered: bool, data: DraftFollowUpData, now_ns: i128) -> (r:
        Result<QueueStatus, &'static str>)
        requires
            old(self).wf(),
        ensures
            final(self).wf(),
            steered ==> (r matches Ok(QueueStatus::Empty)) && forall|s: u128|
                final(self).queued_for(s) == old(self).queued_for(s),
            !steered && data.executor_config.executor == BaseCodingAgent::Codex ==> r == Err::<
                QueueStatus,
                &'static str,
            >("The active Codex turn is not ready to accept a correction. Retry while the agent is working.")
                && forall|s: u128| final(self).queued_for(s) == old(self).queued_for(s),
            !steered && data.executor_config.executor != BaseCodingAgent::Codex ==> match r {
                Ok(QueueStatus::Queued { message }) => final(self).queued_for(session_id) == Some(message@)
                    && message@.data == data@ && match old(self).queued_for(session_id) {
                    Some(q) => message@ == (QueuedView { data: data@, messages: q.messages.push(data@), ..q }),
                    None => message@ == (QueuedView {
                        session_id,
                        data: data@,
                        messages: seq![data@],
                        queued_at_ns: now_ns,
                        wait_for_capacity: false,
                    }),
                },
                _ => false,
            },
    {
        if steered {
            return Ok(QueueStatus::Empty);
        }
        if !should_queue_when_steer_is_unavailable(&data.executor_config.executor) {
            return Err(
                "The active Codex turn is not ready to accept a correction. Retry while the agent is working.",
            );
        }
        let message = self.queue_message(session_id, data, now_ns);
        Ok(QueueStatus::Queued { message })
    }

    /// A copy of the session's queued message.
    pub fn get_queued(&self, session_id: u128) -> (r: Option<QueuedMessage>)
        requires
            self.wf(),
        ensures
            match r {
                Some(q) => self.queued_for(session_id) == Some(q@),
                None => self.queued_for(session_id) is None,
            },
    {
        queue_map_get(&self.queue, session_id)
    }

    /// Whether the session has a queued message.
    pub fn has_queued(&self, session_id: u128) -> (r: bool)
        requires
            self.wf(),
        ensures
            r == self.queued_for(session_id) is Some,
    {
        queue_map_contains(&self.queue, session_id)
    }

    /// Queue status for display.
    pub fn get_status(&self, session_id: u128) -> (r: QueueStatus)
        requires
            self.wf(),
        ensures
            match r {
                QueueStatus::Queued { message } => self.queued_for(session_id) == Some(message@),
                QueueStatus::Empty => self.queued_for(session_id) is None,
            },
    {
        match self.get_queued(session_id) {
            Some(message) => QueueStatus::Queued { message },
            None => QueueStatus::Empty,
        }
    }

    /// Takes the capacity-waiting message queued earliest, leaving all other
    /// messages (including ordinary follow-ups) in place.
    pub fn take_oldest_capacity_queued(&mut self) -> (r: Option<QueuedMessage>)
        requires
            old(self).wf(),
        ensures
            final(self).wf(),
            match r {
                Some(q) => {
                    &&& q@.wait_for_capacity
                    &&& old(self).queued_for(q@.session_id) == Some(q@)
                    &&& final(self).queued_for(q@.session_id) is None
                    &&& forall|s: u128| s != q@.session_id ==> final(self).queued_for(s) == old(
                        self,
                    ).queued_for(s)
                    &&& forall|s: u128| #[trigger] old(self).queued_for(s) is Some && old(
                        self,
                    ).queued_for(s)->0.wait_for_capacity ==> q@.queued_at_ns <= old(
                        self,
                    ).queued_for(s)->0.queued_at_ns
                },
                None => {
                    &&& forall|s: u128| #[trigger] old(self).queued_for(s) is Some ==> !old(
                        self,
                    ).queued_for(s)->0.wait_for_capacity
                    &&& forall|s: u128| final(self).queued_for(s) == old(self).queued_for(s)
                },
            },
    {
        let entries = queue_map_entries(&self.queue);
        let ghost c = self.contents();
        let mut best: Option<usize> = None;
        let mut i: usize = 0;
        while i < entries.len()
            invariant
                i <= entries@.len(),
                c == self.contents(),
                forall|j: int|
                    0 <= j < entries@.len() ==> c.contains_key(#[trigger] entries@[j].0) && entries@[j].1
                        == c[entries@[j].0].queued_at_ns && entries@[j].2 == c[entries@[j].0].wait_for_capacity,
                match best {
                    Some(b) => b < i && entries@[b as int].2 && forall|j: int|
                        0 <= j < i && (#[trigger] entries@[j]).2 ==> entries@[b as int].1 <= entries@[j].1,
                    None => forall|j: int| 0 <= j < i ==> !(#[trigger] entries@[j]).2,
                },
            decreases entries@.len() - i,
        {
            if entries[i].2 {
                let better = match best {
                    None => true,
                    Some(b) => entries[i].1 < entries[b].1,
                };
                if better {
                    best = Some(i);
                }
            }
            i = i + 1;
        }
        match best {
            None => {
                proof {
                    assert forall|s: u128| #[trigger] old(self).queued_for(s) is Some
                        implies !old(self).queued_for(s)->0.wait_for_capacity by {
                        let j = choose|j: int| 0 <= j < entries@.len() && #[trigger] entries@[j].0 == s;
                        assert(!entries@[j].2);
                    }
                }
                None
            },
            Some(b) => {
                let session = entries[b].0;
                proof {
                    assert forall|s: u128| #[trigger] old(self).queued_for(s) is Some && old(
                        self,
                    ).queued_for(s)->0.wait_for_capacity implies c[session].queued_at_ns <= old(
                        self,
                    ).queued_for(s)->0.queued_at_ns by {
                        let j = choose|j: int| 0 <= j < entries@.len() && #[trigger] entries@[j].0 == s;
                        assert(entries@[j].2);
                    }
                }
                self.take_queued(session)
            },
        }
    }
}

} // verus!
