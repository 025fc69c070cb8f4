//! Saved chat messages: snippets kept for reuse, each written and deleted
//! independently against the revision its writer read.
use vstd::prelude::*;
use crate::order::{is_triple_order, stable_triple_order, triple_keys};
use crate::text::{str_eq, trim, trim_str};

verus! {

/// A saved chat message.
pub struct SavedChatMessage {
    pub id: String,
    pub title: String,
    pub content: String,
    pub position: i64,
    pub revision: i64,
    /// When it was created and last written, in milliseconds.
    pub created_at_ms: i64,
    pub updated_at_ms: i64,
}

/// A saved message as plain values.
pub struct MessageView {
    pub id: Seq<char>,
    pub title: Seq<char>,
    pub content: Seq<char>,
    pub position: i64,
    pub revision: i64,
    pub created_at_ms: i64,
    pub updated_at_ms: i64,
}

impl View for SavedChatMessage {
    type V = MessageView;

    open spec fn view(&self) -> MessageView {
        MessageView {
            id: self.id@,
            title: self.title@,
            content: self.content@,
            position: self.position,
            revision: self.revision,
            created_at_ms: self.created_at_ms,
            updated_at_ms: self.updated_at_ms,
        }
    }
}

/// A message to save: a new one where no revision is given, else a change
/// of the message at that revision.
pub struct UpsertSavedChatMessage {
    pub id: String,
    pub title: String,
    pub content: String,
    pub position: i64,
    pub expected_revision: Option<i64>,
}

/// Why a saved message cannot be written or deleted.
#[derive(Clone, Copy, Debug, PartialEq, Eq, Structural)]
pub enum SavedChatMessageError {
    /// The message changed since the writer read it, or (for a new one)
    /// already exists.
    Conflict,
}

impl SavedChatMessageError {
    /// The message of the refusal.
    pub fn message(&self) -> (r: &'static str)
        ensures
            r@ == "Saved message revision conflict"@,
    {
        "Saved message revision conflict"
    }
}

/// The saved messages, each id at most once.
pub struct SavedMessageStore {
    pub messages: Vec<SavedChatMessage>,
}

/// The messages as plain values.
pub open spec fn message_views(ms: Seq<SavedChatMessage>) -> Seq<MessageView> {
    ms.map_values(|m: SavedChatMessage| m@)
}

impl View for SavedMessageStore {
    type V = Seq<MessageView>;

    open spec fn view(&self) -> Seq<MessageView> {
        message_views(self.messages@)
    }
}

/// No id occurs twice.
pub open spec fn unique_ids(ms: Seq<MessageView>) -> bool {
    forall|i: int, j: int| 0 <= i < j < ms.len() ==> ms[i].id != ms[j].id
}

/// Revisions can still advance.
pub open spec fn revisions_below_max(ms: Seq<MessageView>) -> bool {
    forall|i: int| 0 <= i < ms.len() ==> ms[i].revision < i64::MAX
}

impl SavedMessageStore {
    /// Ids are unique.
    pub open spec fn wf(&self) -> bool {
        unique_ids(self@)
    }
}

/// Where the message with this id is stored, if anywhere.
pub open spec fn message_index(ms: Seq<MessageView>, id: Seq<char>) -> Option<int>
    decreases ms.len(),
{
    if ms.len() == 0 {
        None
    } else if ms.last().id == id {
        Some(ms.len() - 1)
    } else {
        message_index(ms.drop_last(), id)
    }
}

/// The request as plain values.
pub struct UpsertView {
    pub id: Seq<char>,
    pub title: Seq<char>,
    pub content: Seq<char>,
    pub position: i64,
    pub expected_revision: Option<i64>,
}

impl View for UpsertSavedChatMessage {
    type V = UpsertView;

    open spec fn view(&self) -> UpsertView {
        UpsertView {
            id: self.id@,
            title: self.title@,
            content: self.content@,
            position: self.position,
            expected_revision: self.expected_revision,
        }
    }
}

/// Saving a message at time `now`: with a revision, the stored message of
/// that id and revision gets the new title (trimmed), content and position
/// and the next revision; without one, a message of a new id is added at
/// revision 1. Anything else is a conflict.
pub open spec fn upsert_spec(ms: Seq<MessageView>, u: UpsertView, now: i64) -> Result<
    (Seq<MessageView>, MessageView),
    SavedChatMessageError,
> {
    match u.expected_revision {
        Some(r) => match message_index(ms, u.id) {
            Some(i) => if ms[i].revision == r {
                let v = MessageView {
                    id: u.id,
                    title: trim(u.title),
                    content: u.content,
                    position: u.position,
                    revision: (r + 1) as i64,
                    created_at_ms: ms[i].created_at_ms,
                    updated_at_ms: now,
                };
                Ok((ms.update(i, v), v))
            } else {
                Err(SavedChatMessageError::Conflict)
            },
            None => Err(SavedChatMessageError::Conflict),
        },
        None => if message_index(ms, u.id) is Some {
            Err(SavedChatMessageError::Conflict)
        } else {
            let v = MessageView {
                id: u.id,
                title: trim(u.title),
                content: u.content,
                position: u.position,
                revision: 1,
                created_at_ms: now,
                updated_at_ms: now,
            };
            Ok((ms.push(v), v))
        },
    }
}

/// Deleting a message: with a revision, the message of that id and
/// revision is removed (one deleted); without one, nothing is deleted,
/// which is a conflict where the message exists.
pub open spec fn delete_spec(ms: Seq<MessageView>, id: Seq<char>, expected: Option<i64>) -> Result<
    (Seq<MessageView>, u64),
    SavedChatMessageError,
> {
    match expected {
        None => if message_index(ms, id) is Some {
            Err(SavedChatMessageError::Conflict)
        } else {
            Ok((ms, 0))
        },
        Some(r) => match message_index(ms, id) {
            Some(i) => if ms[i].revision == r {
                Ok((ms.remove(i), 1))
            } else {
                Err(SavedChatMessageError::Conflict)
            },
            None => Err(SavedChatMessageError::Conflict),
        },
    }
}

/// Keys that list messages by position, then creation time, then id.
pub open spec fn message_keys(ms: Seq<MessageView>) -> Seq<(i128, i128, Seq<char>)> {
    ms.map_values(|m: MessageView| (m.position as i128, m.created_at_ms as i128, m.id))
}

proof fn lemma_message_index(ms: Seq<MessageView>, id: Seq<char>)
    ensures
        match message_index(ms, id) {
            Some(i) => 0 <= i < ms.len() && ms[i].id == id,
            None => forall|k: int| 0 <= k < ms.len() ==> ms[k].id != id,
        },
    decreases ms.len(),
{
    if ms.len() > 0 && ms.last().id != id {
        lemma_message_index(ms.drop_last(), id);
        assert forall|k: int| 0 <= k < ms.len() - 1 implies ms[k] == ms.drop_last()[k] by {}
    }
}

proof fn lemma_unique_message(ms: Seq<MessageView>, id: Seq<char>, k: int)
    requires
        unique_ids(ms),
        0 <= k < ms.len(),
        ms[k].id == id,
    ensures
        message_index(ms, id) == Some(k),
{
    lemma_message_index(ms, id);
    match message_index(ms, id) {
        Some(i) => {
            if i < k {
                assert(ms[i].id != ms[k].id);
            } else if i > k {
                assert(ms[k].id != ms[i].id);
            }
        },
        None => {},
    }
}

/// Saving keeps ids unique.
pub proof fn lemma_upsert_keeps_ids_unique(ms: Seq<MessageView>, u: UpsertView, now: i64)
    requires
        unique_ids(ms),
        upsert_spec(ms, u, now) is Ok,
    ensures
        unique_ids(upsert_spec(ms, u, now)->Ok_0.0),
{
    lemma_message_index(ms, u.id);
    let t = upsert_spec(ms, u, now)->Ok_0.0;
    assert forall|a: int, b: int| 0 <= a < b < t.len() implies t[a].id != t[b].id by {
        match u.expected_revision {
            Some(r) => {
                let i = message_index(ms, u.id)->0;
                assert(ms[a].id != ms[b].id);
            },
            None => {
                if b == ms.len() {
                    assert(t[a] == ms[a]);
                } else {
                    assert(ms[a].id != ms[b].id);
                }
            },
        }
    }
}

/// Deleting keeps ids unique.
pub proof fn lemma_delete_keeps_ids_unique(ms: Seq<MessageView>, id: Seq<char>, expected: Option<i64>)
    requires
        unique_ids(ms),
        delete_spec(ms, id, expected) is Ok,
    ensures
        unique_ids(delete_spec(ms, id, expected)->Ok_0.0),
{
    let t = delete_spec(ms, id, expected)->Ok_0.0;
    match expected {
        Some(r) => {
            let i = message_index(ms, id)->0;
            lemma_message_index(ms, id);
            assert forall|a: int, b: int| 0 <= a < b < t.len() implies t[a].id != t[b].id by {
                let a0 = if a < i { a } else { a + 1 };
                let b0 = if b < i { b } else { b + 1 };
                assert(t[a] == ms[a0] && t[b] == ms[b0]);
                assert(ms[a0].id != ms[b0].id);
            }
        },
        None => {},
    }
}

fn find_message(ms: &Vec<SavedChatMessage>, id: &str) -> (r: Option<usize>)
    ensures
        match r {
            Some(k) => message_index(message_views(ms@), id@) == Some(k as int),
            None => message_index(message_views(ms@), id@) is None,
        },
{
    let ghost v = message_views(ms@);
    let mut k: usize = ms.len();
    proof {
        assert(v.subrange(0, k as int) =~= v);
    }
    while k > 0
        invariant
            k <= ms.len(),
            v == message_views(ms@),
            message_index(v, id@) == message_index(v.subrange(0, k as int), id@),
        decreases k,
    {
        proof {
            let t = v.subrange(0, k as int);
            assert(t.drop_last() =~= v.subrange(0, k - 1));
            assert(t.last() == ms@[k - 1]@);
        }
        if str_eq(ms[k - 1].id.as_str(), id) {
            return Some(k - 1);
        }
        k = k - 1;
    }
    None
}

fn copy_message(m: &SavedChatMessage) -> (r: SavedChatMessage)
    ensures
        r@ == m@,
{
    SavedChatMessage {
        id: m.id.clone(),
        title: m.title.clone(),
        content: m.content.clone(),
        position: m.position,
        revision: m.revision,
        created_at_ms: m.created_at_ms,
        updated_at_ms: m.updated_at_ms,
    }
}

impl SavedMessageStore {
    /// No saved messages.
    pub fn new() -> (r: SavedMessageStore)
        ensures
            r.wf(),
            r@ == Seq::<MessageView>::empty(),
    {
        let r = SavedMessageStore { messages: Vec::new() };
        proof {
            assert(r@ =~= Seq::<MessageView>::empty());
        }
        r
    }

    /// Every saved message, by position, then creation time, then id.
    pub fn find_all(&self) -> (r: Vec<SavedChatMessage>)
        requires
            self.wf(),
        ensures
            exists|order: Seq<usize>|
                is_triple_order(message_keys(self@), order) && message_views(r@) == order.map_values(
                    |i: usize| self@[i as int],
                ),
    {
        let ghost ms = self@;
        let mut keys: Vec<(i128, i128, String)> = Vec::new();
        let mut i: usize = 0;
        while i < self.messages.len()
            invariant
                i <= self.messages.len(),
                ms == self@,
                triple_keys(keys@) == message_keys(ms).subrange(0, i as int),
            decreases self.messages.len() - i,
        {
            let ghost before = triple_keys(keys@);
            let m = &self.messages[i];
            keys.push((m.position as i128, m.created_at_ms as i128, m.id.clone()));
            proof {
                let k = (ms[i as int].position as i128, ms[i as int].created_at_ms as i128, ms[i as int].id);
                assert(triple_keys(keys@) =~= before.push(k));
                assert(message_keys(ms).subrange(0, i + 1) =~= message_keys(ms).subrange(0, i as int).push(k));
            }
            i = i + 1;
        }
        proof {
            assert(message_keys(ms).subrange(0, ms.len() as int) =~= message_keys(ms));
        }
        let order = stable_triple_order(&keys);
        let mut out: Vec<SavedChatMessage> = Vec::new();
        let mut k: usize = 0;
        while k < order.len()
            invariant
                k <= order@.len(),
                ms == self@,
                is_triple_order(message_keys(ms), order@),
                message_views(out@) == order@.subrange(0, k as int).map_values(|i: usize| ms[i as int]),
            decreases order@.len() - k,
        {
            let ghost before = message_views(out@);
            assert(order@[k as int] < message_keys(ms).len());
            out.push(copy_message(&self.messages[order[k]]));
            proof {
                assert(message_views(out@) =~= before.push(ms[order@[k as int] as int]));
                assert(order@.subrange(0, k + 1).map_values(|i: usize| ms[i as int]) =~= order@.subrange(
                    0,
                    k as int,
                ).map_values(|i: usize| ms[i as int]).push(ms[order@[k as int] as int]));
            }
            k = k + 1;
        }
        proof {
            assert(order@.subrange(0, order@.len() as int) =~= order@);
        }
        out
    }

    /// Saves a message at time `now_ms`, as [`upsert_spec`] says; returns
    /// the stored message.
    pub fn upsert(&mut self, input: &UpsertSavedChatMessage, now_ms: i64) -> (r: Result<
        SavedChatMessage,
        SavedChatMessageError,
    >)
        requires
            old(self).wf(),
            revisions_below_max(old(self)@),
        ensures
            final(self).wf(),
            match r {
                Ok(m) => upsert_spec(old(self)@, input@, now_ms) == Ok::<
                    (Seq<MessageView>, MessageView),
                    SavedChatMessageError,
                >((final(self)@, m@)),
                Err(e) => upsert_spec(old(self)@, input@, now_ms) == Err::<
                    (Seq<MessageView>, MessageView),
                    SavedChatMessageError,
                >(e) && final(self)@ == old(self)@,
            },
            r is Ok ==> ({
                let m = r->Ok_0;
                &&& m.id@ == input.id@
                &&& m.title@ == trim(input.title@)
                &&& m.content@ == input.content@
                &&& m.position == input.position
                &&& m.revision == match input.expected_revision {
                    Some(e) => e + 1,
                    None => 1,
                }
                &&& exists|k: int| 0 <= k < final(self)@.len() && #[trigger] final(self)@[k] == m@
                &&& forall|k: int|
                    0 <= k < final(self)@.len() && (#[trigger] final(self)@[k]).id == input.id@ ==> final(self)@[k]
                        == m@
            }),
    {
        let ghost before = self@;
        let found = find_message(&self.messages, input.id.as_str());
        proof {
            lemma_message_index(before, input.id@);
        }
        let title = String::from_str(trim_str(input.title.as_str()));
        match input.expected_revision {
            Some(r) => {
                let i = match found {
                    Some(i) => i,
                    None => {
                        return Err(SavedChatMessageError::Conflict);
                    },
                };
                if self.messages[i].revision != r {
                    return Err(SavedChatMessageError::Conflict);
                }
                let v = SavedChatMessage {
                    id: input.id.clone(),
                    title,
                    content: input.content.clone(),
                    position: input.position,
                    revision: r + 1,
                    created_at_ms: self.messages[i].created_at_ms,
                    updated_at_ms: now_ms,
                };
                let out = copy_message(&v);
                self.messages.set(i, v);
                proof {
                    assert(self@ =~= before.update(i as int, out@));
                    lemma_upsert_keeps_ids_unique(before, input@, now_ms);
                    lemma_saved_message_reads_back(before, input@, now_ms);
                    assert(self@[i as int] == out@);
                }
                Ok(out)
            },
            None => {
                if found.is_some() {
                    return Err(SavedChatMessageError::Conflict);
                }
                let v = SavedChatMessage {
                    id: input.id.clone(),
                    title,
                    content: input.content.clone(),
                    position: input.position,
                    revision: 1,
                    created_at_ms: now_ms,
                    updated_at_ms: now_ms,
                };
                let out = copy_message(&v);
                self.messages.push(v);
                proof {
                    assert(self@ =~= before.push(out@));
                    lemma_upsert_keeps_ids_unique(before, input@, now_ms);
                    lemma_saved_message_reads_back(before, input@, now_ms);
                    assert(self@[before.len() as int] == out@);
                }
                Ok(out)
            },
        }
    }

    /// Deletes a message, as [`delete_spec`] says; returns how many were
    /// deleted.
    pub fn delete(&mut self, id: &str, expected_revision: Option<i64>) -> (r: Result<u64, SavedChatMessageError>)
        requires
            old(self).wf(),
        ensures
            final(self).wf(),
            match r {
                Ok(n) => delete_spec(old(self)@, id@, expected_revision) == Ok::<
                    (Seq<MessageView>, u64),
                    SavedChatMessageError,
                >((final(self)@, n)),
                Err(e) => delete_spec(old(self)@, id@, expected_revision) == Err::<
                    (Seq<MessageView>, u64),
                    SavedChatMessageError,
                >(e) && final(self)@ == old(self)@,
            },
    {
        let ghost before = self@;
        let found = find_message(&self.messages, id);
        proof {
            lemma_message_index(before, id@);
        }
        match expected_revision {
            None => {
                if found.is_some() {
                    Err(SavedChatMessageError::Conflict)
                } else {
                    Ok(0)
                }
            },
            Some(r) => {
                let i = match found {
                    Some(i) => i,
                    None => {
                        return Err(SavedChatMessageError::Conflict);
                    },
                };
                if self.messages[i].revision != r {
                    return Err(SavedChatMessageError::Conflict);
                }
                self.messages.remove(i);
                proof {
                    assert(self@ =~= before.remove(i as int));
                    lemma_delete_keeps_ids_unique(before, id@, expected_revision);
                }
                Ok(1)
            },
        }
    }
}

/// What a saved message reads back as: after an accepted save, the store
/// holds exactly one message with that id, the saved one, with the
/// request's content, trimmed title and position, at the revision after
/// the one the writer read (1 for a new message).
pub proof fn lemma_saved_message_reads_back(ms: Seq<MessageView>, u: UpsertView, now: i64)
    requires
        unique_ids(ms),
        upsert_spec(ms, u, now) is Ok,
    ensures
        ({
            let (t, v) = upsert_spec(ms, u, now)->Ok_0;
            &&& v.id == u.id
            &&& v.content == u.content
            &&& v.title == trim(u.title)
            &&& v.position == u.position
            &&& v.revision == match u.expected_revision {
                Some(e) => (e + 1) as i64,
                None => 1,
            }
            &&& message_index(t, u.id) is Some
            &&& t[message_index(t, u.id)->0] == v
            &&& forall|k: int| 0 <= k < t.len() && (#[trigger] t[k]).id == u.id ==> t[k] == v
        }),
{
    lemma_upsert_keeps_ids_unique(ms, u, now);
    lemma_message_index(ms, u.id);
    let (t, v) = upsert_spec(ms, u, now)->Ok_0;
    match u.expected_revision {
        Some(r) => {
            let i = message_index(ms, u.id)->0;
            lemma_unique_message(t, u.id, i);
            assert forall|k: int| 0 <= k < t.len() && (#[trigger] t[k]).id == u.id implies t[k] == v by {
                lemma_unique_message(t, u.id, k);
            }
        },
        None => {
            lemma_unique_message(t, u.id, ms.len() as int);
            assert forall|k: int| 0 <= k < t.len() && (#[trigger] t[k]).id == u.id implies t[k] == v by {
                lemma_unique_message(t, u.id, k);
            }
        },
    }
}

/// Of two writers of a message that read the same revision, only the first
/// succeeds; and a new message cannot be added twice.
pub proof fn lemma_stale_message_write_rejected(ms: Seq<MessageView>, first: UpsertView, second: UpsertView, t1: i64, t2: i64)
    requires
        unique_ids(ms),
        revisions_below_max(ms),
        first.id == second.id,
        first.expected_revision == second.expected_revision,
        upsert_spec(ms, first, t1) is Ok,
    ensures
        upsert_spec(upsert_spec(ms, first, t1)->Ok_0.0, second, t2) == Err::<
            (Seq<MessageView>, MessageView),
            SavedChatMessageError,
        >(SavedChatMessageError::Conflict),
{
    lemma_saved_message_reads_back(ms, first, t1);
    lemma_message_index(ms, first.id);
    match first.expected_revision {
        Some(r) => {
            let i = message_index(ms, first.id)->0;
            assert(ms[i].revision == r);
        },
        None => {},
    }
}

/// A deleted message is gone: after an accepted delete of a stored
/// message, no message has its id.
pub proof fn lemma_deleted_message_is_gone(ms: Seq<MessageView>, id: Seq<char>, r: i64)
    requires
        unique_ids(ms),
        delete_spec(ms, id, Some(r)) is Ok,
    ensures
        message_index(delete_spec(ms, id, Some(r))->Ok_0.0, id) is None,
        delete_spec(ms, id, Some(r))->Ok_0.1 == 1,
{
    lemma_message_index(ms, id);
    let i = message_index(ms, id)->0;
    let t = delete_spec(ms, id, Some(r))->Ok_0.0;
    assert forall|k: int| 0 <= k < t.len() implies t[k].id != id by {
        let k0 = if k < i { k } else { k + 1 };
        assert(t[k] == ms[k0]);
        if k0 < i {
            assert(ms[k0].id != ms[i].id);
        } else {
            assert(ms[i].id != ms[k0].id);
        }
    }
    lemma_message_index(t, id);
}

} // verus!
