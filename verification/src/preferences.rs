//! Durable interface preferences: the order of projects in the navigation
//! and the colour of each workspace card. Every write names the revision it
//! read; a write against any other revision is refused as a conflict, and
//! every accepted write is recorded in a history.
use vstd::prelude::*;
use crate::order::{is_triple_order, stable_triple_order, triple_keys};
use crate::text::{copy_texts, str_eq, text_views};

verus! {

/// The order of the projects in the navigation.
pub struct ProjectNavigationOrder {
    pub project_ids: Vec<String>,
    pub revision: i64,
    /// When it was last written, in milliseconds.
    pub updated_at_ms: i64,
}

/// The project order as plain values.
pub struct OrderView {
    pub project_ids: Seq<Seq<char>>,
    pub revision: i64,
    pub updated_at_ms: i64,
}

impl View for ProjectNavigationOrder {
    type V = OrderView;

    open spec fn view(&self) -> OrderView {
        OrderView {
            project_ids: text_views(self.project_ids@),
            revision: self.revision,
            updated_at_ms: self.updated_at_ms,
        }
    }
}

/// A new project order, written against the revision the writer read.
pub struct UpdateProjectNavigationOrder {
    pub project_ids: Vec<String>,
    pub expected_revision: i64,
}

/// The colour of one workspace card.
pub struct WorkspaceCardColor {
    pub workspace_id: String,
    pub color: String,
    pub revision: i64,
    /// When it was last written, in milliseconds.
    pub updated_at_ms: i64,
}

/// A card colour as plain values.
pub struct ColorView {
    pub workspace_id: Seq<char>,
    pub color: Seq<char>,
    pub revision: i64,
    pub updated_at_ms: i64,
}

impl View for WorkspaceCardColor {
    type V = ColorView;

    open spec fn view(&self) -> ColorView {
        ColorView {
            workspace_id: self.workspace_id@,
            color: self.color@,
            revision: self.revision,
            updated_at_ms: self.updated_at_ms,
        }
    }
}

/// A new colour for a card (`None` removes it), written against the
/// revision the writer read (`None` where the card had no colour).
pub struct UpdateWorkspaceCardColor {
    pub color: Option<String>,
    pub expected_revision: Option<i64>,
}

/// Why a preference write is refused.
#[derive(Clone, Copy, Debug, PartialEq, Eq, Structural)]
pub enum DurablePreferenceError {
    /// The preference changed since the writer read it.
    Conflict,
}

impl DurablePreferenceError {
    /// The message of the refusal.
    pub fn message(&self) -> (r: &'static str)
        ensures
            r@ == "Preference revision conflict"@,
    {
        "Preference revision conflict"
    }
}

/// One recorded change of a card colour.
pub struct ColorChange {
    pub workspace_id: String,
    pub color: Option<String>,
    pub revision: i64,
    pub deleted: bool,
}

/// A recorded colour change as plain values.
pub struct ChangeView {
    pub workspace_id: Seq<char>,
    pub color: Option<Seq<char>>,
    pub revision: i64,
    pub deleted: bool,
}

/// An optional text as a plain value.
pub open spec fn opt_text(o: Option<String>) -> Option<Seq<char>> {
    match o {
        Some(s) => Some(s@),
        None => None,
    }
}

impl View for ColorChange {
    type V = ChangeView;

    open spec fn view(&self) -> ChangeView {
        ChangeView {
            workspace_id: self.workspace_id@,
            color: opt_text(self.color),
            revision: self.revision,
            deleted: self.deleted,
        }
    }
}

/// The stored preferences: the project order and its history, the card
/// colours (one per workspace) and their history.
pub struct PreferenceStore {
    pub project_order: ProjectNavigationOrder,
    pub order_history: Vec<(i64, Vec<String>)>,
    pub colors: Vec<WorkspaceCardColor>,
    pub color_history: Vec<ColorChange>,
}

/// The stored preferences as plain values.
pub struct StoreView {
    pub order: OrderView,
    pub order_history: Seq<(i64, Seq<Seq<char>>)>,
    pub colors: Seq<ColorView>,
    pub color_history: Seq<ChangeView>,
}

impl View for PreferenceStore {
    type V = StoreView;

    open spec fn view(&self) -> StoreView {
        StoreView {
            order: self.project_order@,
            order_history: self.order_history@.map_values(
                |h: (i64, Vec<String>)| (h.0, text_views(h.1@)),
            ),
            colors: self.colors@.map_values(|c: WorkspaceCardColor| c@),
            color_history: self.color_history@.map_values(|c: ColorChange| c@),
        }
    }
}

/// No two cards of the same workspace.
pub open spec fn unique_cards(cs: Seq<ColorView>) -> bool {
    forall|i: int, j: int| 0 <= i < j < cs.len() ==> cs[i].workspace_id != cs[j].workspace_id
}

/// Where the colour of a workspace is stored, if it has one.
pub open spec fn color_index(cs: Seq<ColorView>, id: Seq<char>) -> Option<int>
    decreases cs.len(),
{
    if cs.len() == 0 {
        None
    } else if cs.last().workspace_id == id {
        Some(cs.len() - 1)
    } else {
        color_index(cs.drop_last(), id)
    }
}

/// The colour a workspace's card has, if any.
pub open spec fn color_of(cs: Seq<ColorView>, id: Seq<char>) -> Option<ColorView> {
    match color_index(cs, id) {
        Some(i) => Some(cs[i]),
        None => None,
    }
}

impl PreferenceStore {
    /// The card colours name each workspace at most once.
    pub open spec fn wf(&self) -> bool {
        unique_cards(self@.colors)
    }
}

/// Writing the project order: accepted only against the current revision,
/// which it advances by one; the new order is recorded in the history.
pub open spec fn order_update_spec(
    s: StoreView,
    project_ids: Seq<Seq<char>>,
    expected_revision: i64,
    now_ms: i64,
) -> Result<StoreView, DurablePreferenceError> {
    if s.order.revision != expected_revision {
        Err(DurablePreferenceError::Conflict)
    } else {
        let next = (s.order.revision + 1) as i64;
        Ok(
            StoreView {
                order: OrderView { project_ids, revision: next, updated_at_ms: now_ms },
                order_history: s.order_history.push((next, project_ids)),
                ..s
            },
        )
    }
}

/// Writing a card colour: accepted only where the revision the writer read
/// is the card's current one (none for a card without colour); the card
/// gets the next revision (1 for a new one), or is removed, and the change
/// is recorded in the history.
pub open spec fn color_update_spec(
    s: StoreView,
    id: Seq<char>,
    color: Option<Seq<char>>,
    expected_revision: Option<i64>,
    now_ms: i64,
) -> Result<(StoreView, Option<ColorView>), DurablePreferenceError> {
    let existing = color_index(s.colors, id);
    let current = match existing {
        Some(i) => Some(s.colors[i].revision),
        None => None,
    };
    if current != expected_revision {
        Err(DurablePreferenceError::Conflict)
    } else {
        let next: i64 = match existing {
            Some(i) => (s.colors[i].revision + 1) as i64,
            None => 1,
        };
        let change = ChangeView { workspace_id: id, color, revision: next, deleted: color is None };
        match color {
            Some(c) => {
                let v = ColorView { workspace_id: id, color: c, revision: next, updated_at_ms: now_ms };
                let colors = match existing {
                    Some(i) => s.colors.update(i, v),
                    None => s.colors.push(v),
                };
                Ok((StoreView { colors, color_history: s.color_history.push(change), ..s }, Some(v)))
            },
            None => {
                let colors = match existing {
                    Some(i) => s.colors.remove(i),
                    None => s.colors,
                };
                Ok((StoreView { colors, color_history: s.color_history.push(change), ..s }, None))
            },
        }
    }
}

/// What reading the preferences shows: the project order, and the card
/// colours ordered by workspace id.
pub struct DurableUiPreferences {
    pub project_order: ProjectNavigationOrder,
    pub workspace_colors: Vec<WorkspaceCardColor>,
}

/// Keys that order cards by workspace id.
pub open spec fn card_keys(cs: Seq<ColorView>) -> Seq<(i128, i128, Seq<char>)> {
    cs.map_values(|c: ColorView| (0i128, 0i128, c.workspace_id))
}

proof fn lemma_color_index(cs: Seq<ColorView>, id: Seq<char>)
    ensures
        match color_index(cs, id) {
            Some(i) => 0 <= i < cs.len() && cs[i].workspace_id == id,
            None => forall|k: int| 0 <= k < cs.len() ==> cs[k].workspace_id != id,
        },
    decreases cs.len(),
{
    if cs.len() > 0 && cs.last().workspace_id != id {
        lemma_color_index(cs.drop_last(), id);
        assert forall|k: int| 0 <= k < cs.len() - 1 implies cs[k] == cs.drop_last()[k] by {}
    }
}

proof fn lemma_unique_index(cs: Seq<ColorView>, id: Seq<char>, k: int)
    requires
        unique_cards(cs),
        0 <= k < cs.len(),
        cs[k].workspace_id == id,
    ensures
        color_index(cs, id) == Some(k),
{
    lemma_color_index(cs, id);
    match color_index(cs, id) {
        Some(i) => {
            if i < k {
                assert(cs[i].workspace_id != cs[k].workspace_id);
            } else if i > k {
                assert(cs[k].workspace_id != cs[i].workspace_id);
            }
        },
        None => {},
    }
}

fn find_color(cs: &Vec<WorkspaceCardColor>, id: &str) -> (r: Option<usize>)
    ensures
        match r {
            Some(k) => color_index(cs@.map_values(|c: WorkspaceCardColor| c@), id@) == Some(k as int),
            None => color_index(cs@.map_values(|c: WorkspaceCardColor| c@), id@) is None,
        },
{
    let ghost v = cs@.map_values(|c: WorkspaceCardColor| c@);
    let mut k: usize = cs.len();
    proof {
        assert(v.subrange(0, k as int) =~= v);
    }
    while k > 0
        invariant
            k <= cs.len(),
            v == cs@.map_values(|c: WorkspaceCardColor| c@),
            color_index(v, id@) == color_index(v.subrange(0, k as int), id@),
        decreases k,
    {
        proof {
            let t = v.subrange(0, k as int);
            assert(t.drop_last() =~= v.subrange(0, k - 1));
            assert(t.last() == cs@[k - 1]@);
        }
        if str_eq(cs[k - 1].workspace_id.as_str(), id) {
            return Some(k - 1);
        }
        k = k - 1;
    }
    None
}

fn copy_color(c: &WorkspaceCardColor) -> (r: WorkspaceCardColor)
    ensures
        r@ == c@,
{
    WorkspaceCardColor {
        workspace_id: c.workspace_id.clone(),
        color: c.color.clone(),
        revision: c.revision,
        updated_at_ms: c.updated_at_ms,
    }
}

fn copy_order(o: &ProjectNavigationOrder) -> (r: ProjectNavigationOrder)
    ensures
        r@ == o@,
{
    ProjectNavigationOrder {
        project_ids: copy_texts(&o.project_ids),
        revision: o.revision,
        updated_at_ms: o.updated_at_ms,
    }
}

impl PreferenceStore {
    /// A store holding the given project order, no colours and no history.
    pub fn new(project_order: ProjectNavigationOrder) -> (r: PreferenceStore)
        ensures
            r.wf(),
            r@.order == project_order@,
            r@.order_history.len() == 0,
            r@.colors.len() == 0,
            r@.color_history.len() == 0,
    {
        PreferenceStore {
            project_order,
            order_history: Vec::new(),
            colors: Vec::new(),
            color_history: Vec::new(),
        }
    }

    /// Reads the preferences: the project order, and the card colours
    /// ordered by workspace id.
    pub fn get(&self) -> (r: DurableUiPreferences)
        requires
            self.wf(),
        ensures
            r.project_order@ == self@.order,
            exists|order: Seq<usize>|
                is_triple_order(card_keys(self@.colors), order) && r.workspace_colors@.map_values(
                    |c: WorkspaceCardColor| c@,
                ) == order.map_values(|i: usize| self@.colors[i as int]),
    {
        let ghost cs = self@.colors;
        let mut keys: Vec<(i128, i128, String)> = Vec::new();
        let mut i: usize = 0;
        while i < self.colors.len()
            invariant
                i <= self.colors.len(),
                cs == self@.colors,
                triple_keys(keys@) == card_keys(cs).subrange(0, i as int),
            decreases self.colors.len() - i,
        {
            let ghost before = triple_keys(keys@);
            keys.push((0, 0, self.colors[i].workspace_id.clone()));
            proof {
                assert(triple_keys(keys@) =~= before.push((0i128, 0i128, cs[i as int].workspace_id)));
                assert(card_keys(cs).subrange(0, i + 1) =~= card_keys(cs).subrange(0, i as int).push(
                    (0i128, 0i128, cs[i as int].workspace_id),
                ));
            }
            i = i + 1;
        }
        proof {
            assert(card_keys(cs).subrange(0, cs.len() as int) =~= card_keys(cs));
        }
        let order = stable_triple_order(&keys);
        let mut out: Vec<WorkspaceCardColor> = Vec::new();
        let mut k: usize = 0;
        while k < order.len()
            invariant
                k <= order@.len(),
                cs == self@.colors,
                is_triple_order(card_keys(cs), order@),
                out@.map_values(|c: WorkspaceCardColor| c@) == order@.subrange(0, k as int).map_values(
                    |i: usize| cs[i as int],
                ),
            decreases order@.len() - k,
        {
            let ghost before = out@.map_values(|c: WorkspaceCardColor| c@);
            assert(order@[k as int] < card_keys(cs).len());
            out.push(copy_color(&self.colors[order[k]]));
            proof {
                assert(out@.map_values(|c: WorkspaceCardColor| c@) =~= before.push(cs[order@[k as int] as int]));
                assert(order@.subrange(0, k + 1).map_values(|i: usize| cs[i as int]) =~= order@.subrange(
                    0,
                    k as int,
                ).map_values(|i: usize| cs[i as int]).push(cs[order@[k as int] as int]));
            }
            k = k + 1;
        }
        proof {
            assert(order@.subrange(0, order@.len() as int) =~= order@);
        }
        DurableUiPreferences { project_order: copy_order(&self.project_order), workspace_colors: out }
    }

    /// Writes the project order, as [`order_update_spec`] says; returns the
    /// stored order.
    pub fn update_project_order(&mut self, input: &UpdateProjectNavigationOrder, now_ms: i64) -> (r: Result<
        ProjectNavigationOrder,
        DurablePreferenceError,
    >)
        requires
            old(self).wf(),
            old(self)@.order.revision < i64::MAX,
        ensures
            final(self).wf(),
            match r {
                Ok(o) => order_update_spec(
                    old(self)@,
                    text_views(input.project_ids@),
                    input.expected_revision,
                    now_ms,
                ) == Ok::<StoreView, DurablePreferenceError>(final(self)@) && o@ == final(self)@.order,
                Err(e) => order_update_spec(
                    old(self)@,
                    text_views(input.project_ids@),
                    input.expected_revision,
                    now_ms,
                ) == Err::<StoreView, DurablePreferenceError>(e) && final(self)@ == old(self)@,
            },
    {
        if self.project_order.revision != input.expected_revision {
            return Err(DurablePreferenceError::Conflict);
        }
        let next = self.project_order.revision + 1;
        let ghost before = self@;
        self.project_order = ProjectNavigationOrder {
            project_ids: copy_texts(&input.project_ids),
            revision: next,
            updated_at_ms: now_ms,
        };
        self.order_history.push((next, copy_texts(&input.project_ids)));
        proof {
            assert(self@.order_history =~= before.order_history.push((next, text_views(input.project_ids@))));
            assert(self@.colors =~= before.colors);
            assert(self@.color_history =~= before.color_history);
        }
        Ok(copy_order(&self.project_order))
    }

    /// Writes (or removes) the colour of a workspace's card, as
    /// [`color_update_spec`] says; returns the stored colour, if any.
    pub fn update_workspace_color(
        &mut self,
        workspace_id: &str,
        input: &UpdateWorkspaceCardColor,
        now_ms: i64,
    ) -> (r: Result<Option<WorkspaceCardColor>, DurablePreferenceError>)
        requires
            old(self).wf(),
            forall|i: int| 0 <= i < old(self)@.colors.len() ==> old(self)@.colors[i].revision < i64::MAX,
        ensures
            final(self).wf(),
            match r {
                Ok(c) => color_update_spec(
                    old(self)@,
                    workspace_id@,
                    opt_text(input.color),
                    input.expected_revision,
                    now_ms,
                ) == Ok::<(StoreView, Option<ColorView>), DurablePreferenceError>(
                    (
                        final(self)@,
                        match c {
                            Some(x) => Some(x@),
                            None => None,
                        },
                    ),
                ),
                Err(e) => color_update_spec(
                    old(self)@,
                    workspace_id@,
                    opt_text(input.color),
                    input.expected_revision,
                    now_ms,
                ) == Err::<(StoreView, Option<ColorView>), DurablePreferenceError>(e) && final(self)@
                    == old(self)@,
            },
    {
        let ghost before = self@;
        let found = find_color(&self.colors, workspace_id);
        proof {
            lemma_color_index(before.colors, workspace_id@);
        }
        let current = match found {
            Some(i) => Some(self.colors[i].revision),
            None => None,
        };
        if current != input.expected_revision {
            return Err(DurablePreferenceError::Conflict);
        }
        let next: i64 = match found {
            Some(i) => self.colors[i].revision + 1,
            None => 1,
        };
        let change = ColorChange {
            workspace_id: String::from_str(workspace_id),
            color: match &input.color {
                Some(c) => Some(c.clone()),
                None => None,
            },
            revision: next,
            deleted: input.color.is_none(),
        };
        let ghost cv = change@;
        let result = match &input.color {
            Some(c) => {
                let v = WorkspaceCardColor {
                    workspace_id: String::from_str(workspace_id),
                    color: c.clone(),
                    revision: next,
                    updated_at_ms: now_ms,
                };
                let ghost vv = v@;
                match found {
                    Some(i) => {
                        self.colors.set(i, v);
                        proof {
                            assert(self@.colors =~= before.colors.update(i as int, vv));
                        }
                    },
                    None => {
                        self.colors.push(v);
                        proof {
                            assert(self@.colors =~= before.colors.push(vv));
                        }
                    },
                }
                Some(copy_color(&self.colors[match found {
                    Some(i) => i,
                    None => self.colors.len() - 1,
                }]))
            },
            None => {
                match found {
                    Some(i) => {
                        self.colors.remove(i);
                        proof {
                            assert(self@.colors =~= before.colors.remove(i as int));
                        }
                    },
                    None => {},
                }
                None
            },
        };
        self.color_history.push(change);
        proof {
            assert(self@.color_history =~= before.color_history.push(cv));
            assert(unique_cards(self@.colors)) by {
                let cs = self@.colors;
                assert forall|a: int, b: int| 0 <= a < b < cs.len() implies cs[a].workspace_id
                    != cs[b].workspace_id by {
                    match found {
                        Some(i) => {
                            if input.color is Some {
                                if a == i {
                                    assert(before.colors[b].workspace_id != before.colors[a].workspace_id);
                                } else if b == i {
                                    assert(before.colors[a].workspace_id != before.colors[b].workspace_id);
                                } else {
                                    assert(before.colors[a].workspace_id != before.colors[b].workspace_id);
                                }
                            } else {
                                let a0 = if a < i { a } else { a + 1 };
                                let b0 = if b < i { b } else { b + 1 };
                                assert(cs[a] == before.colors[a0] && cs[b] == before.colors[b0]);
                                assert(before.colors[a0].workspace_id != before.colors[b0].workspace_id);
                            }
                        },
                        None => {
                            if input.color is Some && b == before.colors.len() {
                                assert(cs[a] == before.colors[a]);
                            } else {
                                assert(cs[a] == before.colors[a] && cs[b] == before.colors[b]);
                            }
                        },
                    }
                }
            }
        }
        Ok(result)
    }
}

/// A write against the revision that an accepted write of the project
/// order replaced is refused: of two writers that read the same revision,
/// only the first succeeds.
pub proof fn lemma_stale_order_write_rejected(
    s: StoreView,
    first: Seq<Seq<char>>,
    second: Seq<Seq<char>>,
    expected: i64,
    t1: i64,
    t2: i64,
)
    requires
        s.order.revision < i64::MAX,
        order_update_spec(s, first, expected, t1) is Ok,
    ensures
        order_update_spec(order_update_spec(s, first, expected, t1)->Ok_0, second, expected, t2)
            == Err::<StoreView, DurablePreferenceError>(DurablePreferenceError::Conflict),
{
}

/// An accepted write of the project order is what the next read shows, and
/// it adds exactly one entry, the new order with its revision, to the
/// history.
pub proof fn lemma_order_read_after_write(s: StoreView, ids: Seq<Seq<char>>, expected: i64, t: i64)
    requires
        s.order.revision < i64::MAX,
        order_update_spec(s, ids, expected, t) is Ok,
    ensures
        ({
            let s1 = order_update_spec(s, ids, expected, t)->Ok_0;
            &&& s1.order.project_ids == ids
            &&& s1.order.revision == s.order.revision + 1
            &&& s1.order_history == s.order_history.push((s1.order.revision, ids))
        }),
{
}

/// Of two writers of a card colour that read the same revision, only the
/// first succeeds, unless the first removed a colour the card did not have
/// (which leaves nothing to conflict with).
pub proof fn lemma_stale_color_write_rejected(
    s: StoreView,
    id: Seq<char>,
    first: Option<Seq<char>>,
    second: Option<Seq<char>>,
    expected: Option<i64>,
    t1: i64,
    t2: i64,
)
    requires
        unique_cards(s.colors),
        forall|i: int| 0 <= i < s.colors.len() ==> s.colors[i].revision < i64::MAX,
        first is Some || color_of(s.colors, id) is Some,
        color_update_spec(s, id, first, expected, t1) is Ok,
    ensures
        color_update_spec(color_update_spec(s, id, first, expected, t1)->Ok_0.0, id, second, expected, t2)
            == Err::<(StoreView, Option<ColorView>), DurablePreferenceError>(DurablePreferenceError::Conflict),
{
    let s1 = color_update_spec(s, id, first, expected, t1)->Ok_0.0;
    lemma_color_index(s.colors, id);
    match color_index(s.colors, id) {
        Some(i) => {
            assert(expected == Some(s.colors[i].revision));
            match first {
                Some(c) => {
                    assert(s1.colors == s.colors.update(i, s1.colors[i]));
                    assert(s1.colors[i].revision == s.colors[i].revision + 1);
                    lemma_unique_index_update(s.colors, i, s1.colors[i]);
                    lemma_unique_index(s1.colors, id, i);
                },
                None => {
                    assert(s1.colors == s.colors.remove(i));
                    assert forall|k: int| 0 <= k < s1.colors.len() implies s1.colors[k].workspace_id != id by {
                        let k0 = if k < i { k } else { k + 1 };
                        assert(s1.colors[k] == s.colors[k0]);
                        if k0 < i {
                            assert(s.colors[k0].workspace_id != s.colors[i].workspace_id);
                        } else {
                            assert(s.colors[i].workspace_id != s.colors[k0].workspace_id);
                        }
                    }
                    lemma_color_index(s1.colors, id);
                },
            }
        },
        None => {
            assert(expected is None);
            match first {
                Some(c) => {
                    let n = s.colors.len();
                    assert(s1.colors == s.colors.push(s1.colors[n as int]));
                    assert(s1.colors[n as int].workspace_id == id);
                    assert(unique_cards(s1.colors)) by {
                        assert forall|a: int, b: int| 0 <= a < b < s1.colors.len() implies s1.colors[a].workspace_id
                            != s1.colors[b].workspace_id by {
                            if b == n {
                                assert(s1.colors[a] == s.colors[a]);
                            } else {
                                assert(s1.colors[a] == s.colors[a] && s1.colors[b] == s.colors[b]);
                            }
                        }
                    }
                    lemma_unique_index(s1.colors, id, n as int);
                },
                None => {},
            }
        },
    }
}

proof fn lemma_unique_index_update(cs: Seq<ColorView>, i: int, v: ColorView)
    requires
        unique_cards(cs),
        0 <= i < cs.len(),
        v.workspace_id == cs[i].workspace_id,
    ensures
        unique_cards(cs.update(i, v)),
{
    let t = cs.update(i, v);
    assert forall|a: int, b: int| 0 <= a < b < t.len() implies t[a].workspace_id != t[b].workspace_id by {
        assert(cs[a].workspace_id != cs[b].workspace_id);
    }
}

} // verus!
