//! JSON values as the library reads them: `serde_json` parses the text, and
//! the parsed value is carried over one for one into [`Json`], whose fields
//! the verified code then reads.
use vstd::prelude::*;

verus! {

/// A JSON value: numbers keep the text `serde_json` prints for them, and an
/// object lists its members in the order `serde_json` keeps them (by key,
/// each key once).
pub enum Json {
    Null,
    Bool(bool),
    Number(String),
    Str(String),
    Array(Vec<Json>),
    Object(Vec<(String, Json)>),
}

/// A JSON value as plain values.
pub enum JsonView {
    Null,
    Bool(bool),
    Number(Seq<char>),
    Str(Seq<char>),
    Array(Seq<JsonView>),
    Object(Seq<(Seq<char>, JsonView)>),
}

/// A value as plain values.
pub open spec fn json_view(j: Json) -> JsonView
    decreases j,
{
    match j {
        Json::Null => JsonView::Null,
        Json::Bool(b) => JsonView::Bool(b),
        Json::Number(n) => JsonView::Number(n@),
        Json::Str(s) => JsonView::Str(s@),
        Json::Array(items) => JsonView::Array(items_view(items@)),
        Json::Object(members) => JsonView::Object(members_view(members@)),
    }
}

/// Array elements as plain values.
pub open spec fn items_view(items: Seq<Json>) -> Seq<JsonView>
    decreases items,
{
    if items.len() == 0 {
        Seq::empty()
    } else {
        items_view(items.subrange(0, items.len() - 1)).push(json_view(items[items.len() - 1]))
    }
}

/// Object members as plain values.
pub open spec fn members_view(members: Seq<(String, Json)>) -> Seq<(Seq<char>, JsonView)>
    decreases members,
{
    if members.len() == 0 {
        Seq::empty()
    } else {
        members_view(members.subrange(0, members.len() - 1)).push(
            (members[members.len() - 1].0@, json_view(members[members.len() - 1].1)),
        )
    }
}

/// A value's members: the value of the first member named `key` of an
/// object (`serde_json` keeps each key once), `None` for anything else.
pub open spec fn member(v: JsonView, key: Seq<char>) -> Option<JsonView> {
    match v {
        JsonView::Object(ms) => member_of(ms, key),
        _ => None,
    }
}

/// The value of the first of `ms` named `key`.
pub open spec fn member_of(ms: Seq<(Seq<char>, JsonView)>, key: Seq<char>) -> Option<JsonView>
    decreases ms.len(),
{
    if ms.len() == 0 {
        None
    } else if ms[0].0 == key {
        Some(ms[0].1)
    } else {
        member_of(ms.drop_first(), key)
    }
}

/// The text of a string value.
pub open spec fn as_text(v: Option<JsonView>) -> Option<Seq<char>> {
    match v {
        Some(JsonView::Str(s)) => Some(s),
        _ => None,
    }
}

/// The flag of a boolean value.
pub open spec fn as_flag(v: Option<JsonView>) -> Option<bool> {
    match v {
        Some(JsonView::Bool(b)) => Some(b),
        _ => None,
    }
}

/// Each value's text where it is a string.
pub open spec fn texts_of(vs: Seq<JsonView>) -> Seq<Option<Seq<char>>> {
    vs.map_values(|v: JsonView| as_text(Some(v)))
}

/// The views of a list of members, element by element.
pub proof fn lemma_members_view(ms: Seq<(String, Json)>)
    ensures
        members_view(ms).len() == ms.len(),
        forall|i: int| 0 <= i < ms.len() ==> #[trigger] members_view(ms)[i] == (ms[i].0@, json_view(ms[i].1)),
    decreases ms.len(),
{
    if ms.len() > 0 {
        let front = ms.subrange(0, ms.len() - 1);
        lemma_members_view(front);
        assert forall|i: int| 0 <= i < ms.len() implies #[trigger] members_view(ms)[i] == (
            ms[i].0@,
            json_view(ms[i].1),
        ) by {
            if i < ms.len() - 1 {
                assert(front[i] == ms[i]);
            }
        }
    }
}

/// The views of a list of elements, element by element.
pub proof fn lemma_items_view(items: Seq<Json>)
    ensures
        items_view(items).len() == items.len(),
        forall|i: int| 0 <= i < items.len() ==> #[trigger] items_view(items)[i] == json_view(items[i]),
    decreases items.len(),
{
    if items.len() > 0 {
        let front = items.subrange(0, items.len() - 1);
        lemma_items_view(front);
        assert forall|i: int| 0 <= i < items.len() implies #[trigger] items_view(items)[i] == json_view(items[i]) by {
            if i < items.len() - 1 {
                assert(front[i] == items[i]);
            }
        }
    }
}

proof fn lemma_member_of_from(ms: Seq<(Seq<char>, JsonView)>, key: Seq<char>, i: int)
    requires
        0 <= i <= ms.len(),
        forall|k: int| 0 <= k < i ==> ms[k].0 != key,
    ensures
        member_of(ms, key) == member_of(ms.subrange(i, ms.len() as int), key),
    decreases i,
{
    if i > 0 {
        assert(ms[0].0 != key);
        let rest = ms.drop_first();
        assert forall|k: int| 0 <= k < i - 1 implies rest[k].0 != key by {
            assert(rest[k] == ms[k + 1]);
        }
        lemma_member_of_from(rest, key, i - 1);
        assert(rest.subrange(i - 1, rest.len() as int) =~= ms.subrange(i, ms.len() as int));
    } else {
        assert(ms.subrange(0, ms.len() as int) =~= ms);
    }
}

/// The value of the member `key` of `j`, as [`member`] says.
pub fn get_member<'a>(j: &'a Json, key: &str) -> (r: Option<&'a Json>)
    ensures
        match r {
            Some(x) => member(json_view(*j), key@) == Some(json_view(*x)),
            None => member(json_view(*j), key@) is None,
        },
{
    match j {
        Json::Object(members) => {
            let ghost mv = members_view(members@);
            proof {
                lemma_members_view(members@);
                assert(json_view(*j) == JsonView::Object(mv));
            }
            let mut i: usize = 0;
            while i < members.len()
                invariant
                    i <= members@.len(),
                    mv == members_view(members@),
                    json_view(*j) == JsonView::Object(mv),
                    mv.len() == members@.len(),
                    forall|k: int| 0 <= k < members@.len() ==> #[trigger] mv[k] == (members@[k].0@, json_view(members@[k].1)),
                    forall|k: int| 0 <= k < i ==> mv[k].0 != key@,
                decreases members@.len() - i,
            {
                if crate::text::str_eq(members[i].0.as_str(), key) {
                    proof {
                        lemma_member_of_from(mv, key@, i as int);
                        let rest = mv.subrange(i as int, mv.len() as int);
                        assert(rest[0] == mv[i as int]);
                        assert(mv[i as int].0 == key@);
                        assert(member_of(rest, key@) == Some(mv[i as int].1));
                        assert(json_view(*j) == JsonView::Object(mv));
                    }
                    return Some(&members[i].1);
                }
                i = i + 1;
            }
            proof {
                lemma_member_of_from(mv, key@, i as int);
                assert(mv.subrange(i as int, mv.len() as int).len() == 0);
                assert(json_view(*j) == JsonView::Object(mv));
            }
            None
        },
        _ => None,
    }
}

/// The text of a string value, as [`as_text`] says.
pub fn text_value(v: Option<&Json>) -> (r: Option<String>)
    ensures
        match r {
            Some(s) => match v {
                Some(j) => as_text(Some(json_view(*j))) == Some(s@),
                None => false,
            },
            None => match v {
                Some(j) => as_text(Some(json_view(*j))) is None,
                None => true,
            },
        },
{
    match v {
        Some(Json::Str(s)) => Some(s.clone()),
        _ => None,
    }
}

/// What `serde_json` parses `text` into, as plain values; `None` where the
/// text is not JSON.
pub uninterp spec fn json_text(text: Seq<char>) -> Option<JsonView>;

/// `serde_json::Value`, which only the parser below handles.
#[verifier::external_type_specification]
#[verifier::external_body]
pub struct ExJsonValue(serde_json::Value);

/// `serde_json::from_str::<serde_json::Value>`, carried over into
/// [`Json`]: the parsed value is named [`json_text`].
#[verifier::external_body]
pub(crate) fn parse_json(text: &str) -> (r: Option<Json>)
    ensures
        match r {
            Some(j) => json_text(text@) == Some(json_view(j)),
            None => json_text(text@) is None,
        },
{
    match serde_json::from_str::<serde_json::Value>(text) {
        Ok(v) => Some(from_serde(v)),
        Err(_) => None,
    }
}

/// Carries a `serde_json::Value` over into [`Json`], one variant for one
/// (the conversion the parser above ends with).
#[verifier::external_body]
fn from_serde(v: serde_json::Value) -> Json {
    match v {
        serde_json::Value::Null => Json::Null,
        serde_json::Value::Bool(b) => Json::Bool(b),
        serde_json::Value::Number(n) => Json::Number(n.to_string()),
        serde_json::Value::String(s) => Json::Str(s),
        serde_json::Value::Array(a) => Json::Array(a.into_iter().map(from_serde).collect()),
        serde_json::Value::Object(m) => Json::Object(m.into_iter().map(|(k, x)| (k, from_serde(x))).collect()),
    }
}

} // verus!
