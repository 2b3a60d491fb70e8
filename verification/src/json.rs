//! JSON values.

use crate::text;
use vstd::prelude::*;

verus! {

/// A JSON value. A number is kept as its text.
pub enum Json {
    Null,
    Bool(bool),
    Number(String),
    Text(String),
    List(Vec<Json>),
    Object(Vec<(String, Json)>),
}

/// What a JSON value is.
pub enum JsonView {
    Null,
    Bool(bool),
    Number(Seq<char>),
    Text(Seq<char>),
    List(Seq<JsonView>),
    Object(Seq<(Seq<char>, JsonView)>),
}

#[verifier::external_type_specification]
#[verifier::external_body]
pub struct ExValue(serde_json::Value);

/// The value that a text of these bytes stands for, or nothing if they are no
/// JSON. Of two members of one name the later one counts.
pub uninterp spec fn parsed_json(bytes: Seq<u8>) -> Option<JsonView>;

/// `serde_json::from_slice`, with the value moved over part by part.
#[verifier::external_body]
pub(crate) fn parse_json(bytes: &[u8]) -> (value: Option<Json>)
    ensures
        match value {
            Some(value) => parsed_json(bytes@) == Some(value@),
            None => parsed_json(bytes@) is None,
        },
{
    serde_json::from_slice(bytes).ok().map(moved)
}

/// A `serde_json::Value`, variant by variant. Of the result nothing is claimed.
#[verifier::external_body]
fn moved(value: serde_json::Value) -> (json: Json) {
    match value {
        serde_json::Value::Null => Json::Null,
        serde_json::Value::Bool(answer) => Json::Bool(answer),
        serde_json::Value::Number(number) => Json::Number(number.to_string()),
        serde_json::Value::String(text) => Json::Text(text),
        serde_json::Value::Array(items) => Json::List(items.into_iter().map(moved).collect()),
        serde_json::Value::Object(members) => Json::Object(
            members.into_iter().map(|(name, value)| (name, moved(value))).collect(),
        ),
    }
}

/// The value of the first member with a name.
pub open spec fn first_member(members: Seq<(Seq<char>, JsonView)>, name: Seq<char>) -> Option<
    JsonView,
>
    decreases members.len(),
{
    if members.len() == 0 {
        None
    } else if members[0].0 == name {
        Some(members[0].1)
    } else {
        first_member(members.drop_first(), name)
    }
}

impl JsonView {
    /// The member of an object.
    pub open spec fn member(self, name: Seq<char>) -> Option<JsonView> {
        match self {
            JsonView::Object(members) => first_member(members, name),
            _ => None,
        }
    }

    pub open spec fn as_text(self) -> Option<Seq<char>> {
        match self {
            JsonView::Text(text) => Some(text),
            _ => None,
        }
    }

    /// The text of a member of an object.
    pub open spec fn text_member(self, name: Seq<char>) -> Option<Seq<char>> {
        match self.member(name) {
            Some(value) => value.as_text(),
            None => None,
        }
    }
}

pub open spec fn item_views(items: Seq<Json>) -> Seq<JsonView>
    decreases items,
{
    if items.len() == 0 {
        Seq::empty()
    } else {
        item_views(items.drop_last()).push(items.last().view())
    }
}

pub open spec fn member_views(members: Seq<(String, Json)>) -> Seq<(Seq<char>, JsonView)>
    decreases members,
{
    if members.len() == 0 {
        Seq::empty()
    } else {
        member_views(members.drop_last()).push((members.last().0@, members.last().1.view()))
    }
}

pub proof fn lemma_item_views(items: Seq<Json>)
    ensures
        item_views(items).len() == items.len(),
        forall|i: int| 0 <= i < items.len() ==> #[trigger] item_views(items)[i] == items[i].view(),
    decreases items.len(),
{
    if items.len() > 0 {
        lemma_item_views(items.drop_last());
    }
}

pub proof fn lemma_member_views(members: Seq<(String, Json)>)
    ensures
        member_views(members).len() == members.len(),
        forall|i: int|
            0 <= i < members.len() ==> #[trigger] member_views(members)[i] == (
                members[i].0@,
                members[i].1.view(),
            ),
    decreases members.len(),
{
    if members.len() > 0 {
        lemma_member_views(members.drop_last());
    }
}

impl Json {
    pub open spec fn view(self) -> JsonView
        decreases self,
    {
        match self {
            Json::Null => JsonView::Null,
            Json::Bool(answer) => JsonView::Bool(answer),
            Json::Number(number) => JsonView::Number(number@),
            Json::Text(text) => JsonView::Text(text@),
            Json::List(items) => JsonView::List(item_views(items@)),
            Json::Object(members) => JsonView::Object(member_views(members@)),
        }
    }

    /// The member of an object.
    pub fn get(&self, name: &str) -> (value: Option<&Json>)
        ensures
            match value {
                Some(value) => self@.member(name@) == Some(value@),
                None => self@.member(name@) is None,
            },
    {
        let members = match self {
            Json::Object(members) => members,
            _ => return None,
        };
        let ghost all = member_views(members@);
        proof {
            lemma_member_views(members@);
        }
        let mut i: usize = 0;
        assert(all.skip(0) =~= all);
        while i < members.len()
            invariant
                i <= members@.len() == all.len(),
                self@ == JsonView::Object(all),
                forall|j: int|
                    0 <= j < all.len() ==> #[trigger] all[j] == (
                        members@[j].0@,
                        members@[j].1.view(),
                    ),
                first_member(all, name@) == first_member(all.skip(i as int), name@),
            decreases members.len() - i,
        {
            assert(all.skip(i as int)[0] == all[i as int]);
            assert(all.skip(i as int).drop_first() =~= all.skip(i + 1));
            if text::same(members[i].0.as_str(), name) {
                return Some(&members[i].1);
            }
            i += 1;
        }
        None
    }

    /// The text of a member of an object.
    pub fn get_text(&self, name: &str) -> (text: Option<&str>)
        ensures
            match text {
                Some(text) => self@.text_member(name@) == Some(text@),
                None => self@.text_member(name@) is None,
            },
    {
        match self.get(name) {
            Some(Json::Text(text)) => Some(text.as_str()),
            _ => None,
        }
    }
}

} // verus!
