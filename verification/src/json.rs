//! JSON documents, read by `serde_json` and held as a tree of this crate's
//! own, so that what reads them can be verified.

use vstd::prelude::*;
use crate::error::{Error, ErrorView};
use crate::text::same_text;

verus! {

/// A JSON value.
#[derive(Debug, PartialEq, Eq)]
pub enum Json {
    Null,
    Bool(bool),
    /// A number, as text: the literal that the reader kept of it.
    Number(String),
    Text(String),
    Array(Vec<Json>),
    /// The members of an object, each with its name.
    Object(Vec<(String, Json)>),
}

/// A [`Json`] as a mathematical value.
pub enum JsonView {
    Null,
    Bool(bool),
    Number(Seq<char>),
    Text(Seq<char>),
    Array(Seq<JsonView>),
    Object(Seq<MemberView>),
}

/// A member of an object as a mathematical value.
pub struct MemberView {
    pub name: Seq<char>,
    pub value: JsonView,
}

/// The views of the members of an object.
pub open spec fn member_views(members: Seq<(String, Json)>) -> Seq<MemberView> {
    Seq::new(members.len(), |i: int| MemberView { name: members[i].0@, value: members[i].1@ })
}

/// The views of the items of an array.
pub open spec fn item_views(items: Seq<Json>) -> Seq<JsonView> {
    Seq::new(items.len(), |i: int| items[i]@)
}

impl View for Json {
    type V = JsonView;

    open spec fn view(&self) -> JsonView
        decreases self,
    {
        match self {
            Json::Null => JsonView::Null,
            Json::Bool(b) => JsonView::Bool(*b),
            Json::Number(literal) => JsonView::Number(literal@),
            Json::Text(text) => JsonView::Text(text@),
            Json::Array(items) => JsonView::Array(
                Seq::new(
                    items.len() as nat,
                    |i: int|
                        if 0 <= i < items.len() {
                            items[i]@
                        } else {
                            JsonView::Null
                        },
                ),
            ),
            Json::Object(members) => JsonView::Object(
                Seq::new(
                    members.len() as nat,
                    |i: int|
                        if 0 <= i < members.len() {
                            MemberView { name: members[i].0@, value: members[i].1@ }
                        } else {
                            MemberView { name: Seq::empty(), value: JsonView::Null }
                        },
                ),
            ),
        }
    }
}

/// The view of an array is the views of its items, that of an object the
/// views of its members.
pub proof fn lemma_json_view(json: Json)
    ensures
        json matches Json::Array(items) ==> json@ == JsonView::Array(item_views(items@)),
        json matches Json::Object(members) ==> json@ == JsonView::Object(member_views(members@)),
{
    match json {
        Json::Array(items) => {
            assert(json@->Array_0 =~= item_views(items@));
        },
        Json::Object(members) => {
            assert(json@->Object_0 =~= member_views(members@));
        },
        _ => {},
    }
}

/// `serde_json::Value`, made known as a type. Nothing is said of what a
/// value of it holds.
#[verifier::external_type_specification]
#[verifier::external_body]
pub struct ExJsonValue(serde_json::Value);

/// What `serde_json::from_str` makes of `text`: the value that the document
/// holds, or the message with which it refuses the text.
pub uninterp spec fn json_document(text: Seq<char>) -> Result<JsonView, Seq<char>>;

/// Variant by variant, the `serde_json::Value` as a [`Json`]. A number
/// becomes what `Number::to_string` gives, the members of an object come in
/// the order of `Map::into_iter`. Nothing is claimed of the result here: it
/// is part of what [`read_document`] gives a name to.
#[verifier::external_body]
fn json_from_value(value: serde_json::Value) -> Json {
    match value {
        serde_json::Value::Null => Json::Null,
        serde_json::Value::Bool(b) => Json::Bool(b),
        serde_json::Value::Number(n) => Json::Number(n.to_string()),
        serde_json::Value::String(s) => Json::Text(s),
        serde_json::Value::Array(items) => Json::Array(items.into_iter().map(json_from_value).collect()),
        serde_json::Value::Object(members) => Json::Object(
            members.into_iter().map(|(name, member)| (name, json_from_value(member))).collect(),
        ),
    }
}

/// `serde_json::from_str`, for a `serde_json::Value`, with the error as its
/// `to_string`. The contract claims only that the outcome depends on the
/// text alone: [`json_document`] is the name of what comes back.
#[verifier::external_body]
fn read_document(text: &str) -> (r: Result<Json, String>)
    ensures
        match r {
            Ok(value) => json_document(text@) == Ok::<JsonView, Seq<char>>(value@),
            Err(message) => json_document(text@) == Err::<JsonView, Seq<char>>(message@),
        },
{
    match serde_json::from_str::<serde_json::Value>(text) {
        Ok(value) => Ok(json_from_value(value)),
        Err(error) => Err(error.to_string()),
    }
}

/// What [`parse`] gives for a text, from what the reader made of it.
pub open spec fn parsed(document: Result<JsonView, Seq<char>>) -> Result<JsonView, ErrorView> {
    match document {
        Ok(value) => Ok(value),
        Err(message) => Err(ErrorView::Json(message)),
    }
}

/// Reads a JSON document. Text that is no JSON gives [`Error::JSONError`]
/// with the reader's message.
pub fn parse(text: &str) -> (r: Result<Json, Error>)
    ensures
        match r {
            Ok(value) => parsed(json_document(text@)) == Ok::<JsonView, ErrorView>(value@),
            Err(error) => parsed(json_document(text@)) == Err::<JsonView, ErrorView>(error@),
        },
{
    match read_document(text) {
        Ok(value) => Ok(value),
        Err(message) => Err(Error::JSONError(message)),
    }
}

/// The member of `members` named `name`: the first one, if several are.
pub open spec fn member(members: Seq<MemberView>, name: Seq<char>) -> Option<JsonView>
    decreases members.len(),
{
    if members.len() == 0 {
        None
    } else if members[0].name == name {
        Some(members[0].value)
    } else {
        member(members.drop_first(), name)
    }
}

impl JsonView {
    /// The members, if this is an object.
    pub open spec fn members(self) -> Option<Seq<MemberView>> {
        match self {
            JsonView::Object(members) => Some(members),
            _ => None,
        }
    }

    /// The items, if this is an array.
    pub open spec fn items(self) -> Option<Seq<JsonView>> {
        match self {
            JsonView::Array(items) => Some(items),
            _ => None,
        }
    }

    /// The text, if this is a string.
    pub open spec fn text(self) -> Option<Seq<char>> {
        match self {
            JsonView::Text(text) => Some(text),
            _ => None,
        }
    }

    /// The literal, if this is a number.
    pub open spec fn number(self) -> Option<Seq<char>> {
        match self {
            JsonView::Number(literal) => Some(literal),
            _ => None,
        }
    }
}

impl Json {
    /// The members, if this is an object.
    pub fn members(&self) -> (r: Option<&Vec<(String, Json)>>)
        ensures
            match r {
                Some(members) => self@.members() == Some(member_views(members@)),
                None => self@.members() is None,
            },
    {
        proof {
            lemma_json_view(*self);
        }
        match self {
            Json::Object(members) => Some(members),
            _ => None,
        }
    }

    /// The items, if this is an array.
    pub fn items(&self) -> (r: Option<&Vec<Json>>)
        ensures
            match r {
                Some(items) => self@.items() == Some(item_views(items@)),
                None => self@.items() is None,
            },
    {
        proof {
            lemma_json_view(*self);
        }
        match self {
            Json::Array(items) => Some(items),
            _ => None,
        }
    }

    /// A copy of the text, if this is a string.
    pub fn text(&self) -> (r: Option<String>)
        ensures
            match r {
                Some(text) => self@.text() == Some(text@),
                None => self@.text() is None,
            },
    {
        match self {
            Json::Text(text) => Some(text.clone()),
            _ => None,
        }
    }

    /// A copy of the literal, if this is a number.
    pub fn number(&self) -> (r: Option<String>)
        ensures
            match r {
                Some(literal) => self@.number() == Some(literal@),
                None => self@.number() is None,
            },
    {
        match self {
            Json::Number(literal) => Some(literal.clone()),
            _ => None,
        }
    }

    /// Whether this is `null`.
    pub fn is_null(&self) -> (r: bool)
        ensures
            r == (self@ is Null),
    {
        match self {
            Json::Null => true,
            _ => false,
        }
    }
}

/// Looks a member up by its name.
pub fn find_member<'a>(members: &'a Vec<(String, Json)>, name: &str) -> (r: Option<&'a Json>)
    ensures
        match r {
            Some(value) => member(member_views(members@), name@) == Some(value@),
            None => member(member_views(members@), name@) is None,
        },
{
    let ghost views = member_views(members@);
    let mut i: usize = 0;
    assert(views.skip(0) =~= views);
    while i < members.len()
        invariant
            i <= members.len(),
            views == member_views(members@),
            member(views, name@) == member(views.skip(i as int), name@),
        decreases members.len() - i,
    {
        assert(views.skip(i as int)[0] == views[i as int]);
        if same_text(members[i].0.as_str(), name) {
            return Some(&members[i].1);
        }
        assert(views.skip(i as int).drop_first() =~= views.skip(i + 1));
        i += 1;
    }
    assert(views.skip(members.len() as int) =~= Seq::<MemberView>::empty());
    None
}

} // verus!
