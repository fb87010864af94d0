//! JSON values, as far as the library reads and writes them.
use vstd::prelude::*;

use crate::text::same_text;

verus! {

/// A JSON value. Numbers other than unsigned ones of at most 64 bits are told
/// apart from the rest but not kept.
#[derive(Debug, PartialEq, Eq)]
pub enum Json {
    Null,
    Bool(bool),
    Number(u64),
    OtherNumber,
    Text(String),
    Array(Vec<Json>),
    Object(Vec<(String, Json)>),
}

pub enum JsonView {
    Null,
    Bool(bool),
    Number(u64),
    OtherNumber,
    Text(Seq<char>),
    Array(Seq<JsonView>),
    Object(Seq<(Seq<char>, JsonView)>),
}

impl View for Json {
    type V = JsonView;

    open spec fn view(&self) -> JsonView
        decreases self,
    {
        match self {
            Json::Null => JsonView::Null,
            Json::Bool(value) => JsonView::Bool(*value),
            Json::Number(value) => JsonView::Number(*value),
            Json::OtherNumber => JsonView::OtherNumber,
            Json::Text(text) => JsonView::Text(text@),
            Json::Array(items) => JsonView::Array(
                Seq::new(
                    items@.len(),
                    |i: int|
                        if 0 <= i < items@.len() {
                            items@[i].view()
                        } else {
                            JsonView::Null
                        },
                ),
            ),
            Json::Object(fields) => JsonView::Object(
                Seq::new(
                    fields@.len(),
                    |i: int|
                        if 0 <= i < fields@.len() {
                            (fields@[i].0@, fields@[i].1.view())
                        } else {
                            (Seq::<char>::empty(), JsonView::Null)
                        },
                ),
            ),
        }
    }
}

/// The views of a list of values.
pub open spec fn json_views(items: Seq<Json>) -> Seq<JsonView> {
    items.map_values(|item: Json| item@)
}

/// The views of the fields of an object.
pub open spec fn field_views(fields: Seq<(String, Json)>) -> Seq<(Seq<char>, JsonView)> {
    fields.map_values(|field: (String, Json)| (field.0@, field.1@))
}

/// The view of a value that may be missing.
pub open spec fn json_view(value: Option<&Json>) -> Option<JsonView> {
    match value {
        Some(value) => Some(value@),
        None => None,
    }
}

pub open spec fn text_view(text: Option<&String>) -> Option<Seq<char>> {
    match text {
        Some(text) => Some(text@),
        None => None,
    }
}

pub open spec fn array_view(items: Option<&Vec<Json>>) -> Option<Seq<JsonView>> {
    match items {
        Some(items) => Some(json_views(items@)),
        None => None,
    }
}

pub proof fn lemma_json_views(value: Json)
    ensures
        value is Array ==> value@ == JsonView::Array(json_views(value->Array_0@)),
        value is Object ==> value@ == JsonView::Object(field_views(value->Object_0@)),
{
    reveal_with_fuel(<Json as View>::view, 2);
    match value {
        Json::Array(items) => {
            assert(value@->Array_0 =~= json_views(items@));
        },
        Json::Object(fields) => {
            assert(value@->Object_0 =~= field_views(fields@));
        },
        _ => {},
    }
}

/// The value of the first field with the given name.
pub open spec fn field_of(fields: Seq<(Seq<char>, JsonView)>, name: Seq<char>) -> Option<JsonView>
    decreases fields.len(),
{
    if fields.len() == 0 {
        None
    } else if fields[0].0 == name {
        Some(fields[0].1)
    } else {
        field_of(fields.drop_first(), name)
    }
}

impl JsonView {
    /// The value of a field, where this is an object that has the field.
    pub open spec fn get(self, name: Seq<char>) -> Option<JsonView> {
        match self {
            JsonView::Object(fields) => field_of(fields, name),
            _ => None,
        }
    }

    pub open spec fn text(self) -> Option<Seq<char>> {
        match self {
            JsonView::Text(text) => Some(text),
            _ => None,
        }
    }

    pub open spec fn number(self) -> Option<u64> {
        match self {
            JsonView::Number(value) => Some(value),
            _ => None,
        }
    }

    pub open spec fn array(self) -> Option<Seq<JsonView>> {
        match self {
            JsonView::Array(items) => Some(items),
            _ => None,
        }
    }

    /// The text of a field, where there is such a field and it holds a text.
    pub open spec fn text_at(self, name: Seq<char>) -> Option<Seq<char>> {
        match self.get(name) {
            Some(value) => value.text(),
            None => None,
        }
    }

    /// The number of a field, where there is such a field and it holds one.
    pub open spec fn number_at(self, name: Seq<char>) -> Option<u64> {
        match self.get(name) {
            Some(value) => value.number(),
            None => None,
        }
    }

    /// The items of a field, none where there is no such field or it holds no
    /// array.
    pub open spec fn items_at(self, name: Seq<char>) -> Seq<JsonView> {
        match self.get(name) {
            Some(JsonView::Array(items)) => items,
            _ => Seq::empty(),
        }
    }
}

impl Json {
    /// The value of a field, where this is an object that has the field.
    pub fn get(&self, name: &str) -> (value: Option<&Json>)
        ensures
            json_view(value) == self@.get(name@),
    {
        match self {
            Json::Object(fields) => {
                let ghost views = field_views(fields@);
                proof {
                    lemma_json_views(*self);
                    assert(views.skip(0) =~= views);
                }
                for i in 0..fields.len()
                    invariant
                        views == field_views(fields@),
                        field_of(views, name@) == field_of(views.skip(i as int), name@),
                        self@ == JsonView::Object(views),
                {
                    let field = &fields[i];
                    proof {
                        assert(views.skip(i as int)[0] == (field.0@, field.1@));
                        assert(views.skip(i as int).drop_first() =~= views.skip(i + 1));
                    }
                    if same_text(field.0.as_str(), name) {
                        return Some(&field.1);
                    }
                }
                None
            },
            _ => None,
        }
    }

    pub fn as_str(&self) -> (text: Option<&String>)
        ensures
            text_view(text) == self@.text(),
    {
        match self {
            Json::Text(text) => Some(text),
            _ => None,
        }
    }

    pub fn as_u64(&self) -> (number: Option<u64>)
        ensures
            number == self@.number(),
    {
        match self {
            Json::Number(value) => Some(*value),
            _ => None,
        }
    }

    pub fn as_array(&self) -> (items: Option<&Vec<Json>>)
        ensures
            array_view(items) == self@.array(),
    {
        proof {
            lemma_json_views(*self);
        }
        match self {
            Json::Array(items) => Some(items),
            _ => None,
        }
    }

    /// The text of a field, where there is such a field and it holds a text.
    pub fn str_at(&self, name: &str) -> (text: Option<&String>)
        ensures
            text_view(text) == self@.text_at(name@),
    {
        match self.get(name) {
            Some(value) => value.as_str(),
            None => None,
        }
    }

    /// The number of a field, where there is such a field and it holds one.
    pub fn u64_at(&self, name: &str) -> (number: Option<u64>)
        ensures
            number == self@.number_at(name@),
    {
        match self.get(name) {
            Some(value) => value.as_u64(),
            None => None,
        }
    }

    /// The items of a field, where there is such a field and it holds an array.
    pub fn array_at(&self, name: &str) -> (items: Option<&Vec<Json>>)
        ensures
            self@.items_at(name@) == (match array_view(items) {
                Some(items) => items,
                None => Seq::empty(),
            }),
    {
        match self.get(name) {
            Some(value) => value.as_array(),
            None => None,
        }
    }
}

/// Puts a field behind those of an object.
pub fn put(fields: &mut Vec<(String, Json)>, name: &str, value: Json)
    ensures
        field_views(final(fields)@) == field_views(old(fields)@).push((name@, value@)),
{
    let ghost before = fields@;
    fields.push((name.to_owned(), value));
    assert(field_views(fields@) =~= field_views(before).push((name@, value@)));
}

/// The fields of an object that has none yet.
pub fn no_fields() -> (fields: Vec<(String, Json)>)
    ensures
        field_views(fields@) == Seq::<(Seq<char>, JsonView)>::empty(),
{
    let fields: Vec<(String, Json)> = Vec::new();
    assert(field_views(fields@) =~= Seq::<(Seq<char>, JsonView)>::empty());
    fields
}

/// The object with some fields.
pub fn object(fields: Vec<(String, Json)>) -> (value: Json)
    ensures
        value@ == JsonView::Object(field_views(fields@)),
{
    let value = Json::Object(fields);
    proof {
        lemma_json_views(value);
    }
    value
}

/// The array of some values.
pub fn array(items: Vec<Json>) -> (value: Json)
    ensures
        value@ == JsonView::Array(json_views(items@)),
{
    let value = Json::Array(items);
    proof {
        lemma_json_views(value);
    }
    value
}

/// A field of an object is the value of the first entry with its name; there is
/// none where no entry has the name, nor in anything but an object.
pub proof fn fields_are_found_by_name(
    fields: Seq<(Seq<char>, JsonView)>,
    name: Seq<char>,
    index: int,
)
    requires
        0 <= index <= fields.len(),
        forall|other: int| 0 <= other < index ==> (#[trigger] fields[other]).0 != name,
        index < fields.len() ==> fields[index].0 == name,
    ensures
        index < fields.len() ==> JsonView::Object(fields).get(name) == Some(fields[index].1),
        index == fields.len() ==> JsonView::Object(fields).get(name) is None,
    decreases fields.len(),
{
    if fields.len() > 0 && index > 0 {
        assert(fields[0].0 != name);
        let rest = fields.drop_first();
        assert forall|other: int| 0 <= other < index - 1 implies (#[trigger] rest[other]).0
            != name by {
            assert(rest[other] == fields[other + 1]);
        }
        fields_are_found_by_name(rest, name, index - 1);
    }
}

/// A field is read as a text, a number or a list only where it is one. Nothing
/// but an object has fields.
pub proof fn fields_have_types(value: JsonView, name: Seq<char>)
    ensures
        value.text_at(name) is Some <==> value.get(name) is Some && value.get(name)->0 is Text,
        value.text_at(name) is Some ==> value.get(name) == Some(
            JsonView::Text(value.text_at(name)->0),
        ),
        value.number_at(name) is Some <==> value.get(name) is Some && value.get(name)->0 is Number,
        value.number_at(name) is Some ==> value.get(name) == Some(
            JsonView::Number(value.number_at(name)->0),
        ),
        value.get(name) matches Some(JsonView::Array(items)) ==> value.items_at(name) == items,
        !(value.get(name) matches Some(JsonView::Array(_))) ==> value.items_at(name).len() == 0,
        value.get(name) is Some ==> value is Object,
{
}

} // verus!
