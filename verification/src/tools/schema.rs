//! Building the input schemas that tools advertise.

use vstd::prelude::*;

use crate::json::{json_texts, Json, JsonView};
use crate::text::views;

verus! {

/// The schema of one property.
pub open spec fn property_schema(kind: Seq<char>, description: Seq<char>) -> JsonView {
    JsonView::object().with("type"@, JsonView::Text(kind)).with(
        "description"@,
        JsonView::Text(description),
    )
}

/// The schema of a property that may be of any type.
pub open spec fn any_schema(description: Seq<char>) -> JsonView {
    JsonView::object().with("description"@, JsonView::Text(description))
}

/// The schema of a property that is one of `choices`.
pub open spec fn choice_schema(choices: Seq<Seq<char>>, description: Seq<char>) -> JsonView {
    JsonView::object().with("type"@, JsonView::Text("string"@)).with(
        "enum"@,
        json_texts(choices),
    ).with("description"@, JsonView::Text(description))
}

/// The schema of an object.
pub open spec fn object_schema(properties: JsonView, required: Seq<Seq<char>>) -> JsonView {
    JsonView::object().with("type"@, JsonView::Text("object"@)).with(
        "properties"@,
        properties,
    ).with("required"@, json_texts(required))
}

/// The schema of one property.
pub fn property(kind: &str, description: &str) -> (r: Json)
    ensures
        r@ == property_schema(kind@, description@),
{
    Json::object().with("type", Json::string(kind)).with("description", Json::string(description))
}

/// The schema of a property that may be of any type.
pub fn any(description: &str) -> (r: Json)
    ensures
        r@ == any_schema(description@),
{
    Json::object().with("description", Json::string(description))
}

/// The schema of a property that is one of `choices`.
pub fn choice(choices: &Vec<String>, description: &str) -> (r: Json)
    ensures
        r@ == choice_schema(views(choices@), description@),
{
    Json::object().with("type", Json::string("string")).with("enum", Json::strings(choices)).with(
        "description",
        Json::string(description),
    )
}

fn schema_of(properties: Json, required: &Vec<String>) -> (r: Json)
    ensures
        r@ == object_schema(properties@, views(required@)),
{
    Json::object().with("type", Json::string("object")).with("properties", properties).with(
        "required",
        Json::strings(required),
    )
}

/// The schema of an object with one property that must be there.
pub fn schema1(properties: Json, a: &str) -> (r: Json)
    ensures
        r@ == object_schema(properties@, seq![a@]),
{
    let required: Vec<String> = vec![a.to_owned()];
    assert(views(required@) =~= seq![a@]);
    schema_of(properties, &required)
}

/// The schema of an object with two properties that must be there.
pub fn schema2(properties: Json, a: &str, b: &str) -> (r: Json)
    ensures
        r@ == object_schema(properties@, seq![a@, b@]),
{
    let required: Vec<String> = vec![a.to_owned(), b.to_owned()];
    assert(views(required@) =~= seq![a@, b@]);
    schema_of(properties, &required)
}

/// The schema of an object with three properties that must be there.
pub fn schema3(properties: Json, a: &str, b: &str, c: &str) -> (r: Json)
    ensures
        r@ == object_schema(properties@, seq![a@, b@, c@]),
{
    let required: Vec<String> = vec![a.to_owned(), b.to_owned(), c.to_owned()];
    assert(views(required@) =~= seq![a@, b@, c@]);
    schema_of(properties, &required)
}

/// Whether a schema has a property of a kind.
pub open spec fn takes(schema: JsonView, key: Seq<char>, kind: Seq<char>) -> bool {
    schema.field("properties"@) matches Some(properties) && properties.field(key) matches Some(
        property,
    ) && property.field("type"@) == Some(JsonView::Text(kind))
}

/// Whether a schema has a property of any kind.
pub open spec fn mentions(schema: JsonView, key: Seq<char>) -> bool {
    schema.field("properties"@) matches Some(properties) && properties.field(key) is Some
}

/// Whether a schema asks for an object with these fields at least.
pub open spec fn needs(schema: JsonView, keys: Seq<Seq<char>>) -> bool {
    &&& schema.field("type"@) == Some(JsonView::Text("object"@))
    &&& schema.field("required"@) == Some(json_texts(keys))
}

/// The schema of an object says that it is one, and has the properties and the list
/// of those that are required, as given.
pub proof fn lemma_object_schema(properties: JsonView, required: Seq<Seq<char>>)
    ensures
        object_schema(properties, required).field("properties"@) == Some(properties),
        needs(object_schema(properties, required), required),
{
    reveal_strlit("type");
    reveal_strlit("properties");
    reveal_strlit("required");
    assert("type"@.len() == 4);
    assert("properties"@.len() == 10);
    assert("required"@.len() == 8);
}

/// The schema of a property says its kind and what it is for; that of a choice lists
/// the choices in order.
pub proof fn lemma_property_schema(
    kind: Seq<char>,
    description: Seq<char>,
    choices: Seq<Seq<char>>,
)
    ensures
        property_schema(kind, description).field("type"@) == Some(JsonView::Text(kind)),
        property_schema(kind, description).field("description"@) == Some(
            JsonView::Text(description),
        ),
        any_schema(description).field("type"@) is None,
        any_schema(description).field("description"@) == Some(JsonView::Text(description)),
        choice_schema(choices, description).field("type"@) == Some(JsonView::Text("string"@)),
        choice_schema(choices, description).field("enum"@) matches Some(JsonView::Array(items))
            && items.len() == choices.len() && forall|k: int|
            0 <= k < items.len() ==> #[trigger] items[k] == JsonView::Text(choices[k]),
        choice_schema(choices, description).field("description"@) == Some(
            JsonView::Text(description),
        ),
{
    reveal_strlit("type");
    reveal_strlit("description");
    reveal_strlit("enum");
    assert("type"@.len() == 4);
    assert("description"@.len() == 11);
    assert("enum"@.len() == 4);
    assert("type"@[0] == 't');
    assert("enum"@[0] == 'e');
}

} // verus!
