//! Reading the fields of JSON objects into plain values, with a message where
//! a field is missing or is not what it should be.

use vstd::prelude::*;

use crate::json::{item_views, lemma_item_views, Json, JsonView};
use crate::text::{cat3, views};

verus! {

/// The message for a field that must be there.
pub open spec fn missing_field(key: Seq<char>) -> Seq<char> {
    "missing field `"@ + key + "`"@
}

/// The message for a field that is not `kind`.
pub open spec fn wrong_type(key: Seq<char>, kind: Seq<char>) -> Seq<char> {
    "field `"@ + key + "` must be "@ + kind
}

/// The message for an array that is too short or too long to write a record.
pub const WRONG_LENGTH: &'static str = "an array of fields must hold all that are required and no more than there are";

/// The object whose fields, in the order of `names`, are the items.
pub open spec fn named_items(items: Seq<JsonView>, names: Seq<Seq<char>>) -> JsonView
    decreases items.len(),
{
    if items.len() == 0 {
        JsonView::object()
    } else {
        named_items(items.drop_last(), names).with(names[items.len() - 1], items.last())
    }
}

/// What writes a record: an object by the names of its fields, or an array of them
/// in their order, of which at least the first `least` are there.
pub open spec fn record(value: JsonView, names: Seq<Seq<char>>, least: nat) -> Result<
    JsonView,
    Seq<char>,
> {
    match value {
        JsonView::Array(items) => if least <= items.len() <= names.len() {
            Ok(named_items(items, names))
        } else {
            Err(WRONG_LENGTH@)
        },
        other => Ok(other),
    }
}

/// The text that must stand under `key`.
pub open spec fn required_text(value: JsonView, key: Seq<char>) -> Result<Seq<char>, Seq<char>> {
    match value.field(key) {
        None => Err(missing_field(key)),
        Some(JsonView::Text(s)) => Ok(s),
        Some(_) => Err(wrong_type(key, "a string"@)),
    }
}

/// The text that may stand under `key`; `null` counts as nothing.
pub open spec fn optional_text(value: JsonView, key: Seq<char>) -> Result<
    Option<Seq<char>>,
    Seq<char>,
> {
    match value.field(key) {
        None => Ok(None),
        Some(JsonView::Null) => Ok(None),
        Some(JsonView::Text(s)) => Ok(Some(s)),
        Some(_) => Err(wrong_type(key, "a string"@)),
    }
}

/// The truth value that may stand under `key`; `null` counts as nothing.
pub open spec fn optional_flag(value: JsonView, key: Seq<char>) -> Result<
    Option<bool>,
    Seq<char>,
> {
    match value.field(key) {
        None => Ok(None),
        Some(JsonView::Null) => Ok(None),
        Some(JsonView::Bool(b)) => Ok(Some(b)),
        Some(_) => Err(wrong_type(key, "a boolean"@)),
    }
}

/// What stands under `key`; `null` counts as nothing.
pub open spec fn optional_value(value: JsonView, key: Seq<char>) -> Option<JsonView> {
    match value.field(key) {
        None => None,
        Some(JsonView::Null) => None,
        Some(v) => Some(v),
    }
}

/// The message for a field that must be there.
pub fn say_missing(key: &str) -> (r: String)
    ensures
        r@ == missing_field(key@),
{
    cat3("missing field `", key, "`")
}

/// The message for a field that is not `kind`.
pub fn say_wrong_type(key: &str, kind: &str) -> (r: String)
    ensures
        r@ == wrong_type(key@, kind@),
{
    let mut out = cat3("field `", key, "` must be ");
    out.append(kind);
    out
}

/// The object that an array of fields stands for.
pub fn name_items(items: &Vec<Json>, names: &Vec<String>, least: usize) -> (r: Result<
    Json,
    String,
>)
    ensures
        match r {
            Ok(value) => record(JsonView::Array(item_views(items@)), views(names@), least as nat)
                == Ok::<JsonView, Seq<char>>(value@),
            Err(e) => record(JsonView::Array(item_views(items@)), views(names@), least as nat)
                == Err::<JsonView, Seq<char>>(e@),
        },
{
    let ghost all = item_views(items@);
    proof {
        lemma_item_views(items@);
    }
    if items.len() < least || items.len() > names.len() {
        return Err(WRONG_LENGTH.to_owned());
    }
    let mut out = Json::object();
    let mut i: usize = 0;
    assert(all.take(0) =~= seq![]);
    while i < items.len()
        invariant
            0 <= i <= items@.len() <= names@.len(),
            all == item_views(items@),
            out@ == named_items(all.take(i as int), views(names@)),
        decreases items@.len() - i,
    {
        proof {
            lemma_item_views(items@);
            assert(all.take(i + 1).drop_last() =~= all.take(i as int));
            assert(all.take(i + 1).last() == items@[i as int]@);
            assert(views(names@)[i as int] == names@[i as int]@);
        }
        out = out.with(&names[i], items[i].dup());
        i += 1;
    }
    assert(all.take(i as int) =~= all);
    Ok(out)
}

/// The text that must stand under `key`.
pub fn read_text(value: &Json, key: &str) -> (r: Result<String, String>)
    ensures
        match r {
            Ok(s) => required_text(value@, key@) == Ok::<Seq<char>, Seq<char>>(s@),
            Err(e) => required_text(value@, key@) == Err::<Seq<char>, Seq<char>>(e@),
        },
{
    match value.get(key) {
        None => Err(say_missing(key)),
        Some(Json::Text(s)) => Ok(s.clone()),
        Some(_) => Err(say_wrong_type(key, "a string")),
    }
}

/// The text that may stand under `key`; `null` counts as nothing.
pub fn read_optional_text(value: &Json, key: &str) -> (r: Result<Option<String>, String>)
    ensures
        match r {
            Ok(Some(s)) => optional_text(value@, key@) == Ok::<Option<Seq<char>>, Seq<char>>(
                Some(s@),
            ),
            Ok(None) => optional_text(value@, key@) == Ok::<Option<Seq<char>>, Seq<char>>(None),
            Err(e) => optional_text(value@, key@) == Err::<Option<Seq<char>>, Seq<char>>(e@),
        },
{
    match value.get(key) {
        None => Ok(None),
        Some(Json::Null) => Ok(None),
        Some(Json::Text(s)) => Ok(Some(s.clone())),
        Some(_) => Err(say_wrong_type(key, "a string")),
    }
}

/// The truth value that may stand under `key`; `null` counts as nothing.
pub fn read_optional_flag(value: &Json, key: &str) -> (r: Result<Option<bool>, String>)
    ensures
        match r {
            Ok(b) => optional_flag(value@, key@) == Ok::<Option<bool>, Seq<char>>(b),
            Err(e) => optional_flag(value@, key@) == Err::<Option<bool>, Seq<char>>(e@),
        },
{
    match value.get(key) {
        None => Ok(None),
        Some(Json::Null) => Ok(None),
        Some(Json::Bool(b)) => Ok(Some(*b)),
        Some(_) => Err(say_wrong_type(key, "a boolean")),
    }
}

/// What stands under `key`; `null` counts as nothing.
pub fn read_optional_value(value: &Json, key: &str) -> (r: Option<Json>)
    ensures
        match r {
            Some(v) => optional_value(value@, key@) == Some(v@),
            None => optional_value(value@, key@) is None,
        },
{
    match value.get(key) {
        None => None,
        Some(Json::Null) => None,
        Some(v) => Some(v.dup()),
    }
}

proof fn lemma_named_items(items: Seq<JsonView>, names: Seq<Seq<char>>)
    requires
        names.no_duplicates(),
        items.len() <= names.len(),
    ensures
        named_items(items, names) is Object,
        forall|i: int|
            0 <= i < items.len() ==> named_items(items, names).field(#[trigger] names[i]) == Some(
                items[i],
            ),
        forall|key: Seq<char>|
            !names.take(items.len() as int).contains(key) ==> #[trigger] named_items(
                items,
                names,
            ).field(key) is None,
    decreases items.len(),
{
    if items.len() > 0 {
        let front = items.drop_last();
        let last = items.len() - 1;
        lemma_named_items(front, names);
        let whole = named_items(items, names);
        assert forall|i: int| 0 <= i < items.len() implies whole.field(#[trigger] names[i]) == Some(
            items[i],
        ) by {
            if i < last {
                assert(names[i] != names[last]);
                assert(front[i] == items[i]);
            }
        }
        assert forall|key: Seq<char>| !names.take(items.len() as int).contains(key) implies
            #[trigger] whole.field(key) is None by {
            assert(names.take(items.len() as int)[last] == names[last]);
            if names.take(last).contains(key) {
                let i = choose|i: int| 0 <= i < last && names.take(last)[i] == key;
                assert(names.take(items.len() as int)[i] == key);
            }
            assert(named_items(front, names).field(key) is None);
        }
    }
}

/// A record may be written as the list of its fields in order: each item is then the
/// field at its place, and what is not in the list is not there. The list must hold
/// what is required and no more than there is.
pub proof fn lemma_records(value: JsonView, names: Seq<Seq<char>>, least: nat)
    requires
        names.no_duplicates(),
    ensures
        value matches JsonView::Array(items) ==> match record(value, names, least) {
            Ok(done) => {
                &&& least <= items.len() <= names.len()
                &&& forall|i: int|
                    0 <= i < items.len() ==> done.field(#[trigger] names[i]) == Some(items[i])
                &&& forall|i: int|
                    items.len() <= i < names.len() ==> done.field(#[trigger] names[i]) is None
            },
            Err(_) => items.len() < least || names.len() < items.len(),
        },
        !(value is Array) ==> record(value, names, least) == Ok::<JsonView, Seq<char>>(value),
{
    match value {
        JsonView::Array(items) => {
            if least <= items.len() <= names.len() {
                lemma_named_items(items, names);
                let done = named_items(items, names);
                assert forall|i: int| items.len() <= i < names.len() implies done.field(
                    #[trigger] names[i],
                ) is None by {
                    let first = names.take(items.len() as int);
                    if first.contains(names[i]) {
                        let j = choose|j: int| 0 <= j < first.len() && first[j] == names[i];
                        assert(names[j] == names[i]);
                    }
                }
            }
        },
        _ => {},
    }
}

/// A field is read as what it holds: one that must be there is an error where it is
/// not, one that may be there is left out where it is not or where it is null, and
/// one that holds something else is an error. The error names the field.
pub proof fn lemma_fields_are_read(value: JsonView, key: Seq<char>)
    ensures
        match value.field(key) {
            None => required_text(value, key) is Err && optional_text(value, key) == Ok::<
                Option<Seq<char>>,
                Seq<char>,
            >(None) && optional_flag(value, key) == Ok::<Option<bool>, Seq<char>>(None)
                && optional_value(value, key) is None,
            Some(JsonView::Null) => required_text(value, key) is Err && optional_text(value, key)
                == Ok::<Option<Seq<char>>, Seq<char>>(None) && optional_flag(value, key) == Ok::<
                Option<bool>,
                Seq<char>,
            >(None) && optional_value(value, key) is None,
            Some(JsonView::Text(s)) => required_text(value, key) == Ok::<Seq<char>, Seq<char>>(s)
                && optional_text(value, key) == Ok::<Option<Seq<char>>, Seq<char>>(Some(s))
                && optional_flag(value, key) is Err && optional_value(value, key) == Some(
                JsonView::Text(s),
            ),
            Some(JsonView::Bool(b)) => required_text(value, key) is Err && optional_text(
                value,
                key,
            ) is Err && optional_flag(value, key) == Ok::<Option<bool>, Seq<char>>(Some(b))
                && optional_value(value, key) == Some(JsonView::Bool(b)),
            Some(other) => required_text(value, key) is Err && optional_text(value, key) is Err
                && optional_flag(value, key) is Err && optional_value(value, key) == Some(other),
        },
        required_text(value, key) matches Err(e) ==> names_field(e, key),
        optional_text(value, key) matches Err(e) ==> names_field(e, key),
        optional_flag(value, key) matches Err(e) ==> names_field(e, key),
{
    lemma_names_field("missing field "@, key, ""@);
    lemma_names_field("field "@, key, " must be a string"@);
    lemma_names_field("field "@, key, " must be a boolean"@);
    reveal_strlit("missing field `");
    reveal_strlit("missing field ");
    reveal_strlit("field `");
    reveal_strlit("field ");
    reveal_strlit("`");
    reveal_strlit("");
    reveal_strlit("` must be ");
    reveal_strlit(" must be a string");
    reveal_strlit(" must be a boolean");
    reveal_strlit("a string");
    reveal_strlit("a boolean");
    assert("missing field "@ + "`"@ + key + "`"@ + ""@ =~= missing_field(key));
    assert("field "@ + "`"@ + key + "`"@ + " must be a string"@ =~= wrong_type(key, "a string"@));
    assert("field "@ + "`"@ + key + "`"@ + " must be a boolean"@ =~= wrong_type(key, "a boolean"@));
}

/// Whether a message quotes the name of a field.
pub open spec fn names_field(message: Seq<char>, key: Seq<char>) -> bool {
    exists|before: Seq<char>, after: Seq<char>|
        message == #[trigger] (before + "`"@ + key + "`"@ + after)
}

proof fn lemma_names_field(before: Seq<char>, key: Seq<char>, after: Seq<char>)
    ensures
        names_field(before + "`"@ + key + "`"@ + after, key),
{
}

} // verus!
