//! TOML values as plain data, with the `toml` crate reading the text.

use vstd::prelude::*;

verus! {

/// `toml::Value`, handed from the function that reads TOML text.
#[verifier::external_type_specification]
#[verifier::external_body]
pub struct ExTomlValue(toml::Value);

/// A TOML value. A table lists its entries in the order of their keys, each
/// key once. Floats and dates are kept as the text that writes them.
#[derive(Debug, PartialEq)]
pub enum TomlValue {
    Text(String),
    Integer(i64),
    Float(String),
    Boolean(bool),
    Datetime(String),
    Array(Vec<TomlValue>),
    Table(Vec<(String, TomlValue)>),
}

/// What a TOML value is.
#[verifier::ext_equal]
pub enum TomlView {
    Text(Seq<char>),
    Integer(i64),
    Float(Seq<char>),
    Boolean(bool),
    Datetime(Seq<char>),
    Array(Seq<TomlView>),
    Table(Seq<(Seq<char>, TomlView)>),
}

/// The view of one value.
pub open spec fn toml_view(value: TomlValue) -> TomlView
    decreases value,
{
    match value {
        TomlValue::Text(s) => TomlView::Text(s@),
        TomlValue::Integer(n) => TomlView::Integer(n),
        TomlValue::Float(s) => TomlView::Float(s@),
        TomlValue::Boolean(b) => TomlView::Boolean(b),
        TomlValue::Datetime(s) => TomlView::Datetime(s@),
        TomlValue::Array(items) => TomlView::Array(toml_items_view(items@)),
        TomlValue::Table(entries) => TomlView::Table(toml_entries_view(entries@)),
    }
}

/// The views of the items of an array.
pub open spec fn toml_items_view(items: Seq<TomlValue>) -> Seq<TomlView>
    decreases items,
{
    if items.len() == 0 {
        seq![]
    } else {
        toml_items_view(items.drop_last()).push(toml_view(items.last()))
    }
}

/// The views of the entries of a table.
pub open spec fn toml_entries_view(entries: Seq<(String, TomlValue)>) -> Seq<
    (Seq<char>, TomlView),
>
    decreases entries,
{
    if entries.len() == 0 {
        seq![]
    } else {
        toml_entries_view(entries.drop_last()).push(
            (entries.last().0@, toml_view(entries.last().1)),
        )
    }
}

impl View for TomlValue {
    type V = TomlView;

    open spec fn view(&self) -> TomlView {
        toml_view(*self)
    }
}

impl TomlValue {
    /// A copy of the value.
    pub fn dup(&self) -> (r: TomlValue)
        ensures
            r@ == self@,
        decreases self,
    {
        match self {
            TomlValue::Text(s) => TomlValue::Text(s.clone()),
            TomlValue::Integer(n) => TomlValue::Integer(*n),
            TomlValue::Float(s) => TomlValue::Float(s.clone()),
            TomlValue::Boolean(b) => TomlValue::Boolean(*b),
            TomlValue::Datetime(s) => TomlValue::Datetime(s.clone()),
            TomlValue::Array(items) => TomlValue::Array(dup_toml_items(items)),
            TomlValue::Table(entries) => TomlValue::Table(dup_toml_entries(entries)),
        }
    }
}

fn dup_toml_items(items: &Vec<TomlValue>) -> (r: Vec<TomlValue>)
    ensures
        toml_items_view(r@) == toml_items_view(items@),
    decreases items,
{
    let mut out: Vec<TomlValue> = Vec::new();
    let mut i: usize = 0;
    while i < items.len()
        invariant
            0 <= i <= items@.len(),
            toml_items_view(out@) == toml_items_view(items@.take(i as int)),
        decreases items@.len() - i,
    {
        let ghost before = out@;
        assert(decreases_to!(items => items@[i as int]));
        out.push(items[i].dup());
        assert(out@.drop_last() =~= before);
        assert(items@.take(i + 1).drop_last() =~= items@.take(i as int));
        i += 1;
    }
    assert(items@.take(i as int) =~= items@);
    out
}

fn dup_toml_entries(entries: &Vec<(String, TomlValue)>) -> (r: Vec<(String, TomlValue)>)
    ensures
        toml_entries_view(r@) == toml_entries_view(entries@),
    decreases entries,
{
    let mut out: Vec<(String, TomlValue)> = Vec::new();
    let mut i: usize = 0;
    while i < entries.len()
        invariant
            0 <= i <= entries@.len(),
            toml_entries_view(out@) == toml_entries_view(entries@.take(i as int)),
        decreases entries@.len() - i,
    {
        let ghost before = out@;
        assert(decreases_to!(entries => entries@[i as int].1));
        out.push((entries[i].0.clone(), entries[i].1.dup()));
        assert(out@.drop_last() =~= before);
        assert(entries@.take(i + 1).drop_last() =~= entries@.take(i as int));
        i += 1;
    }
    assert(entries@.take(i as int) =~= entries@);
    out
}

/// The views of the items of an array, one by one.
pub proof fn lemma_toml_items_view(items: Seq<TomlValue>)
    ensures
        toml_items_view(items).len() == items.len(),
        forall|k: int|
            0 <= k < items.len() ==> #[trigger] toml_items_view(items)[k] == toml_view(items[k]),
    decreases items.len(),
{
    if items.len() > 0 {
        lemma_toml_items_view(items.drop_last());
    }
}

/// The views of the entries of a table, one by one.
pub proof fn lemma_toml_entries_view(entries: Seq<(String, TomlValue)>)
    ensures
        toml_entries_view(entries).len() == entries.len(),
        forall|k: int|
            0 <= k < entries.len() ==> #[trigger] toml_entries_view(entries)[k] == (
                entries[k].0@,
                toml_view(entries[k].1),
            ),
    decreases entries.len(),
{
    if entries.len() > 0 {
        lemma_toml_entries_view(entries.drop_last());
    }
}

/// What a `toml::Value` holds.
pub uninterp spec fn toml_contents(value: toml::Value) -> TomlView;

/// Moves a `toml::Value` over variant by variant; a float and a date are
/// written out by their `Display`.
#[verifier::external_body]
fn from_toml(value: toml::Value) -> (r: TomlValue)
    ensures
        r@ == toml_contents(value),
{
    match value {
        toml::Value::String(s) => TomlValue::Text(s),
        toml::Value::Integer(n) => TomlValue::Integer(n),
        toml::Value::Float(x) => TomlValue::Float(x.to_string()),
        toml::Value::Boolean(b) => TomlValue::Boolean(b),
        toml::Value::Datetime(d) => TomlValue::Datetime(d.to_string()),
        toml::Value::Array(v) => TomlValue::Array(v.into_iter().map(from_toml).collect()),
        toml::Value::Table(t) => {
            TomlValue::Table(t.into_iter().map(|(k, v)| (k, from_toml(v))).collect())
        },
    }
}

/// What reading a text as a TOML document gives: the value, or the reader's
/// message.
pub uninterp spec fn parsed_toml(text: Seq<char>) -> Result<TomlView, Seq<char>>;

/// `toml::from_str` into a `toml::Value`: the document that the text writes,
/// or the `Display` form of the error. Both depend on the text alone.
#[verifier::external_body]
fn read_toml(text: &str) -> (r: Result<toml::Value, String>)
    ensures
        match r {
            Ok(value) => parsed_toml(text@) == Ok::<TomlView, Seq<char>>(toml_contents(value)),
            Err(message) => parsed_toml(text@) == Err::<TomlView, Seq<char>>(message@),
        },
{
    toml::from_str(text).map_err(|e: toml::de::Error| e.to_string())
}

impl TomlValue {
    /// Reads a text as a TOML document.
    pub fn parse(text: &str) -> (r: Result<TomlValue, String>)
        ensures
            match r {
                Ok(value) => parsed_toml(text@) == Ok::<TomlView, Seq<char>>(value@),
                Err(message) => parsed_toml(text@) == Err::<TomlView, Seq<char>>(message@),
            },
    {
        match read_toml(text) {
            Ok(value) => Ok(from_toml(value)),
            Err(message) => Err(message),
        }
    }
}

} // verus!
