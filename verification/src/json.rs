//! JSON values as plain data, with `serde_json` reading and writing the text.

use vstd::prelude::*;

use crate::text::{is_blank, same, starts_with};

verus! {

/// `serde_json::Value`, handed between the functions that read and write JSON
/// text.
#[verifier::external_type_specification]
#[verifier::external_body]
pub struct ExValue(serde_json::Value);

/// `serde_json::Number`, carried for numbers that are not integers.
#[verifier::external_type_specification]
#[verifier::external_body]
pub struct ExNumber(serde_json::Number);

/// The clone of a `serde_json::Number` is the same number.
pub assume_specification[ <serde_json::Number as Clone>::clone ](
    number: &serde_json::Number,
) -> (r: serde_json::Number)
    ensures
        r == *number,
;

/// A JSON number that neither `u64` nor `i64` can hold.
#[derive(Debug, PartialEq)]
pub struct FloatNumber {
    number: serde_json::Number,
}

/// A JSON integer below zero.
#[derive(Debug, PartialEq)]
pub struct NegativeNumber {
    value: i64,
}

impl NegativeNumber {
    #[verifier::type_invariant]
    spec fn below_zero(self) -> bool {
        self.value < 0
    }

    /// The integer.
    pub closed spec fn spec_value(self) -> i64 {
        self.value
    }

    /// The number whose integer is `value`.
    pub closed spec fn of(value: i64) -> NegativeNumber {
        NegativeNumber { value }
    }

    /// The number whose integer is `value`.
    pub fn new(value: i64) -> (r: NegativeNumber)
        requires
            value < 0,
        ensures
            r == NegativeNumber::of(value),
    {
        NegativeNumber { value }
    }

    /// The integer.
    pub fn get(&self) -> (r: i64)
        ensures
            r == self.spec_value(),
            r < 0,
    {
        proof {
            use_type_invariant(self);
        }
        self.value
    }

    /// A number has the integer it was made of, and is made of it.
    pub broadcast proof fn lemma_of(value: i64)
        ensures
            (#[trigger] NegativeNumber::of(value)).spec_value() == value,
    {
    }

    fn dup(&self) -> (r: NegativeNumber)
        ensures
            r == *self,
    {
        proof {
            use_type_invariant(self);
        }
        NegativeNumber { value: self.value }
    }
}

/// A JSON number.
#[derive(Debug, PartialEq)]
pub enum JsonNumber {
    /// An integer from zero up.
    Unsigned(u64),
    /// An integer below zero.
    Negative(NegativeNumber),
    /// Anything else.
    Float(FloatNumber),
}

/// A JSON value. An object lists its entries in the order in which they were
/// put in; of two entries with one key the later counts.
#[derive(Debug, PartialEq)]
pub enum Json {
    Null,
    Bool(bool),
    Number(JsonNumber),
    Text(String),
    Array(Vec<Json>),
    Object(Vec<(String, Json)>),
}

/// What a JSON value is, whatever order its entries were put in.
#[verifier::ext_equal]
pub enum JsonView {
    Null,
    Bool(bool),
    Number(JsonNumber),
    Text(Seq<char>),
    Array(Seq<JsonView>),
    Object(Map<Seq<char>, JsonView>),
}

/// The view of one value.
pub open spec fn json_view(value: Json) -> JsonView
    decreases value,
{
    match value {
        Json::Null => JsonView::Null,
        Json::Bool(b) => JsonView::Bool(b),
        Json::Number(n) => JsonView::Number(n),
        Json::Text(s) => JsonView::Text(s@),
        Json::Array(items) => JsonView::Array(item_views(items@)),
        Json::Object(entries) => JsonView::Object(entry_views(entries@)),
    }
}

/// The views of the items of an array.
pub open spec fn item_views(items: Seq<Json>) -> Seq<JsonView>
    decreases items,
{
    if items.len() == 0 {
        seq![]
    } else {
        item_views(items.drop_last()).push(json_view(items.last()))
    }
}

/// The entries of an object by their keys.
pub open spec fn entry_views(entries: Seq<(String, Json)>) -> Map<Seq<char>, JsonView>
    decreases entries,
{
    if entries.len() == 0 {
        Map::empty()
    } else {
        entry_views(entries.drop_last()).insert(entries.last().0@, json_view(entries.last().1))
    }
}

impl View for Json {
    type V = JsonView;

    open spec fn view(&self) -> JsonView {
        json_view(*self)
    }
}

/// The views of the items of an array, one by one.
pub proof fn lemma_item_views(items: Seq<Json>)
    ensures
        item_views(items).len() == items.len(),
        forall|k: int|
            0 <= k < items.len() ==> #[trigger] item_views(items)[k] == json_view(items[k]),
    decreases items.len(),
{
    if items.len() > 0 {
        lemma_item_views(items.drop_last());
    }
}

/// What a `serde_json::Value` holds.
pub uninterp spec fn value_contents(value: serde_json::Value) -> JsonView;

/// Moves a `serde_json::Value` over variant by variant. A number is told
/// apart by `as_u64` and `as_i64`, and kept as it is where neither holds it.
#[verifier::external_body]
fn from_value(value: serde_json::Value) -> (r: Json)
    ensures
        r@ == value_contents(value),
{
    match value {
        serde_json::Value::Null => Json::Null,
        serde_json::Value::Bool(b) => Json::Bool(b),
        serde_json::Value::Number(n) => Json::Number(match (n.as_u64(), n.as_i64()) {
            (Some(u), _) => JsonNumber::Unsigned(u),
            (_, Some(value)) => JsonNumber::Negative(NegativeNumber { value }),
            _ => JsonNumber::Float(FloatNumber { number: n }),
        }),
        serde_json::Value::String(s) => Json::Text(s),
        serde_json::Value::Array(v) => Json::Array(v.into_iter().map(from_value).collect()),
        serde_json::Value::Object(m) => {
            Json::Object(m.into_iter().map(|(k, v)| (k, from_value(v))).collect())
        },
    }
}

/// Moves a value over into a `serde_json::Value`, variant by variant. Of two
/// entries with one key `serde_json::Map` keeps the later.
#[verifier::external_body]
fn to_value(value: &Json) -> (r: serde_json::Value)
    ensures
        value_contents(r) == value@,
{
    match value {
        Json::Null => serde_json::Value::Null,
        Json::Bool(b) => serde_json::Value::Bool(*b),
        Json::Number(JsonNumber::Unsigned(n)) => (*n).into(),
        Json::Number(JsonNumber::Negative(n)) => n.value.into(),
        Json::Number(JsonNumber::Float(n)) => serde_json::Value::Number(n.number.clone()),
        Json::Text(s) => s.as_str().into(),
        Json::Array(v) => serde_json::Value::Array(v.iter().map(to_value).collect()),
        Json::Object(m) => m.iter().map(|(k, v)| (k.clone(), to_value(v))).collect(),
    }
}

/// What reading a text as JSON gives: the value, or the reader's message.
pub uninterp spec fn parsed_json(text: Seq<char>) -> Result<JsonView, Seq<char>>;

/// `serde_json::from_str` into a `serde_json::Value`: the value that the text
/// writes, or the `Display` form of the error. Both depend on the text alone.
#[verifier::external_body]
fn read_value(text: &str) -> (r: Result<serde_json::Value, String>)
    ensures
        match r {
            Ok(value) => parsed_json(text@) == Ok::<JsonView, Seq<char>>(value_contents(value)),
            Err(message) => parsed_json(text@) == Err::<JsonView, Seq<char>>(message@),
        },
{
    serde_json::from_str(text).map_err(|e: serde_json::Error| e.to_string())
}

/// The indented text of a JSON value.
pub uninterp spec fn pretty_json(value: JsonView) -> Seq<char>;

/// `serde_json::to_string_pretty` of a `serde_json::Value`: it has no keys
/// that are not strings, so it does not fail, and it writes the entries of an
/// object in the order of their keys, so the text depends on the contents
/// alone.
#[verifier::external_body]
fn write_pretty(value: &serde_json::Value) -> (r: String)
    ensures
        r@ == pretty_json(value_contents(*value)),
{
    serde_json::to_string_pretty(value).unwrap_or_default()
}

/// The text of a JSON value on one line.
pub uninterp spec fn compact_json(value: JsonView) -> Seq<char>;

/// How deep arrays and objects may nest in a text that is read as JSON.
pub const READABLE_DEPTH: usize = 127;

/// Whether a key belongs to `serde_json` itself, which reads an object with such a
/// key as something else.
pub open spec fn is_reserved(key: Seq<char>) -> bool {
    starts_with(key, "$serde_json::private::"@)
}

/// Whether a value holds no numbers but integers, no object in it has a key that
/// `serde_json` reserves, and arrays and objects nest in it at most `depth` deep.
pub open spec fn is_plain(value: JsonView, depth: nat) -> bool
    decreases depth,
{
    match value {
        JsonView::Number(JsonNumber::Float(_)) => false,
        JsonView::Array(items) => depth > 0 && forall|k: int|
            0 <= k < items.len() ==> is_plain(#[trigger] items[k], (depth - 1) as nat),
        JsonView::Object(entries) => depth > 0 && forall|key: Seq<char>| #[trigger]
            entries.contains_key(key) ==> !is_reserved(key) && is_plain(
            entries[key],
            (depth - 1) as nat,
        ),
        _ => true,
    }
}

/// Whether a text stands on one line, is not blank and, where the value is plain,
/// is read as that value.
pub open spec fn writes(text: Seq<char>, value: JsonView) -> bool {
    &&& !text.contains('\n')
    &&& !is_blank(text)
    &&& is_plain(value, READABLE_DEPTH as nat) ==> parsed_json(text) == Ok::<
        JsonView,
        Seq<char>,
    >(value)
}

/// `serde_json::to_string` of a `serde_json::Value`, on the same grounds as the
/// indented form. It puts nothing between tokens and escapes control characters
/// inside texts, so there is no line break in what it writes.
/// `serde_json::from_str` reads it as the same value, except that a fraction may
/// come back as a neighbouring one, that deeper nesting is refused, and that an
/// object with a key of the crate's own, such as the one by which raw values are
/// passed, is read as what stands under it.
#[verifier::external_body]
fn write_compact(value: &serde_json::Value) -> (r: String)
    ensures
        r@ == compact_json(value_contents(*value)),
        writes(r@, value_contents(*value)),
{
    serde_json::to_string(value).unwrap_or_default()
}

/// The view of the outcome of reading JSON.
pub open spec fn parse_view(r: Result<Json, String>) -> Result<JsonView, Seq<char>> {
    match r {
        Ok(value) => Ok(value@),
        Err(message) => Err(message@),
    }
}

impl JsonView {
    /// The object without entries.
    pub open spec fn object() -> JsonView {
        JsonView::Object(Map::empty())
    }

    /// The object with `value` under `key`; anything else as it is.
    pub open spec fn with(self, key: Seq<char>, value: JsonView) -> JsonView {
        match self {
            JsonView::Object(m) => JsonView::Object(m.insert(key, value)),
            other => other,
        }
    }

    /// What an object holds under `key`.
    pub open spec fn field(self, key: Seq<char>) -> Option<JsonView> {
        match self {
            JsonView::Object(m) => if m.contains_key(key) {
                Some(m[key])
            } else {
                None
            },
            _ => None,
        }
    }

    /// The object without what it holds under `key`; anything else as it is.
    pub open spec fn without(self, key: Seq<char>) -> JsonView {
        match self {
            JsonView::Object(m) => JsonView::Object(m.remove(key)),
            other => other,
        }
    }

    /// The text, where it is one.
    pub open spec fn text(self) -> Option<Seq<char>> {
        match self {
            JsonView::Text(s) => Some(s),
            _ => None,
        }
    }

    /// The integer from zero up, where it is one.
    pub open spec fn unsigned(self) -> Option<u64> {
        match self {
            JsonView::Number(JsonNumber::Unsigned(n)) => Some(n),
            _ => None,
        }
    }

    /// The integer, where it is one that `i32` holds.
    pub open spec fn small_integer(self) -> Option<i32> {
        match self {
            JsonView::Number(JsonNumber::Unsigned(n)) => if n <= i32::MAX {
                Some(n as i32)
            } else {
                None
            },
            JsonView::Number(JsonNumber::Negative(n)) => if n.spec_value() >= i32::MIN {
                Some(n.spec_value() as i32)
            } else {
                None
            },
            _ => None,
        }
    }

    /// The truth value, where it is one.
    pub open spec fn flag(self) -> Option<bool> {
        match self {
            JsonView::Bool(b) => Some(b),
            _ => None,
        }
    }

    /// The text under `key`, where there is one.
    pub open spec fn text_field(self, key: Seq<char>) -> Option<Seq<char>> {
        match self.field(key) {
            Some(v) => v.text(),
            None => None,
        }
    }

    /// The integer from zero up under `key`, where there is one.
    pub open spec fn unsigned_field(self, key: Seq<char>) -> Option<u64> {
        match self.field(key) {
            Some(v) => v.unsigned(),
            None => None,
        }
    }

    /// The truth value under `key`, where there is one.
    pub open spec fn flag_field(self, key: Seq<char>) -> Option<bool> {
        match self.field(key) {
            Some(v) => v.flag(),
            None => None,
        }
    }
}

/// A natural number as JSON.
pub open spec fn json_number(n: u64) -> JsonView {
    JsonView::Number(JsonNumber::Unsigned(n))
}

/// An integer as JSON.
pub open spec fn json_integer(n: i64) -> JsonView {
    if n < 0 {
        JsonView::Number(JsonNumber::Negative(NegativeNumber::of(n)))
    } else {
        json_number(n as u64)
    }
}

/// A list of texts as JSON.
pub open spec fn json_texts(list: Seq<Seq<char>>) -> JsonView {
    JsonView::Array(list.map_values(|s: Seq<char>| JsonView::Text(s)))
}

impl Json {
    /// Reads a text as JSON.
    pub fn parse(text: &str) -> (r: Result<Json, String>)
        ensures
            parse_view(r) == parsed_json(text@),
    {
        match read_value(text) {
            Ok(value) => Ok(from_value(value)),
            Err(message) => Err(message),
        }
    }

    /// The indented text.
    pub fn pretty(&self) -> (r: String)
        ensures
            r@ == pretty_json(self@),
    {
        write_pretty(&to_value(self))
    }

    /// The text on one line.
    pub fn compact(&self) -> (r: String)
        ensures
            r@ == compact_json(self@),
            writes(r@, self@),
    {
        write_compact(&to_value(self))
    }

    /// The object without entries.
    pub fn object() -> (r: Json)
        ensures
            r@ == JsonView::object(),
    {
        Json::Object(Vec::new())
    }

    /// The text as JSON.
    pub fn string(text: &str) -> (r: Json)
        ensures
            r@ == JsonView::Text(text@),
    {
        Json::Text(text.to_owned())
    }

    /// The number as JSON.
    pub fn number(n: u64) -> (r: Json)
        ensures
            r@ == json_number(n),
    {
        Json::Number(JsonNumber::Unsigned(n))
    }

    /// The integer as JSON.
    pub fn integer(n: i64) -> (r: Json)
        ensures
            r@ == json_integer(n),
    {
        if n < 0 {
            Json::Number(JsonNumber::Negative(NegativeNumber::new(n)))
        } else {
            Json::number(n as u64)
        }
    }

    /// The values as a JSON array.
    pub fn array(items: Vec<Json>) -> (r: Json)
        ensures
            r@ == JsonView::Array(crate::text::views(items@)),
    {
        proof {
            lemma_item_views(items@);
            assert(item_views(items@) =~= crate::text::views(items@));
        }
        Json::Array(items)
    }

    /// The texts as a JSON array.
    pub fn strings(list: &Vec<String>) -> (r: Json)
        ensures
            r@ == json_texts(crate::text::views(list@)),
    {
        let mut items: Vec<Json> = Vec::new();
        let mut i: usize = 0;
        while i < list.len()
            invariant
                0 <= i <= list@.len(),
                items@.len() == i,
                forall|k: int| 0 <= k < i ==> (#[trigger] items@[k])@ == JsonView::Text(list@[k]@),
            decreases list@.len() - i,
        {
            items.push(Json::string(list[i].as_str()));
            i += 1;
        }
        proof {
            lemma_item_views(items@);
            let wanted = crate::text::views(list@).map_values(|s: Seq<char>| JsonView::Text(s));
            assert forall|k: int| 0 <= k < items@.len() implies item_views(items@)[k]
                == wanted[k] by {
                assert(items@[k]@ == JsonView::Text(list@[k]@));
            }
            assert(item_views(items@) =~= wanted);
        }
        Json::Array(items)
    }

    /// The object with `value` under `key`; anything else as it is.
    pub fn with(self, key: &str, value: Json) -> (r: Json)
        ensures
            r@ == self@.with(key@, value@),
    {
        match self {
            Json::Object(entries) => {
                let mut entries = entries;
                let ghost before = entries@;
                entries.push((key.to_owned(), value));
                assert(entries@.drop_last() =~= before);
                Json::Object(entries)
            },
            other => other,
        }
    }

    /// What an object holds under `key`.
    pub fn get(&self, key: &str) -> (r: Option<&Json>)
        ensures
            match r {
                Some(v) => self@.field(key@) == Some(v@),
                None => self@.field(key@) is None,
            },
    {
        match self {
            Json::Object(entries) => {
                let mut i: usize = entries.len();
                assert(entries@.take(entries@.len() as int) =~= entries@);
                while i > 0
                    invariant
                        0 <= i <= entries@.len(),
                        self@ == JsonView::Object(entry_views(entries@)),
                        self@.field(key@) == JsonView::Object(
                            entry_views(entries@.take(i as int)),
                        ).field(key@),
                    decreases i,
                {
                    assert(entries@.take(i as int).drop_last() =~= entries@.take(i - 1));
                    if same(entries[i - 1].0.as_str(), key) {
                        return Some(&entries[i - 1].1);
                    }
                    i -= 1;
                }
                None
            },
            _ => None,
        }
    }

    /// The text, where it is one.
    pub fn as_text(&self) -> (r: Option<&String>)
        ensures
            match r {
                Some(s) => self@.text() == Some(s@),
                None => self@.text() is None,
            },
    {
        match self {
            Json::Text(s) => Some(s),
            _ => None,
        }
    }

    /// The integer from zero up, where it is one.
    pub fn as_unsigned(&self) -> (r: Option<u64>)
        ensures
            r == self@.unsigned(),
    {
        match self {
            Json::Number(JsonNumber::Unsigned(n)) => Some(*n),
            _ => None,
        }
    }

    /// The integer, where it is one that `i32` holds.
    pub fn as_small_integer(&self) -> (r: Option<i32>)
        ensures
            r == self@.small_integer(),
    {
        match self {
            Json::Number(JsonNumber::Unsigned(n)) => if *n <= i32::MAX as u64 {
                Some(*n as i32)
            } else {
                None
            },
            Json::Number(JsonNumber::Negative(n)) => {
                let value: i64 = n.get();
                if value >= i32::MIN as i64 {
                    Some(value as i32)
                } else {
                    None
                }
            },
            _ => None,
        }
    }

    /// The truth value, where it is one.
    pub fn as_flag(&self) -> (r: Option<bool>)
        ensures
            r == self@.flag(),
    {
        match self {
            Json::Bool(b) => Some(*b),
            _ => None,
        }
    }

    /// The text under `key`, where there is one.
    pub fn get_text(&self, key: &str) -> (r: Option<&String>)
        ensures
            match r {
                Some(s) => self@.text_field(key@) == Some(s@),
                None => self@.text_field(key@) is None,
            },
    {
        match self.get(key) {
            Some(v) => v.as_text(),
            None => None,
        }
    }

    /// The integer from zero up under `key`, where there is one.
    pub fn get_unsigned(&self, key: &str) -> (r: Option<u64>)
        ensures
            r == self@.unsigned_field(key@),
    {
        match self.get(key) {
            Some(v) => v.as_unsigned(),
            None => None,
        }
    }

    /// The truth value under `key`, where there is one.
    pub fn get_flag(&self, key: &str) -> (r: Option<bool>)
        ensures
            r == self@.flag_field(key@),
    {
        match self.get(key) {
            Some(v) => v.as_flag(),
            None => None,
        }
    }

    /// The object without what it holds under `key`; anything else as it is.
    pub fn without(self, key: &str) -> (r: Json)
        ensures
            r@ == self@.without(key@),
    {
        match self {
            Json::Object(entries) => {
                let mut kept: Vec<(String, Json)> = Vec::new();
                let mut i: usize = 0;
                while i < entries.len()
                    invariant
                        0 <= i <= entries@.len(),
                        entry_views(kept@) == entry_views(entries@.take(i as int)).remove(key@),
                    decreases entries@.len() - i,
                {
                    let ghost before = kept@;
                    let ghost shorter = entry_views(entries@.take(i as int));
                    assert(entries@.take(i + 1).drop_last() =~= entries@.take(i as int));
                    if !same(entries[i].0.as_str(), key) {
                        kept.push((entries[i].0.clone(), entries[i].1.dup()));
                        assert(kept@.drop_last() =~= before);
                        assert(shorter.remove(key@).insert(entries@[i as int].0@, entries@[i as int].1@)
                            =~= shorter.insert(entries@[i as int].0@, entries@[i as int].1@).remove(key@));
                    } else {
                        assert(shorter.remove(key@) =~= shorter.insert(
                            entries@[i as int].0@,
                            entries@[i as int].1@,
                        ).remove(key@));
                    }
                    i += 1;
                }
                assert(entries@.take(i as int) =~= entries@);
                Json::Object(kept)
            },
            other => other,
        }
    }

    /// A copy of the value.
    pub fn dup(&self) -> (r: Json)
        ensures
            r@ == self@,
        decreases self,
    {
        match self {
            Json::Null => Json::Null,
            Json::Bool(b) => Json::Bool(*b),
            Json::Number(JsonNumber::Unsigned(n)) => Json::Number(JsonNumber::Unsigned(*n)),
            Json::Number(JsonNumber::Negative(n)) => Json::Number(JsonNumber::Negative(n.dup())),
            Json::Number(JsonNumber::Float(n)) => Json::Number(
                JsonNumber::Float(FloatNumber { number: n.number.clone() }),
            ),
            Json::Text(s) => Json::Text(s.clone()),
            Json::Array(items) => Json::Array(dup_items(items)),
            Json::Object(entries) => Json::Object(dup_entries(entries)),
        }
    }
}

/// Copies of the items of an array.
pub fn dup_items(items: &Vec<Json>) -> (r: Vec<Json>)
    ensures
        item_views(r@) == item_views(items@),
    decreases items,
{
    let mut out: Vec<Json> = Vec::new();
    let mut i: usize = 0;
    while i < items.len()
        invariant
            0 <= i <= items@.len(),
            item_views(out@) == item_views(items@.take(i as int)),
        decreases items@.len() - i,
    {
        let ghost before = out@;
        assert(decreases_to!(items => items@[i as int]));
        out.push(items[i].dup());
        assert(out@.drop_last() =~= before);
        assert(items@.take(i + 1).drop_last() =~= items@.take(i as int));
        i += 1;
    }
    assert(items@.take(i as int) =~= items@);
    out
}

/// Copies of the entries of an object.
pub fn dup_entries(entries: &Vec<(String, Json)>) -> (r: Vec<(String, Json)>)
    ensures
        entry_views(r@) == entry_views(entries@),
    decreases entries,
{
    let mut out: Vec<(String, Json)> = Vec::new();
    let mut i: usize = 0;
    while i < entries.len()
        invariant
            0 <= i <= entries@.len(),
            entry_views(out@) == entry_views(entries@.take(i as int)),
        decreases entries@.len() - i,
    {
        let ghost before = out@;
        assert(decreases_to!(entries => entries@[i as int].1));
        out.push((entries[i].0.clone(), entries[i].1.dup()));
        assert(out@.drop_last() =~= before);
        assert(entries@.take(i + 1).drop_last() =~= entries@.take(i as int));
        i += 1;
    }
    assert(entries@.take(i as int) =~= entries@);
    out
}

impl Clone for Json {
    fn clone(&self) -> (r: Self)
        ensures
            r@ == self@,
    {
        self.dup()
    }
}

/// Setting a field of an object sets that field and no other, removing one removes
/// that field and no other, and the empty object has none. What is no object has no
/// fields and gets none.
pub proof fn lemma_fields(value: JsonView, key: Seq<char>, other: Seq<char>, item: JsonView)
    ensures
        value is Object ==> value.with(key, item).field(key) == Some(item),
        other != key ==> value.with(key, item).field(other) == value.field(other),
        value.without(key).field(key) is None,
        other != key ==> value.without(key).field(other) == value.field(other),
        value is Object <==> value.with(key, item) is Object,
        value is Object <==> value.without(key) is Object,
        !(value is Object) ==> value.field(key) is None && value.with(key, item) == value
            && value.without(key) == value,
        JsonView::object().field(key) is None,
{
}

/// Two objects with the same fields are the same.
pub proof fn lemma_objects_are_their_fields(a: JsonView, b: JsonView)
    requires
        a is Object,
        b is Object,
        forall|key: Seq<char>| #[trigger] a.field(key) == b.field(key),
    ensures
        a == b,
{
    let left = a->Object_0;
    let right = b->Object_0;
    assert forall|key: Seq<char>| left.contains_key(key) <==> right.contains_key(key) by {
        assert(a.field(key) == b.field(key));
    }
    assert forall|key: Seq<char>| left.contains_key(key) implies left[key] == right[key] by {
        assert(a.field(key) == b.field(key));
    }
    assert(left =~= right);
}

/// Each kind of value is read back as what it was made of, and as nothing else.
pub proof fn lemma_values_are_read_back(
    n: u64,
    i: i64,
    text: Seq<char>,
    flag: bool,
    list: Seq<Seq<char>>,
)
    ensures
        json_number(n).unsigned() == Some(n),
        json_number(n).text() is None && json_number(n).flag() is None,
        json_integer(i).unsigned() == if i < 0 {
            None
        } else {
            Some(i as u64)
        },
        json_integer(i).small_integer() == if i32::MIN <= i <= i32::MAX {
            Some(i as i32)
        } else {
            None
        },
        JsonView::Text(text).text() == Some(text),
        JsonView::Text(text).unsigned() is None && JsonView::Text(text).flag() is None,
        JsonView::Bool(flag).flag() == Some(flag),
        JsonView::Bool(flag).text() is None && JsonView::Bool(flag).unsigned() is None,
        json_texts(list) matches JsonView::Array(items) && items.len() == list.len() && forall|k: int|
            0 <= k < list.len() ==> (#[trigger] items[k]).text() == Some(list[k]),
{
}

} // verus!
