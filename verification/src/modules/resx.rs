//! .NET `.resx` resource files.

use vstd::prelude::*;

use super::{module_result, show, shown};
use crate::error::{tool_result, ToolError, ToolErrorView, ToolResult};
use crate::json::{Json, JsonView};
use crate::protocol::mcp::{CallToolResult, CallToolResultView, Tool, ToolView};
use crate::text::{cat2, cat3, cat4, cat5, decimal, decimal_text, opt_view, same, views};
use crate::tools::context::{
    gate, resolved_path, OnDisk, OnDiskView, ToolContext, ToolContextView, FILE_MUTATION_DENIED,
};
use crate::tools::schema::{
    needs, object_schema, property, property_schema, schema1, schema3, takes,
};
use crate::xml::{
    all_blank, begins_with_mark, ends_once, entry_events, entry_tag, escape_xml, escaped_char,
    escaped_xml, is_all_blank, is_final, is_made, is_orderly, is_read, is_tight, is_writable,
    item_text, items_text, lemma_all_blank, lemma_tight_values_stay, open_names, pair_views,
    parsed_xml, read_again, read_document, texts_apart, trimmed_items, trimmed_text, value_tag,
    value_text, XmlItem, XmlItemView,
};

verus! {

/// The module for resource files.
pub struct ResxModule;

/// What the module advertises.
pub open spec fn resx_tools() -> Seq<ToolView> {
    seq![
        ToolView::new(
            "read_resx"@,
            "Reads entries (key-value pairs) from a .NET .resx XML resource file"@,
            object_schema(
                JsonView::object().with(
                    "path"@,
                    property_schema("string"@, "Absolute file path to the .resx file"@),
                ),
                seq!["path"@],
            ),
        ),
        ToolView::new(
            "write_resx_entry"@,
            "Adds or updates a string entry in a .NET .resx file"@,
            object_schema(
                JsonView::object().with(
                    "path"@,
                    property_schema("string"@, "Absolute file path to the .resx file"@),
                ).with("key"@, property_schema("string"@, "Resource key name"@)).with(
                    "value"@,
                    property_schema("string"@, "Resource string value"@),
                ),
                seq!["path"@, "key"@, "value"@],
            ),
        ),
    ]
}

/// The file that an entry is written to where there is none.
pub const TEMPLATE: &'static str = "<?xml version=\"1.0\" encoding=\"utf-8\"?>\n<root>\n</root>";

// ---------------------------------------------------------------------------
// Reading

/// Where in an entry an event stands.
pub struct PlaceView {
    /// Whether in a value.
    pub in_value: bool,
    /// How many elements are open in the entry.
    pub open: nat,
    /// Whether a value was opened in the entry.
    pub valued: bool,
}

impl PlaceView {
    /// Where nothing of an entry was passed.
    pub open spec fn fresh() -> PlaceView {
        PlaceView { in_value: false, open: 0, valued: false }
    }

    /// Behind the tag that opens an element.
    pub open spec fn opened(self, name: Seq<char>) -> PlaceView {
        if name == "data"@ {
            PlaceView::fresh()
        } else {
            PlaceView {
                in_value: self.in_value || name == "value"@,
                open: self.open + 1,
                valued: self.valued || name == "value"@,
            }
        }
    }

    /// Behind the tag that closes an element.
    pub open spec fn closed(self, name: Seq<char>) -> PlaceView {
        if name == "data"@ {
            PlaceView::fresh()
        } else {
            PlaceView {
                in_value: self.in_value && name != "value"@,
                open: if self.open > 0 {
                    (self.open - 1) as nat
                } else {
                    0
                },
                valued: self.valued,
            }
        }
    }

    /// Behind an event.
    pub open spec fn after(self, item: XmlItemView) -> PlaceView {
        match item {
            XmlItemView::Start { name, attributes, raw } => self.opened(name),
            XmlItemView::End(name) => self.closed(name),
            _ => self,
        }
    }

    /// Whether a text here is that of the entry: it stands in a value or, before a
    /// value is opened, in the entry itself. What else an entry holds, such as a
    /// comment, is not.
    pub open spec fn holds_text(self) -> bool {
        self.in_value || (self.open == 0 && !self.valued)
    }
}

/// Where in an entry an event stands.
#[derive(Clone, Copy)]
struct Place {
    in_value: bool,
    open: usize,
    valued: bool,
}

impl View for Place {
    type V = PlaceView;

    closed spec fn view(&self) -> PlaceView {
        PlaceView { in_value: self.in_value, open: self.open as nat, valued: self.valued }
    }
}

impl Place {
    fn fresh() -> (r: Place)
        ensures
            r@ == PlaceView::fresh(),
    {
        Place { in_value: false, open: 0, valued: false }
    }

    fn opened(self, name: &str) -> (r: Place)
        requires
            self@.open < usize::MAX,
        ensures
            r@ == self@.opened(name@),
    {
        if same(name, "data") {
            return Place::fresh();
        }
        let is_value: bool = same(name, "value");
        Place {
            in_value: self.in_value || is_value,
            open: self.open + 1,
            valued: self.valued || is_value,
        }
    }

    fn closed(self, name: &str) -> (r: Place)
        ensures
            r@ == self@.closed(name@),
    {
        if same(name, "data") {
            return Place::fresh();
        }
        Place {
            in_value: self.in_value && !same(name, "value"),
            open: if self.open > 0 {
                self.open - 1
            } else {
                0
            },
            valued: self.valued,
        }
    }

    fn in_value(self) -> (r: bool)
        ensures
            r == self@.in_value,
    {
        self.in_value
    }

    fn holds_text(self) -> (r: bool)
        ensures
            r == self@.holds_text(),
    {
        self.in_value || (self.open == 0 && !self.valued)
    }
}

/// The entry that is being read, and those that were.
pub struct ReadingView {
    pub current: Option<Seq<char>>,
    pub at: PlaceView,
    pub entries: JsonView,
}

/// The last value that is called `name` among attributes, or what there was.
pub open spec fn name_among(
    attributes: Seq<(Seq<char>, Seq<char>)>,
    before: Option<Seq<char>>,
) -> Option<Seq<char>>
    decreases attributes.len(),
{
    if attributes.len() == 0 {
        before
    } else if attributes.last().0 == "name"@ {
        Some(attributes.last().1)
    } else {
        name_among(attributes.drop_last(), before)
    }
}

/// What has been read after one more event.
pub open spec fn reading_step(state: ReadingView, item: XmlItemView) -> ReadingView {
    let at = state.at.after(item);
    match item {
        XmlItemView::Start { name, attributes, raw } => if name == "data"@ {
            ReadingView { current: name_among(attributes, state.current), at, ..state }
        } else {
            ReadingView { at, ..state }
        },
        XmlItemView::Text { raw, unescaped } => match state.current {
            Some(name) if at.holds_text() => ReadingView {
                entries: state.entries.with(
                    name,
                    JsonView::Text(
                        match unescaped {
                            Some(text) => text,
                            None => ""@,
                        },
                    ),
                ),
                ..state
            },
            _ => state,
        },
        XmlItemView::End(name) => if name == "data"@ {
            ReadingView { current: None, at, ..state }
        } else {
            ReadingView { at, ..state }
        },
        _ => state,
    }
}

/// What has been read after some events.
pub open spec fn reading(items: Seq<XmlItemView>) -> ReadingView
    decreases items.len(),
{
    if items.len() == 0 {
        ReadingView { current: None, at: PlaceView::fresh(), entries: JsonView::object() }
    } else {
        reading_step(reading(items.drop_last()), items.last())
    }
}

/// The entries that a document holds, or why it cannot be read.
pub open spec fn document_entries(items: Seq<XmlItemView>) -> Result<
    CallToolResultView,
    Seq<char>,
> {
    match items.last() {
        XmlItemView::Broken { position, shown, detail } => Err(
            "XML parse error at position "@ + decimal(position as nat) + ": "@ + detail,
        ),
        _ => Ok(shown(reading(items.drop_last()).entries)),
    }
}

fn last_name(attributes: &Vec<(String, String)>, before: Option<String>) -> (r: Option<String>)
    ensures
        opt_view(r) == name_among(pair_views(attributes@), opt_view(before)),
{
    let ghost all = pair_views(attributes@);
    let mut i: usize = attributes.len();
    assert(all.take(i as int) =~= all);
    while i > 0
        invariant
            0 <= i <= attributes@.len(),
            all == pair_views(attributes@),
            name_among(all, opt_view(before)) == name_among(all.take(i as int), opt_view(before)),
        decreases i,
    {
        i -= 1;
        proof {
            assert(all.take(i + 1).last() == all[i as int]);
            assert(all.take(i + 1).drop_last() =~= all.take(i as int));
        }
        if same(&attributes[i].0, "name") {
            return Some(attributes[i].1.clone());
        }
    }
    before
}

/// Collects the entries of a document out of its events.
pub fn collect_entries(items: &Vec<XmlItem>) -> (r: Result<CallToolResult, String>)
    requires
        ends_once(views(items@)),
    ensures
        module_result(r) == document_entries(views(items@)),
{
    let ghost all = views(items@);
    let mut current: Option<String> = None;
    let mut at = Place::fresh();
    let mut entries = Json::object();
    let mut i: usize = 0;
    assert(all.take(0) =~= seq![]);
    while i < items.len()
        invariant
            0 <= i < all.len(),
            all.len() == items@.len(),
            all == views(items@),
            ends_once(all),
            opt_view(current) == reading(all.take(i as int)).current,
            at@ == reading(all.take(i as int)).at,
            at@.open <= i,
            entries@ == reading(all.take(i as int)).entries,
        decreases items@.len() - i,
    {
        let item = &items[i];
        proof {
            lemma_strings_differ();
            assert(all[i as int] == item@);
            assert(all.take(i + 1).drop_last() =~= all.take(i as int));
            assert(all.take(i + 1).last() == item@);
        }
        match item {
            XmlItem::Start { name, attributes, raw } => {
                if same(name, "data") {
                    current = last_name(attributes, current);
                }
                at = at.opened(name);
            },
            XmlItem::Text { raw, unescaped } => {
                match &current {
                    Some(name) => if at.holds_text() {
                        let text = match unescaped {
                            Some(text) => text.clone(),
                            None => "".to_owned(),
                        };
                        entries = entries.with(name, Json::string(&text));
                    },
                    None => {},
                }
            },
            XmlItem::End(name) => {
                if same(name, "data") {
                    current = None;
                }
                at = at.closed(name);
            },
            XmlItem::Other(_) => {},
            XmlItem::Eof => {
                proof {
                    assert(is_final(all[i as int]));
                    assert(i == all.len() - 1);
                    assert(all.drop_last() =~= all.take(i as int));
                }
                return Ok(show(entries));
            },
            XmlItem::Broken { position, shown, detail } => {
                proof {
                    assert(is_final(all[i as int]));
                    assert(i == all.len() - 1);
                }
                return Err(
                    cat4("XML parse error at position ", &decimal_text(*position), ": ", detail),
                );
            },
        }
        proof {
            assert(!is_final(all[i as int]));
            assert(i != all.len() - 1);
        }
        i += 1;
    }
    Ok(show(entries))
}

/// The untrimmed events of a document before its end.
pub open spec fn events_of(doc: Seq<char>) -> Seq<XmlItemView> {
    parsed_xml(doc, false).drop_last()
}

/// Whether a document can be read to its end.
pub open spec fn is_readable(doc: Seq<char>) -> bool {
    ends_once(parsed_xml(doc, false)) && parsed_xml(doc, false).last() is Eof
}

/// The entries of a document that can be read.
pub open spec fn entries_of(doc: Seq<char>) -> JsonView {
    reading(trimmed_items(events_of(doc))).entries
}

/// Whether an entry can be written to a document so that it is read again: the
/// document can be read, its entries stand beside each other under a root that
/// closes, and the name can stand between quotation marks.
pub open spec fn can_take(doc: Seq<char>, key: Seq<char>) -> bool {
    &&& is_readable(doc)
    &&& is_orderly(events_of(doc))
    &&& is_flat(events_of(doc))
    &&& events_of(doc).contains(XmlItemView::End("root"@))
    &&& reading(events_of(doc)).current is None
    &&& !written_name(events_of(doc), key).contains('"')
}

/// Reads the entries of a document. From one that an entry was written to, added or
/// updated, its value is read, and every other entry as it was.
pub fn read_entries(content: &str) -> (r: Result<CallToolResult, String>)
    ensures
        module_result(r) == document_entries(parsed_xml(content@, true)),
        is_readable(content@) ==> module_result(r) == Ok::<CallToolResultView, Seq<char>>(
            shown(entries_of(content@)),
        ),
        forall|doc: Seq<char>, key: Seq<char>, value: Seq<char>|
            content@ == #[trigger] updated_text(doc, key, value) && can_take(doc, key) && is_tight(
                value,
            ) && !begins_with_mark(content@) ==> module_result(r) == Ok::<
                CallToolResultView,
                Seq<char>,
            >(
                shown(
                    entries_of(doc).with(
                        written_name(events_of(doc), key),
                        JsonView::Text(value),
                    ),
                ),
            ),
{
    let items = read_document(content, true);
    let ghost all = views(items@);
    proof {
        if is_readable(content@) {
            let trimmed = trimmed_items(events_of(content@));
            assert(all == trimmed.push(XmlItemView::Eof));
            assert(all.drop_last() =~= trimmed);
        }
        assert forall|doc: Seq<char>, key: Seq<char>, value: Seq<char>|
            content@ == #[trigger] updated_text(doc, key, value) && can_take(doc, key) && is_tight(
                value,
            ) && !begins_with_mark(content@) implies document_entries(all) == Ok::<
            CallToolResultView,
            Seq<char>,
        >(
            shown(
                entries_of(doc).with(written_name(events_of(doc), key), JsonView::Text(value)),
            ),
        ) by {
            let before = events_of(doc);
            let name = written_name(before, key);
            let after = rewritten(before, name, value);
            lemma_rewritten_is_writable(doc, name, value);
            assert(all == read_again(after, true));
            assert(all.drop_last() =~= trimmed_items(after));
            lemma_read_after_write(before, name, value);
        }
    }
    collect_entries(&items)
}

// ---------------------------------------------------------------------------
// Writing

/// How far the rewriting of a document has come.
pub struct PassingView {
    pub at: PlaceView,
    /// Whether the entry is being passed.
    pub inside: bool,
    /// Whether it was seen.
    pub seen: bool,
    /// Whether its value was written since it was opened.
    pub done: bool,
}

impl PassingView {
    /// Whether a text gives way to the value. What stands between elements to lay
    /// them out does not.
    pub open spec fn replaces(self, raw: Seq<char>) -> bool {
        self.inside && (self.at.in_value || (self.at.holds_text() && !is_all_blank(raw)))
    }
}

/// Whether attributes say that an element is the entry called `key`.
pub open spec fn names_entry(attributes: Seq<(Seq<char>, Seq<char>)>, key: Seq<char>) -> bool {
    exists|i: int|
        0 <= i < attributes.len() && (#[trigger] attributes[i]).0 == "name"@ && attributes[i].1
            == key
}

/// Whether an event opens the entry called `key`.
pub open spec fn opens_entry(item: XmlItemView, key: Seq<char>) -> bool {
    item matches XmlItemView::Start { name, attributes, raw } && name == "data"@ && names_entry(
        attributes,
        key,
    )
}

/// The name that an entry has in a document: the key as it stands where there is an
/// entry called that, or else with what XML reserves escaped.
pub open spec fn written_name(items: Seq<XmlItemView>, key: Seq<char>) -> Seq<char> {
    if exists|i: int| 0 <= i < items.len() && opens_entry(#[trigger] items[i], key) {
        key
    } else {
        escaped_xml(key)
    }
}

/// How far the rewriting has come after one more event.
pub open spec fn passing_step(state: PassingView, item: XmlItemView, key: Seq<char>) -> PassingView {
    let at = state.at.after(item);
    match item {
        XmlItemView::Start { name, attributes, raw } => if opens_entry(item, key) {
            PassingView { at, inside: true, seen: true, done: false }
        } else {
            PassingView { at, ..state }
        },
        XmlItemView::Text { raw, unescaped } => PassingView {
            done: state.done || state.replaces(raw),
            ..state
        },
        XmlItemView::End(name) => PassingView {
            at,
            inside: state.inside && name != "data"@,
            seen: state.seen,
            done: state.done || (state.inside && state.at.in_value && name == "value"@),
        },
        _ => state,
    }
}

/// How far the rewriting has come after some events.
pub open spec fn passing(items: Seq<XmlItemView>, key: Seq<char>) -> PassingView
    decreases items.len(),
{
    if items.len() == 0 {
        PassingView { at: PlaceView::fresh(), inside: false, seen: false, done: false }
    } else {
        passing_step(passing(items.drop_last(), key), items.last(), key)
    }
}

/// What takes the place of an event: the text of the entry is replaced, a value
/// without text is given one, an entry without text is given a value before it
/// closes, and an entry that was not seen is added before the root closes.
pub open spec fn pieces(
    state: PassingView,
    item: XmlItemView,
    key: Seq<char>,
    value: Seq<char>,
) -> Seq<XmlItemView> {
    match item {
        XmlItemView::Text { raw, unescaped } => if state.replaces(raw) {
            seq![value_text(value)]
        } else {
            seq![item]
        },
        XmlItemView::End(name) => if state.inside && state.at.in_value && !state.done && name
            == "value"@ {
            seq![value_text(value), item]
        } else if state.inside && !state.done && name == "data"@ {
            seq![value_tag(), value_text(value), XmlItemView::End("value"@), item]
        } else if name == "root"@ && !state.seen {
            entry_events(key, value).push(item)
        } else {
            seq![item]
        },
        _ => seq![item],
    }
}

/// The events of a document with an entry added or updated.
pub open spec fn rewritten(items: Seq<XmlItemView>, key: Seq<char>, value: Seq<char>) -> Seq<
    XmlItemView,
>
    decreases items.len(),
{
    if items.len() == 0 {
        seq![]
    } else {
        rewritten(items.drop_last(), key, value) + pieces(
            passing(items.drop_last(), key),
            items.last(),
            key,
            value,
        )
    }
}

/// A document with an entry added or updated, or why it cannot be read.
pub open spec fn document_with(items: Seq<XmlItemView>, key: Seq<char>, value: Seq<char>) -> Result<
    Seq<char>,
    Seq<char>,
> {
    let events = items.drop_last();
    match items.last() {
        XmlItemView::Broken { position, shown, detail } => Err("Error parsing XML: "@ + shown),
        _ => Ok(items_text(rewritten(events, written_name(events, key), value))),
    }
}

/// The text of a document that can be read, with an entry added or updated.
pub open spec fn updated_text(doc: Seq<char>, key: Seq<char>, value: Seq<char>) -> Seq<char> {
    items_text(rewritten(events_of(doc), written_name(events_of(doc), key), value))
}

/// How far the rewriting of a document has come.
struct Passing {
    at: Place,
    inside: bool,
    seen: bool,
    done: bool,
}

impl View for Passing {
    type V = PassingView;

    closed spec fn view(&self) -> PassingView {
        PassingView { at: self.at@, inside: self.inside, seen: self.seen, done: self.done }
    }
}

fn is_entry(attributes: &Vec<(String, String)>, key: &str) -> (r: bool)
    ensures
        r == names_entry(pair_views(attributes@), key@),
{
    let ghost all = pair_views(attributes@);
    let mut i: usize = 0;
    while i < attributes.len()
        invariant
            0 <= i <= attributes@.len(),
            all == pair_views(attributes@),
            forall|k: int|
                0 <= k < i ==> !((#[trigger] all[k]).0 == "name"@ && all[k].1 == key@),
        decreases attributes@.len() - i,
    {
        assert(all[i as int] == (attributes@[i as int].0@, attributes@[i as int].1@));
        if same(&attributes[i].0, "name") && same(&attributes[i].1, key) {
            return true;
        }
        i += 1;
    }
    false
}

proof fn lemma_text_push(items: Seq<XmlItemView>, item: XmlItemView)
    ensures
        items_text(items.push(item)) == items_text(items) + item_text(item),
{
    assert(items.push(item).drop_last() =~= items);
}

fn write_start(
    out: &mut String,
    raw: &str,
    Ghost(before): Ghost<Seq<XmlItemView>>,
    Ghost(tag): Ghost<XmlItemView>,
)
    requires
        old(out)@ == items_text(before),
        tag matches XmlItemView::Start { name, attributes, raw: inner } && inner == raw@,
    ensures
        final(out)@ == items_text(before.push(tag)),
{
    out.append("<");
    out.append(raw);
    out.append(">");
    proof {
        lemma_text_push(before, tag);
        assert(out@ =~= items_text(before) + item_text(tag));
    }
}

fn write_end(out: &mut String, name: &str, Ghost(before): Ghost<Seq<XmlItemView>>)
    requires
        old(out)@ == items_text(before),
    ensures
        final(out)@ == items_text(before.push(XmlItemView::End(name@))),
{
    out.append("</");
    out.append(name);
    out.append(">");
    proof {
        lemma_text_push(before, XmlItemView::End(name@));
        assert(out@ =~= items_text(before) + item_text(XmlItemView::End(name@)));
    }
}

fn write_value(out: &mut String, value: &str, Ghost(before): Ghost<Seq<XmlItemView>>)
    requires
        old(out)@ == items_text(before),
    ensures
        final(out)@ == items_text(before.push(value_text(value@))),
{
    out.append(escape_xml(value).as_str());
    proof {
        lemma_text_push(before, value_text(value@));
    }
}

fn write_closing(
    out: &mut String,
    name: &str,
    key: &str,
    value: &str,
    state: &Passing,
    Ghost(before): Ghost<Seq<XmlItemView>>,
)
    requires
        old(out)@ == items_text(before),
    ensures
        final(out)@ == items_text(
            before + pieces(
                state@,
                XmlItemView::End(name@),
                key@,
                value@,
            ),
        ),
{
    let ghost mut upto = before;
    if state.inside && state.at.in_value() && !state.done && same(name, "value") {
        write_value(out, value, Ghost(upto));
        proof {
            upto = upto.push(value_text(value@));
        }
    } else if state.inside && !state.done && same(name, "data") {
        write_start(out, "value", Ghost(upto), Ghost(value_tag()));
        proof {
            upto = upto.push(value_tag());
        }
        write_value(out, value, Ghost(upto));
        proof {
            upto = upto.push(value_text(value@));
        }
        write_end(out, "value", Ghost(upto));
        proof {
            upto = upto.push(XmlItemView::End("value"@));
        }
    } else if same(name, "root") && !state.seen {
        let raw = cat3("data name=\"", key, "\" xml:space=\"preserve\"");
        write_start(out, &raw, Ghost(upto), Ghost(entry_tag(key@)));
        proof {
            upto = upto.push(entry_tag(key@));
        }
        write_start(out, "value", Ghost(upto), Ghost(value_tag()));
        proof {
            upto = upto.push(value_tag());
        }
        write_value(out, value, Ghost(upto));
        proof {
            upto = upto.push(value_text(value@));
        }
        write_end(out, "value", Ghost(upto));
        proof {
            upto = upto.push(XmlItemView::End("value"@));
        }
        write_end(out, "data", Ghost(upto));
        proof {
            upto = upto.push(XmlItemView::End("data"@));
        }
    }
    write_end(out, name, Ghost(upto));
    assert(upto.push(XmlItemView::End(name@)) =~= before + pieces(
        state@,
        XmlItemView::End(name@),
        key@,
        value@,
    ));
}

/// The name that an entry has in a document.
fn name_in(items: &Vec<XmlItem>, key: &str) -> (r: String)
    requires
        ends_once(views(items@)),
    ensures
        r@ == written_name(views(items@).drop_last(), key@),
{
    let ghost all = views(items@).drop_last();
    let mut i: usize = 0;
    while i < items.len() - 1
        invariant
            0 <= i < items@.len(),
            all == views(items@).drop_last(),
            forall|k: int| 0 <= k < i ==> !opens_entry(#[trigger] all[k], key@),
        decreases items@.len() - i,
    {
        assert(all[i as int] == items@[i as int]@);
        match &items[i] {
            XmlItem::Start { name, attributes, raw } => {
                if same(name, "data") && is_entry(attributes, key) {
                    assert(opens_entry(all[i as int], key@));
                    return key.to_owned();
                }
            },
            _ => {},
        }
        i += 1;
    }
    escape_xml(key)
}

/// Writes a document with an entry added or updated out of its events. An entry is
/// known by its name as it stands, or else by the one that it would be given, with
/// what XML reserves escaped.
pub fn rebuild(items: &Vec<XmlItem>, key: &str, value: &str) -> (r: Result<String, String>)
    requires
        ends_once(views(items@)),
    ensures
        module_result(r) == document_with(views(items@), key@, value@),
{
    let ghost all = views(items@);
    let mut out = String::new();
    let name = name_in(items, key);
    let mut state = Passing { at: Place::fresh(), inside: false, seen: false, done: false };
    let mut i: usize = 0;
    assert(all.take(0) =~= seq![]);
    assert(out@ =~= seq![]);
    while i < items.len()
        invariant
            0 <= i < all.len(),
            all.len() == items@.len(),
            all == views(items@),
            ends_once(all),
            out@ == items_text(rewritten(all.take(i as int), name@, value@)),
            state@ == passing(all.take(i as int), name@),
            state@.at.open <= i,
            name@ == written_name(all.drop_last(), key@),
        decreases items@.len() - i,
    {
        let item = &items[i];
        let ghost before = rewritten(all.take(i as int), name@, value@);
        proof {
            lemma_strings_differ();
            assert(all[i as int] == item@);
            assert(all.take(i + 1).drop_last() =~= all.take(i as int));
            assert(all.take(i + 1).last() == item@);
            assert(before + seq![item@] =~= before.push(item@));
            assert(before + seq![value_text(value@)] =~= before.push(value_text(value@)));
        }
        match item {
            XmlItem::Start { name: tag, attributes, raw } => {
                let opens: bool = same(tag, "data") && is_entry(attributes, &name);
                state = Passing {
                    at: state.at.opened(tag),
                    inside: state.inside || opens,
                    seen: state.seen || opens,
                    done: state.done && !opens,
                };
                write_start(&mut out, raw, Ghost(before), Ghost(item@));
            },
            XmlItem::Text { raw, unescaped } => {
                let replaced: bool = state.inside && (state.at.in_value() || (state.at.holds_text()
                    && !all_blank(raw)));
                if replaced {
                    write_value(&mut out, value, Ghost(before));
                    state = Passing { done: true, ..state };
                } else {
                    out.append(raw.as_str());
                    proof {
                        lemma_text_push(before, item@);
                    }
                }
            },
            XmlItem::End(tag) => {
                write_closing(&mut out, tag, &name, value, &state, Ghost(before));
                let filled: bool = state.inside && state.at.in_value() && same(tag, "value");
                state = Passing {
                    at: state.at.closed(tag),
                    inside: state.inside && !same(tag, "data"),
                    seen: state.seen,
                    done: state.done || filled,
                };
            },
            XmlItem::Other(raw) => {
                out.append(raw.as_str());
                proof {
                    lemma_text_push(before, item@);
                }
            },
            XmlItem::Eof => {
                proof {
                    assert(is_final(all[i as int]));
                    assert(i == all.len() - 1);
                    assert(all.drop_last() =~= all.take(i as int));
                }
                return Ok(out);
            },
            XmlItem::Broken { position, shown, detail } => {
                proof {
                    assert(is_final(all[i as int]));
                    assert(i == all.len() - 1);
                }
                return Err(cat2("Error parsing XML: ", shown));
            },
        }
        proof {
            assert(!is_final(all[i as int]));
            assert(i != all.len() - 1);
        }
        i += 1;
    }
    Ok(out)
}

/// What a document that may not be there is.
pub open spec fn document_or_template(content: Option<Seq<char>>) -> Seq<char> {
    match content {
        Some(text) => text,
        None => TEMPLATE@,
    }
}

/// The document with an entry added or updated; a document that is not there
/// starts as an empty one. `read_entries` then reads the entry there.
pub fn write_entry(content: Option<String>, key: &str, value: &str) -> (r: Result<String, String>)
    ensures
        module_result(r) == document_with(
            parsed_xml(document_or_template(opt_view(content)), false),
            key@,
            value@,
        ),
        r is Ok <==> is_readable(document_or_template(opt_view(content))),
        r matches Ok(text) ==> text@ == updated_text(
            document_or_template(opt_view(content)),
            key@,
            value@,
        ) && is_orderly(events_of(document_or_template(opt_view(content)))),
{
    let text = match content {
        Some(text) => text,
        None => TEMPLATE.to_owned(),
    };
    rebuild(&read_document(&text, false), key, value)
}

// ---------------------------------------------------------------------------
// Calls

/// The file that a call of `read_resx` names.
pub open spec fn read_request(args: JsonView) -> Result<Seq<char>, Seq<char>> {
    match args.text_field("path"@) {
        Some(path) => Ok(path),
        None => Err("Missing path parameter"@),
    }
}

/// An entry that is to be written.
pub struct EntryRequest {
    pub path: String,
    pub key: String,
    pub value: String,
}

/// What an [`EntryRequest`] asks for.
pub struct EntryRequestView {
    pub path: Seq<char>,
    pub key: Seq<char>,
    pub value: Seq<char>,
}

impl View for EntryRequest {
    type V = EntryRequestView;

    open spec fn view(&self) -> EntryRequestView {
        EntryRequestView { path: self.path@, key: self.key@, value: self.value@ }
    }
}

/// The entry that a call of `write_resx_entry` asks to be written.
pub open spec fn write_request(args: JsonView) -> Result<EntryRequestView, Seq<char>> {
    match (args.text_field("path"@), args.text_field("key"@), args.text_field("value"@)) {
        (None, _, _) => Err("Missing path parameter"@),
        (_, None, _) => Err("Missing key parameter"@),
        (_, _, None) => Err("Missing value parameter"@),
        (Some(path), Some(key), Some(value)) => Ok(EntryRequestView { path, key, value }),
    }
}

/// The file that a call of `read_resx` may read.
pub open spec fn read_allowed(
    args: JsonView,
    ctx: ToolContextView,
    disk: OnDiskView,
) -> Result<Seq<char>, ToolErrorView> {
    match read_request(args) {
        Err(message) => Err(ToolErrorView::InvalidArguments(message)),
        Ok(raw) => resolved_path(ctx.roots, raw, disk),
    }
}

/// The file that a call of `write_resx_entry` may write to, and what: none without
/// the permission to change files.
pub open spec fn write_allowed(
    args: JsonView,
    ctx: ToolContextView,
    disk: OnDiskView,
) -> Result<(Seq<char>, EntryRequestView), ToolErrorView> {
    match write_request(args) {
        Err(message) => Err(ToolErrorView::InvalidArguments(message)),
        Ok(request) => match gate(ctx.policy.allow_file_mutation, FILE_MUTATION_DENIED@) {
            Err(err) => Err(err),
            Ok(_) => match resolved_path(ctx.roots, request.path, disk) {
                Err(err) => Err(err),
                Ok(path) => Ok((path, request)),
            },
        },
    }
}

/// What a write that was made is answered with.
pub open spec fn written_message(request: EntryRequestView) -> Seq<char> {
    "Successfully wrote entry '"@ + request.key + "' = '"@ + request.value + "' to "@
        + request.path
}

impl ResxModule {
    /// The module.
    pub fn new() -> (r: ResxModule)
        ensures
            r == ResxModule,
    {
        ResxModule
    }

    /// Unique identifier of the module.
    pub fn name(&self) -> (r: &'static str)
        ensures
            r@ == "resx"@,
    {
        "resx"
    }

    /// What the module advertises.
    pub fn tools(&self) -> (r: Vec<Tool>)
        ensures
            views(r@) == resx_tools(),
    {
        let tools: Vec<Tool> = vec![
            Tool::new(
                "read_resx",
                "Reads entries (key-value pairs) from a .NET .resx XML resource file",
                schema1(
                    Json::object().with(
                        "path",
                        property("string", "Absolute file path to the .resx file"),
                    ),
                    "path",
                ),
            ),
            Tool::new(
                "write_resx_entry",
                "Adds or updates a string entry in a .NET .resx file",
                schema3(
                    Json::object().with(
                        "path",
                        property("string", "Absolute file path to the .resx file"),
                    ).with("key", property("string", "Resource key name")).with(
                        "value",
                        property("string", "Resource string value"),
                    ),
                    "path",
                    "key",
                    "value",
                ),
            ),
        ];
        assert(views(tools@) =~= resx_tools());
        tools
    }

    /// Reads which file a call of `read_resx` names.
    pub fn plan_read(&self, args: &Json) -> (r: Result<String, String>)
        ensures
            module_result(r) == read_request(args@),
    {
        match args.get_text("path") {
            Some(path) => Ok(path.clone()),
            None => Err("Missing path parameter".to_owned()),
        }
    }

    /// Reads which entry a call of `write_resx_entry` asks to be written.
    pub fn plan_write(&self, args: &Json) -> (r: Result<EntryRequest, String>)
        ensures
            module_result(r) == write_request(args@),
    {
        let path = match args.get_text("path") {
            Some(path) => path.clone(),
            None => return Err("Missing path parameter".to_owned()),
        };
        let key = match args.get_text("key") {
            Some(key) => key.clone(),
            None => return Err("Missing key parameter".to_owned()),
        };
        let value = match args.get_text("value") {
            Some(value) => value.clone(),
            None => return Err("Missing value parameter".to_owned()),
        };
        Ok(EntryRequest { path, key, value })
    }

    /// Reads which file a call may read.
    pub fn plan_read_in(&self, args: &Json, ctx: &ToolContext, disk: OnDisk) -> (r: ToolResult<
        String,
    >)
        ensures
            tool_result(r) == read_allowed(args@, ctx@, disk@),
    {
        match self.plan_read(args) {
            Err(message) => Err(ToolError::InvalidArguments(message)),
            Ok(raw) => ctx.resolve(&raw, disk),
        }
    }

    /// Reads which entry a call may write; the permission to change files comes
    /// before the path.
    pub fn plan_write_in(&self, args: &Json, ctx: &ToolContext, disk: OnDisk) -> (r: ToolResult<
        (String, EntryRequest),
    >)
        ensures
            match r {
                Ok((path, request)) => write_allowed(args@, ctx@, disk@) == Ok::<
                    (Seq<char>, EntryRequestView),
                    ToolErrorView,
                >((path@, request@)),
                Err(err) => write_allowed(args@, ctx@, disk@) == Err::<
                    (Seq<char>, EntryRequestView),
                    ToolErrorView,
                >(err@),
            },
    {
        match self.plan_write(args) {
            Err(message) => Err(ToolError::InvalidArguments(message)),
            Ok(request) => match ctx.require_file_mutation() {
                Err(err) => Err(err),
                Ok(_) => match ctx.resolve(&request.path, disk) {
                    Err(err) => Err(err),
                    Ok(path) => Ok((path, request)),
                },
            },
        }
    }

    /// Answers a write that was made.
    pub fn report_write(&self, request: &EntryRequest) -> (r: CallToolResult)
        ensures
            r@ == CallToolResultView::text(written_message(request@)),
    {
        CallToolResult::text(
            cat2(
                &cat5(
                    "Successfully wrote entry '",
                    &request.key,
                    "' = '",
                    &request.value,
                    "' to ",
                ),
                &request.path,
            ),
        )
    }
}

// ---------------------------------------------------------------------------
// Laws

/// Whether no two attributes are called `name`.
pub open spec fn named_once(attributes: Seq<(Seq<char>, Seq<char>)>) -> bool {
    forall|a: int, b: int|
        0 <= a < b < attributes.len() ==> !((#[trigger] attributes[a]).0 == "name"@ && (
        #[trigger] attributes[b]).0 == "name"@)
}

/// Whether entries stand beside each other under the root: none is opened inside
/// another, none is called twice, and none is open where the root closes.
pub open spec fn is_flat(items: Seq<XmlItemView>) -> bool {
    forall|i: int|
        0 <= i < items.len() ==> match #[trigger] items[i] {
            XmlItemView::Start { name, attributes, raw } => name == "data"@ ==> named_once(
                attributes,
            ) && reading(items.take(i)).current is None,
            XmlItemView::End(name) => name == "root"@ ==> reading(items.take(i)).current is None,
            _ => true,
        }
}

/// Everything before the entry, and before the root closes, stays as it is.
pub proof fn lemma_other_entries_untouched(
    items: Seq<XmlItemView>,
    key: Seq<char>,
    value: Seq<char>,
)
    requires
        forall|i: int|
            0 <= i < items.len() ==> !opens_entry(#[trigger] items[i], key) && items[i]
                != XmlItemView::End("root"@),
    ensures
        rewritten(items, key, value) == items,
        !passing(items, key).inside,
        !passing(items, key).seen,
    decreases items.len(),
{
    if items.len() > 0 {
        let front = items.drop_last();
        assert forall|i: int| 0 <= i < front.len() implies !opens_entry(#[trigger] front[i], key)
            && front[i] != XmlItemView::End("root"@) by {
            assert(front[i] == items[i]);
        }
        lemma_other_entries_untouched(front, key, value);
        let last = items[items.len() - 1];
        assert(!opens_entry(last, key));
        assert(pieces(passing(front, key), last, key, value) =~= seq![last]);
        assert(front + seq![last] =~= items);
    } else {
        assert(rewritten(items, key, value) =~= items);
    }
}

/// An entry that is not in a document is added once, right before the root
/// closes; all else stays as it is.
pub proof fn lemma_new_entry_is_added(items: Seq<XmlItemView>, key: Seq<char>, value: Seq<char>)
    requires
        items.len() > 0,
        items.last() == XmlItemView::End("root"@),
        forall|i: int|
            0 <= i < items.len() - 1 ==> !opens_entry(#[trigger] items[i], key) && items[i]
                != XmlItemView::End("root"@),
    ensures
        rewritten(items, key, value) == items.drop_last() + entry_events(key, value).push(
            XmlItemView::End("root"@),
        ),
{
    lemma_other_entries_untouched(items.drop_last(), key, value);
}

proof fn lemma_name_among(attributes: Seq<(Seq<char>, Seq<char>)>, key: Seq<char>)
    requires
        named_once(attributes),
    ensures
        name_among(attributes, None) == Some(key) <==> names_entry(attributes, key),
    decreases attributes.len(),
{
    if attributes.len() > 0 {
        let front = attributes.drop_last();
        let n = attributes.len() - 1;
        assert forall|a: int, b: int| 0 <= a < b < front.len() implies !((#[trigger] front[a]).0
            == "name"@ && (#[trigger] front[b]).0 == "name"@) by {
            assert(front[a] == attributes[a]);
            assert(front[b] == attributes[b]);
        }
        lemma_name_among(front, key);
        if attributes[n].0 == "name"@ {
            assert(attributes.last() == attributes[n]);
            if names_entry(attributes, key) {
                let i = choose|i: int|
                    0 <= i < attributes.len() && (#[trigger] attributes[i]).0 == "name"@
                        && attributes[i].1 == key;
                if i < n {
                    assert(!(attributes[i].0 == "name"@ && attributes[n].0 == "name"@));
                }
            }
        } else {
            if names_entry(attributes, key) {
                let i = choose|i: int|
                    0 <= i < attributes.len() && (#[trigger] attributes[i]).0 == "name"@
                        && attributes[i].1 == key;
                assert(front[i] == attributes[i]);
            }
            if names_entry(front, key) {
                let i = choose|i: int|
                    0 <= i < front.len() && (#[trigger] front[i]).0 == "name"@ && front[i].1 == key;
                assert(attributes[i] == front[i]);
            }
        }
    }
}

proof fn lemma_reading_push(items: Seq<XmlItemView>, item: XmlItemView)
    ensures
        reading(items.push(item)) == reading_step(reading(items), item),
{
    assert(items.push(item).drop_last() =~= items);
}

/// Whether entries `after` are those `before`, but for the one called `key`.
pub open spec fn same_but(before: JsonView, after: JsonView, key: Seq<char>) -> bool {
    before matches JsonView::Object(old_entries) && after matches JsonView::Object(new_entries)
        && new_entries.remove(key) == old_entries.remove(key)
}

proof fn lemma_entry_set(
    before: JsonView,
    after: JsonView,
    key: Seq<char>,
    at: Seq<char>,
    v: JsonView,
)
    requires
        same_but(before, after, key),
    ensures
        at == key ==> same_but(before.with(at, v), after, key),
        same_but(before.with(at, v), after.with(at, v), key),
        forall|w: JsonView|
            at == key ==> #[trigger] same_but(before.with(at, v), after.with(at, w), key),
        forall|w: JsonView| at == key ==> #[trigger] same_but(before, after.with(at, w), key),
        at != key ==> after.with(at, v).field(key) == after.field(key),
        at == key ==> after.with(at, v).field(key) == Some(v),
{
    let old_entries = before->Object_0;
    let new_entries = after->Object_0;
    if at == key {
        assert(old_entries.insert(at, v).remove(key) =~= old_entries.remove(key));
        assert forall|w: JsonView| #[trigger]
            same_but(before.with(at, v), after.with(at, w), key) && same_but(
            before,
            after.with(at, w),
            key,
        ) by {
            assert(new_entries.insert(at, w).remove(key) =~= new_entries.remove(key));
        }
        assert(same_but(before.with(at, v), after.with(at, v), key));
        assert forall|w: JsonView| #[trigger] same_but(before, after.with(at, w), key) by {
            assert(new_entries.insert(at, w).remove(key) =~= new_entries.remove(key));
        }
    } else {
        assert(old_entries.insert(at, v).remove(key) =~= old_entries.remove(key).insert(at, v));
        assert(new_entries.insert(at, v).remove(key) =~= new_entries.remove(key).insert(at, v));
    }
}

/// What is read of events when they are trimmed.
spec fn trimmed_reading(items: Seq<XmlItemView>) -> ReadingView {
    reading(trimmed_items(items))
}

proof fn lemma_trimmed_push(items: Seq<XmlItemView>, item: XmlItemView)
    ensures
        trimmed_reading(items.push(item)) == match item {
            XmlItemView::Text { raw, unescaped } => if is_all_blank(raw) {
                trimmed_reading(items)
            } else {
                reading_step(trimmed_reading(items), trimmed_text(item))
            },
            _ => reading_step(trimmed_reading(items), item),
        },
{
    assert(items.push(item).drop_last() =~= items);
    match item {
        XmlItemView::Text { raw, unescaped } => {
            lemma_all_blank(raw);
            if !is_all_blank(raw) {
                lemma_reading_push(trimmed_items(items), trimmed_text(item));
            }
        },
        _ => {
            lemma_reading_push(trimmed_items(items), item);
        },
    }
}

proof fn lemma_trimming_keeps_the_place(items: Seq<XmlItemView>)
    ensures
        trimmed_reading(items).current == reading(items).current,
        trimmed_reading(items).at == reading(items).at,
    decreases items.len(),
{
    if items.len() > 0 {
        let front = items.drop_last();
        lemma_trimming_keeps_the_place(front);
        lemma_trimmed_push(front, items.last());
        assert(front.push(items.last()) =~= items);
    }
}

/// What holds of the entries that are read from a document while it is being
/// rewritten.
spec fn keeps_up(items: Seq<XmlItemView>, key: Seq<char>, value: Seq<char>) -> bool {
    let before = trimmed_reading(items);
    let after = trimmed_reading(rewritten(items, key, value));
    let passed = passing(items, key);
    &&& after.current == before.current
    &&& before.current is Some ==> after.at == before.at
    &&& passed.at == before.at
    &&& passed.inside <==> before.current == Some(key)
    &&& passed.inside ==> passed.seen
    &&& same_but(before.entries, after.entries, key)
    &&& (passed.seen && (!passed.inside || passed.done)) || (!passed.seen && items.contains(
        XmlItemView::End("root"@),
    )) ==> after.entries.field(key) == Some(JsonView::Text(value))
}

proof fn lemma_writing_value(so_far: Seq<XmlItemView>, value: Seq<char>, key: Seq<char>)
    requires
        is_tight(value),
        trimmed_reading(so_far).current == Some(key),
        trimmed_reading(so_far).at.holds_text(),
        trimmed_reading(so_far).entries is Object,
    ensures
        ({
            let before = trimmed_reading(so_far);
            let after = trimmed_reading(so_far.push(value_text(value)));
            &&& after == (ReadingView {
                entries: before.entries.with(key, JsonView::Text(value)),
                ..before
            })
            &&& after.entries.field(key) == Some(JsonView::Text(value))
        }),
{
    lemma_tight_values_stay(value);
    lemma_all_blank(escaped_xml(value));
    lemma_trimmed_push(so_far, value_text(value));
}

proof fn lemma_strings_differ()
    ensures
        "data"@ != "value"@,
        "data"@ != "root"@,
        "value"@ != "root"@,
        "name"@ != "xml:space"@,
{
    reveal_strlit("data");
    reveal_strlit("value");
    reveal_strlit("root");
    reveal_strlit("name");
    reveal_strlit("xml:space");
    assert("data"@.len() == 4 && "root"@.len() == 4 && "value"@.len() == 5);
    assert("data"@[0] == 'd' && "root"@[0] == 'r');
    assert("name"@.len() == 4 && "xml:space"@.len() == 9);
}

proof fn lemma_entry_tag(key: Seq<char>)
    ensures
        name_among(seq![("name"@, key), ("xml:space"@, "preserve"@)], None) == Some(key),
{
    lemma_strings_differ();
    let attributes = seq![("name"@, key), ("xml:space"@, "preserve"@)];
    assert(attributes.last() == ("xml:space"@, "preserve"@));
    let front = attributes.drop_last();
    assert(front.len() == 1 && front.last() == ("name"@, key));
    assert(name_among(front, None) == Some(key));
}

proof fn lemma_closing_kept(
    front: Seq<XmlItemView>,
    name: Seq<char>,
    key: Seq<char>,
    value: Seq<char>,
)
    requires
        is_tight(value),
        keeps_up(front, key, value),
        name == "root"@ ==> trimmed_reading(front).current is None,
    ensures
        keeps_up(front.push(XmlItemView::End(name)), key, value),
{
    lemma_strings_differ();
    let item = XmlItemView::End(name);
    let items = front.push(item);
    assert(items.drop_last() =~= front);
    let passed = passing(front, key);
    let so_far = rewritten(front, key, value);
    lemma_trimmed_push(front, item);
    if items.contains(XmlItemView::End("root"@)) && !front.contains(XmlItemView::End("root"@)) {
        let i = choose|i: int| 0 <= i < items.len() && items[i] == XmlItemView::End("root"@);
        if i < front.len() {
            assert(front[i] == items[i]);
        }
        assert(item == XmlItemView::End("root"@));
    }
    if front.contains(XmlItemView::End("root"@)) {
        let i = choose|i: int| 0 <= i < front.len() && front[i] == XmlItemView::End("root"@);
        assert(items[i] == front[i]);
    }
    let v = JsonView::Text(value);
    lemma_entry_set(trimmed_reading(front).entries, trimmed_reading(so_far).entries, key, key, v);
    if passed.inside && passed.at.in_value && !passed.done && name == "value"@ {
        assert(rewritten(items, key, value) =~= so_far.push(value_text(value)).push(item));
        lemma_writing_value(so_far, value, key);
        lemma_trimmed_push(so_far.push(value_text(value)), item);
    } else if passed.inside && !passed.done && name == "data"@ {
        let a = so_far.push(value_tag());
        let b = a.push(value_text(value));
        let c = b.push(XmlItemView::End("value"@));
        assert(rewritten(items, key, value) =~= c.push(item));
        lemma_trimmed_push(so_far, value_tag());
        lemma_writing_value(a, value, key);
        lemma_trimmed_push(b, XmlItemView::End("value"@));
        lemma_trimmed_push(c, item);
    } else if name == "root"@ && !passed.seen {
        let a = so_far.push(entry_tag(key));
        let b = a.push(value_tag());
        let c = b.push(value_text(value));
        let d = c.push(XmlItemView::End("value"@));
        let e = d.push(XmlItemView::End("data"@));
        assert(rewritten(items, key, value) =~= e.push(item));
        lemma_entry_tag(key);
        lemma_trimmed_push(so_far, entry_tag(key));
        lemma_trimmed_push(a, value_tag());
        lemma_writing_value(b, value, key);
        lemma_trimmed_push(c, XmlItemView::End("value"@));
        lemma_trimmed_push(d, XmlItemView::End("data"@));
        lemma_trimmed_push(e, item);
    } else {
        assert(rewritten(items, key, value) =~= so_far.push(item));
        lemma_trimmed_push(so_far, item);
    }
}

proof fn lemma_text_kept(
    front: Seq<XmlItemView>,
    item: XmlItemView,
    key: Seq<char>,
    value: Seq<char>,
)
    requires
        is_tight(value),
        keeps_up(front, key, value),
        item is Text,
    ensures
        keeps_up(front.push(item), key, value),
{
    let items = front.push(item);
    assert(items.drop_last() =~= front);
    let raw = item->Text_raw;
    let passed = passing(front, key);
    let so_far = rewritten(front, key, value);
    lemma_trimmed_push(front, item);
    if items.contains(XmlItemView::End("root"@)) {
        let i = choose|i: int| 0 <= i < items.len() && items[i] == XmlItemView::End("root"@);
        assert(i < front.len());
        assert(front[i] == items[i]);
    }
    if front.contains(XmlItemView::End("root"@)) {
        let i = choose|i: int| 0 <= i < front.len() && front[i] == XmlItemView::End("root"@);
        assert(items[i] == front[i]);
    }
    let before = trimmed_reading(front);
    let after = trimmed_reading(so_far);
    let v = JsonView::Text(value);
    let seen = JsonView::Text(
        match trimmed_text(item)->Text_unescaped {
            Some(text) => text,
            None => ""@,
        },
    );
    if before.current is Some {
        lemma_entry_set(before.entries, after.entries, key, before.current->0, seen);
    }
    if passed.replaces(raw) {
        assert(rewritten(items, key, value) =~= so_far.push(value_text(value)));
        lemma_writing_value(so_far, value, key);
        assert(same_but(before.entries.with(key, seen), after.entries.with(key, v), key));
        assert(same_but(before.entries, after.entries.with(key, v), key));
    } else {
        assert(rewritten(items, key, value) =~= so_far.push(item));
        lemma_trimmed_push(so_far, item);
    }
}

proof fn lemma_event_kept(
    front: Seq<XmlItemView>,
    item: XmlItemView,
    key: Seq<char>,
    value: Seq<char>,
)
    requires
        keeps_up(front, key, value),
        !(item is End),
        !(item is Text),
        match item {
            XmlItemView::Start { name, attributes, raw } => name == "data"@ ==> named_once(
                attributes,
            ) && trimmed_reading(front).current is None,
            _ => true,
        },
    ensures
        keeps_up(front.push(item), key, value),
{
    lemma_strings_differ();
    let items = front.push(item);
    assert(items.drop_last() =~= front);
    let so_far = rewritten(front, key, value);
    lemma_trimmed_push(front, item);
    if items.contains(XmlItemView::End("root"@)) {
        let i = choose|i: int| 0 <= i < items.len() && items[i] == XmlItemView::End("root"@);
        assert(i < front.len());
        assert(front[i] == items[i]);
    }
    if front.contains(XmlItemView::End("root"@)) {
        let i = choose|i: int| 0 <= i < front.len() && front[i] == XmlItemView::End("root"@);
        assert(items[i] == front[i]);
    }
    assert(rewritten(items, key, value) =~= so_far.push(item));
    lemma_trimmed_push(so_far, item);
    match item {
        XmlItemView::Start { name, attributes, raw } => {
            if name == "data"@ {
                lemma_name_among(attributes, key);
            }
        },
        _ => {},
    }
}

proof fn lemma_rewriting(items: Seq<XmlItemView>, key: Seq<char>, value: Seq<char>)
    requires
        is_tight(value),
        is_flat(items),
    ensures
        keeps_up(items, key, value),
    decreases items.len(),
{
    if items.len() == 0 {
        assert(rewritten(items, key, value) =~= items);
    } else {
        let front = items.drop_last();
        let n = items.len() - 1;
        let item = items[n];
        assert(items.take(n) =~= front);
        lemma_flat_front(items);
        lemma_rewriting(front, key, value);
        lemma_trimming_keeps_the_place(front);
        assert(front.push(item) =~= items);
        match item {
            XmlItemView::End(name) => lemma_closing_kept(front, name, key, value),
            XmlItemView::Text { raw, unescaped } => lemma_text_kept(front, item, key, value),
            _ => lemma_event_kept(front, item, key, value),
        }
    }
}

proof fn lemma_flat_front(items: Seq<XmlItemView>)
    requires
        items.len() > 0,
        is_flat(items),
    ensures
        is_flat(items.drop_last()),
{
    let front = items.drop_last();
    assert forall|i: int| 0 <= i < front.len() implies match #[trigger] front[i] {
        XmlItemView::Start { name, attributes, raw } => name == "data"@ ==> named_once(attributes)
            && reading(front.take(i)).current is None,
        XmlItemView::End(name) => name == "root"@ ==> reading(front.take(i)).current is None,
        _ => true,
    } by {
        assert(front[i] == items[i]);
        assert(front.take(i) =~= items.take(i));
    }
}

/// What is read, trimmed, from the events of a document that an entry was written to
/// is that value for the entry, whether it was there or not, and for every other
/// entry what was read before.
pub proof fn lemma_read_after_write(items: Seq<XmlItemView>, key: Seq<char>, value: Seq<char>)
    requires
        is_tight(value),
        is_flat(items),
        items.contains(XmlItemView::End("root"@)),
        reading(items).current is None,
    ensures
        reading(trimmed_items(rewritten(items, key, value))).entries == reading(
            trimmed_items(items),
        ).entries.with(key, JsonView::Text(value)),
{
    lemma_rewriting(items, key, value);
    lemma_trimming_keeps_the_place(items);
    let before = trimmed_reading(items).entries->Object_0;
    let after = trimmed_reading(rewritten(items, key, value)).entries->Object_0;
    assert(after.remove(key) == before.remove(key));
    assert forall|k: Seq<char>| after.contains_key(k) == #[trigger] before.insert(
        key,
        JsonView::Text(value),
    ).contains_key(k) by {
        if k != key {
            assert(after.remove(key).contains_key(k) == before.remove(key).contains_key(k));
        }
    }
    assert forall|k: Seq<char>| #[trigger] after.contains_key(k) implies after[k] == before.insert(
        key,
        JsonView::Text(value),
    )[k] by {
        if k != key {
            assert(after.remove(key).contains_key(k));
            assert(after.remove(key)[k] == before.remove(key)[k]);
        }
    }
    assert(after =~= before.insert(key, JsonView::Text(value)));
}

/// Whether an event can be written: it was read from a document, or writes an entry.
spec fn is_piece(item: XmlItemView) -> bool {
    !is_final(item) && (is_read(item) || is_made(item))
}

/// What holds of the events of a document that are being rewritten, so that they can
/// be read again.
spec fn stays_orderly(items: Seq<XmlItemView>, key: Seq<char>, value: Seq<char>) -> bool {
    let out = rewritten(items, key, value);
    let passed = passing(items, key);
    let ends_in_text = items.len() > 0 && items.last() is Text;
    &&& open_names(items) is Some
    &&& open_names(out) == open_names(items)
    &&& texts_apart(out)
    &&& out.len() > 0 && out.last() is Text ==> ends_in_text
    &&& ends_in_text && passed.inside && passed.at.in_value ==> passed.done
    &&& forall|i: int| 0 <= i < out.len() ==> is_piece(#[trigger] out[i])
}

proof fn lemma_push_orderly(items: Seq<XmlItemView>, item: XmlItemView)
    requires
        texts_apart(items),
        item is Text ==> items.len() == 0 || !(items.last() is Text),
        is_piece(item),
        forall|i: int| 0 <= i < items.len() ==> is_piece(#[trigger] items[i]),
    ensures
        texts_apart(items.push(item)),
        forall|i: int| 0 <= i < items.len() + 1 ==> is_piece(#[trigger] items.push(item)[i]),
        open_names(items.push(item)) == match (open_names(items), item) {
            (None, _) => None,
            (Some(names), XmlItemView::Start { name, attributes, raw }) => Some(names.push(name)),
            (Some(names), XmlItemView::End(name)) => if names.len() > 0 && names.last() == name {
                Some(names.drop_last())
            } else {
                None
            },
            (Some(names), _) => Some(names),
        },
{
    let more = items.push(item);
    assert(more.drop_last() =~= items);
    assert forall|i: int| 0 < i < more.len() && (#[trigger] more[i]) is Text implies !(
    more[i - 1] is Text) by {
        if i < items.len() {
            assert(items[i] is Text);
        }
    }
    assert forall|i: int| 0 <= i < more.len() implies is_piece(#[trigger] more[i]) by {
        if i < items.len() {
            assert(more[i] == items[i]);
        }
    }
}

proof fn lemma_closing_orderly(
    front: Seq<XmlItemView>,
    name: Seq<char>,
    key: Seq<char>,
    value: Seq<char>,
)
    requires
        value.len() > 0,
        !key.contains('"'),
        stays_orderly(front, key, value),
        open_names(front.push(XmlItemView::End(name))) is Some,
        is_piece(XmlItemView::End(name)),
    ensures
        stays_orderly(front.push(XmlItemView::End(name)), key, value),
{
    lemma_strings_differ();
    let item = XmlItemView::End(name);
    let items = front.push(item);
    assert(items.drop_last() =~= front);
    let passed = passing(front, key);
    let so_far = rewritten(front, key, value);
    let names = open_names(front)->0;
    let text = value_text(value);
    assert(is_piece(text));
    assert(is_piece(value_tag()));
    assert(is_piece(entry_tag(key)));
    assert(is_piece(XmlItemView::End("value"@)));
    assert(is_piece(XmlItemView::End("data"@)));
    if passed.inside && passed.at.in_value && !passed.done && name == "value"@ {
        lemma_push_orderly(so_far, text);
        lemma_push_orderly(so_far.push(text), item);
        assert(rewritten(items, key, value) =~= so_far.push(text).push(item));
    } else if passed.inside && !passed.done && name == "data"@ {
        let a = so_far.push(value_tag());
        let b = a.push(text);
        let c = b.push(XmlItemView::End("value"@));
        lemma_push_orderly(so_far, value_tag());
        lemma_push_orderly(a, text);
        lemma_push_orderly(b, XmlItemView::End("value"@));
        assert(names.push("value"@).drop_last() =~= names);
        lemma_push_orderly(c, item);
        assert(rewritten(items, key, value) =~= c.push(item));
    } else if name == "root"@ && !passed.seen {
        let a = so_far.push(entry_tag(key));
        let b = a.push(value_tag());
        let c = b.push(text);
        let d = c.push(XmlItemView::End("value"@));
        let e = d.push(XmlItemView::End("data"@));
        lemma_push_orderly(so_far, entry_tag(key));
        lemma_push_orderly(a, value_tag());
        lemma_push_orderly(b, text);
        lemma_push_orderly(c, XmlItemView::End("value"@));
        assert(names.push("data"@).push("value"@).drop_last() =~= names.push("data"@));
        lemma_push_orderly(d, XmlItemView::End("data"@));
        assert(names.push("data"@).drop_last() =~= names);
        lemma_push_orderly(e, item);
        assert(rewritten(items, key, value) =~= e.push(item));
    } else {
        lemma_push_orderly(so_far, item);
        assert(rewritten(items, key, value) =~= so_far.push(item));
    }
}

proof fn lemma_order_kept(items: Seq<XmlItemView>, key: Seq<char>, value: Seq<char>)
    requires
        value.len() > 0,
        !key.contains('"'),
        is_orderly(items),
        forall|i: int| 0 <= i < items.len() ==> is_piece(#[trigger] items[i]),
    ensures
        stays_orderly(items, key, value),
    decreases items.len(),
{
    if items.len() == 0 {
        assert(rewritten(items, key, value) =~= items);
    } else {
        let front = items.drop_last();
        let n = items.len() - 1;
        let item = items[n];
        assert(front.push(item) =~= items);
        assert forall|i: int| 0 < i < front.len() && (#[trigger] front[i]) is Text implies !(
        front[i - 1] is Text) by {
            assert(items[i] is Text);
        }
        assert forall|i: int| 0 <= i < front.len() implies is_piece(#[trigger] front[i]) by {
            assert(front[i] == items[i]);
        }
        lemma_order_kept(front, key, value);
        let so_far = rewritten(front, key, value);
        assert(is_piece(items[n]));
        match item {
            XmlItemView::End(name) => lemma_closing_orderly(front, name, key, value),
            XmlItemView::Text { raw, unescaped } => {
                assert(items[n] is Text);
                if front.len() > 0 {
                    assert(front.last() == items[n - 1]);
                }
                assert(is_piece(value_text(value)));
                if passing(front, key).replaces(raw) {
                    lemma_push_orderly(so_far, value_text(value));
                    assert(rewritten(items, key, value) =~= so_far.push(value_text(value)));
                } else {
                    lemma_push_orderly(so_far, item);
                    assert(rewritten(items, key, value) =~= so_far.push(item));
                }
            },
            _ => {
                lemma_push_orderly(so_far, item);
                assert(rewritten(items, key, value) =~= so_far.push(item));
            },
        }
    }
}

proof fn lemma_rewritten_is_writable(doc: Seq<char>, name: Seq<char>, value: Seq<char>)
    requires
        value.len() > 0,
        !name.contains('"'),
        is_orderly(events_of(doc)),
        is_readable(doc),
        !begins_with_mark(items_text(rewritten(events_of(doc), name, value))),
    ensures
        is_writable(rewritten(events_of(doc), name, value)),
{
    let items = events_of(doc);
    assert forall|i: int| 0 <= i < items.len() implies is_piece(#[trigger] items[i]) by {
        assert(parsed_xml(doc, false)[i] == items[i]);
    }
    lemma_order_kept(items, name, value);
    let out = rewritten(items, name, value);
    assert forall|i: int| 0 <= i < out.len() implies !is_final(#[trigger] out[i]) && (is_read(
        out[i],
    ) || is_made(out[i])) by {
        assert(is_piece(out[i]));
    }
}

/// A key in which nothing is reserved is written as it is.
pub proof fn lemma_plain_keys_are_names(items: Seq<XmlItemView>, key: Seq<char>)
    requires
        forall|i: int| 0 <= i < key.len() ==> escaped_char(#[trigger] key[i]) == seq![key[i]],
    ensures
        written_name(items, key) == key,
{
    lemma_plain(key);
}

proof fn lemma_plain(key: Seq<char>)
    requires
        forall|i: int| 0 <= i < key.len() ==> escaped_char(#[trigger] key[i]) == seq![key[i]],
    ensures
        escaped_xml(key) == key,
    decreases key.len(),
{
    if key.len() > 0 {
        let front = key.drop_last();
        assert forall|i: int| 0 <= i < front.len() implies escaped_char(#[trigger] front[i])
            == seq![front[i]] by {
            assert(front[i] == key[i]);
        }
        lemma_plain(front);
        assert(escaped_char(key[key.len() - 1]) == seq![key.last()]);
        assert(front + seq![key.last()] =~= key);
    }
}

proof fn lemma_name_at(attributes: Seq<(Seq<char>, Seq<char>)>, i: int)
    requires
        named_once(attributes),
        0 <= i < attributes.len(),
        attributes[i].0 == "name"@,
    ensures
        forall|before: Option<Seq<char>>|
            #[trigger] name_among(attributes, before) == Some(attributes[i].1),
    decreases attributes.len(),
{
    let front = attributes.drop_last();
    if i < front.len() {
        assert(attributes[attributes.len() - 1].0 != "name"@);
        assert forall|a: int, b: int| 0 <= a < b < front.len() implies !((
        #[trigger] front[a]).0 == "name"@ && (#[trigger] front[b]).0 == "name"@) by {
            assert(attributes[a] == front[a] && attributes[b] == front[b]);
        }
        lemma_name_at(front, i);
        assert forall|before: Option<Seq<char>>|
            #[trigger] name_among(attributes, before) == Some(attributes[i].1) by {
            assert(name_among(front, before) == Some(front[i].1));
        }
    }
}

/// An element with a name and a value is read as an entry with that name and that
/// value, wherever the name stands among its attributes; it wins over an earlier entry
/// of the name, and the other entries stay. So is one whose text stands in it directly.
pub proof fn lemma_an_entry_is_read(
    items: Seq<XmlItemView>,
    attributes: Seq<(Seq<char>, Seq<char>)>,
    tag: Seq<char>,
    i: int,
    raw: Seq<char>,
    text: Seq<char>,
)
    requires
        reading(items).current is None,
        named_once(attributes),
        0 <= i < attributes.len(),
        attributes[i].0 == "name"@,
    ensures
        ({
            let start = XmlItemView::Start { name: "data"@, attributes, raw: tag };
            let words = XmlItemView::Text { raw, unescaped: Some(text) };
            let end = XmlItemView::End("data"@);
            let entries = reading(items).entries.with(attributes[i].1, JsonView::Text(text));
            let valued = reading(
                items.push(start).push(value_tag()).push(words).push(
                    XmlItemView::End("value"@),
                ).push(end),
            );
            let direct = reading(items.push(start).push(words).push(end));
            &&& valued.entries == entries && valued.current is None
            &&& direct.entries == entries && direct.current is None
        }),
{
    reveal_strlit("data");
    reveal_strlit("value");
    assert("data"@.len() == 4 && "value"@.len() == 5);
    lemma_name_at(attributes, i);
    let start = XmlItemView::Start { name: "data"@, attributes, raw: tag };
    let words = XmlItemView::Text { raw, unescaped: Some(text) };
    let end = XmlItemView::End("data"@);
    let a = items.push(start);
    assert(a.drop_last() =~= items);
    let d = a.push(words);
    assert(d.drop_last() =~= a);
    assert(d.push(end).drop_last() =~= d);
    let b = a.push(value_tag());
    assert(b.drop_last() =~= a);
    let c = b.push(words);
    assert(c.drop_last() =~= b);
    let e = c.push(XmlItemView::End("value"@));
    assert(e.drop_last() =~= c);
    assert(e.push(end).drop_last() =~= e);
    assert(reading(a) == reading_step(reading(items), start));
    assert(reading(a).current == Some(attributes[i].1));
    assert(reading(a).at == PlaceView::fresh());
    assert(reading(d) == reading_step(reading(a), words));
    assert(reading(d.push(end)) == reading_step(reading(d), end));
    assert(reading(b) == reading_step(reading(a), value_tag()));
    assert(reading(b).at.in_value);
    assert(reading(c) == reading_step(reading(b), words));
    assert(reading(e) == reading_step(reading(c), XmlItemView::End("value"@)));
    assert(reading(e.push(end)) == reading_step(reading(e), end));
}

/// What stands outside of every entry is not read.
pub proof fn lemma_nothing_else_is_read(items: Seq<XmlItemView>, item: XmlItemView)
    requires
        reading(items).current is None,
        !(item matches XmlItemView::Start { name, .. } && name == "data"@),
    ensures
        reading(items.push(item)).entries == reading(items).entries,
        reading(items.push(item)).current is None,
        reading(seq![]).entries == JsonView::object(),
{
    assert(items.push(item).drop_last() =~= items);
}

/// A document is shown as its entries, and one that is broken is an error.
pub proof fn lemma_documents_are_shown(items: Seq<XmlItemView>)
    requires
        ends_once(items),
    ensures
        items.last() is Eof ==> document_entries(items) == Ok::<CallToolResultView, Seq<char>>(
            shown(reading(items.drop_last()).entries),
        ),
        document_entries(items) is Err <==> items.last() is Broken,
        forall|key: Seq<char>, value: Seq<char>|
            #[trigger] document_with(items, key, value) is Err <==> items.last() is Broken,
{
}

/// A file is read where its path leads; a file is changed only where that is allowed,
/// and then with the key and the value that are given. What is missing is an error.
pub proof fn lemma_resx_arguments(args: JsonView, ctx: ToolContextView, disk: OnDiskView)
    ensures
        match args.field("path"@) {
            Some(JsonView::Text(raw)) => read_allowed(args, ctx, disk) == resolved_path(
                ctx.roots,
                raw,
                disk,
            ),
            _ => read_allowed(args, ctx, disk) matches Err(err) && err is InvalidArguments,
        },
        match (args.field("path"@), args.field("key"@), args.field("value"@)) {
            (
                Some(JsonView::Text(raw)),
                Some(JsonView::Text(key)),
                Some(JsonView::Text(value)),
            ) => if !ctx.policy.allow_file_mutation {
                write_allowed(args, ctx, disk) matches Err(err) && err is Denied
            } else {
                match resolved_path(ctx.roots, raw, disk) {
                    Ok(path) => write_allowed(args, ctx, disk) == Ok::<
                        (Seq<char>, EntryRequestView),
                        ToolErrorView,
                    >((path, EntryRequestView { path: raw, key, value })),
                    Err(err) => write_allowed(args, ctx, disk) == Err::<
                        (Seq<char>, EntryRequestView),
                        ToolErrorView,
                    >(err),
                }
            },
            _ => write_allowed(args, ctx, disk) matches Err(err) && err is InvalidArguments,
        },
{
}

/// What the two tools take.
pub proof fn lemma_resx_schemas()
    ensures
        resx_tools().len() == 2,
        resx_tools()[0].name == "read_resx"@,
        needs(resx_tools()[0].input_schema, seq!["path"@]),
        takes(resx_tools()[0].input_schema, "path"@, "string"@),
        resx_tools()[1].name == "write_resx_entry"@,
        needs(resx_tools()[1].input_schema, seq!["path"@, "key"@, "value"@]),
        takes(resx_tools()[1].input_schema, "path"@, "string"@),
        takes(resx_tools()[1].input_schema, "key"@, "string"@),
        takes(resx_tools()[1].input_schema, "value"@, "string"@),
{
    reveal_strlit("type");
    reveal_strlit("properties");
    reveal_strlit("required");
    reveal_strlit("description");
    reveal_strlit("path");
    reveal_strlit("key");
    reveal_strlit("value");
    assert("type"@.len() == 4);
    assert("properties"@.len() == 10);
    assert("required"@.len() == 8);
    assert("description"@.len() == 11);
    assert("path"@.len() == 4);
    assert("key"@.len() == 3);
    assert("value"@.len() == 5);
    assert("type"@[0] == 't');
    assert("path"@[0] == 'p');
}

/// Writing an entry goes through the document piece by piece and keeps it: one piece
/// more adds that piece, at the end, as it is. Only a text inside the entry gives way
/// to the value, and only before the end of a value, of an entry or of the document
/// something may be added.
pub proof fn lemma_pieces_are_kept(
    items: Seq<XmlItemView>,
    item: XmlItemView,
    key: Seq<char>,
    value: Seq<char>,
) -> (added: Seq<XmlItemView>)
    ensures
        ({
            let before = rewritten(items, key, value);
            let after = rewritten(items.push(item), key, value);
            let inside = passing(items, key).inside;
            match item {
                XmlItemView::Text { .. } => after == before.push(item) || (inside && after
                    == before.push(value_text(value))),
                XmlItemView::End(name) => {
                    &&& after == (before + added).push(item)
                    &&& added.len() > 0 ==> (inside && (name == "value"@ || name == "data"@))
                        || name == "root"@
                },
                _ => after == before.push(item),
            }
        }),
{
    let all = items.push(item);
    assert(all.drop_last() =~= items);
    let state = passing(items, key);
    let before = rewritten(items, key, value);
    let added = pieces(state, item, key, value).drop_last();
    let new_pieces = pieces(state, item, key, value);
    assert(rewritten(all, key, value) == before + new_pieces);
    match item {
        XmlItemView::Text { raw, unescaped } => {
            if state.replaces(raw) {
                assert(before + new_pieces =~= before.push(value_text(value)));
            } else {
                assert(before + new_pieces =~= before.push(item));
            }
        },
        XmlItemView::End(name) => {
            assert(new_pieces.last() == item);
            assert(before + new_pieces =~= (before + added).push(item));
        },
        _ => {
            assert(before + new_pieces =~= before.push(item));
        },
    }
    added
}

/// The inside of an entry begins with its tag and ends with the next end of an entry.
pub proof fn lemma_inside_an_entry(items: Seq<XmlItemView>, item: XmlItemView, key: Seq<char>)
    ensures
        opens_entry(item, key) ==> passing(items.push(item), key).inside,
        item == XmlItemView::End("data"@) ==> !passing(items.push(item), key).inside,
        !opens_entry(item, key) && item != XmlItemView::End("data"@) ==> passing(
            items.push(item),
            key,
        ).inside == passing(items, key).inside,
        !passing(seq![], key).inside,
{
    assert(items.push(item).drop_last() =~= items);
}

/// An entry that is there keeps its name as it is written, and a new one is written with
/// its name escaped.
pub proof fn lemma_written_names(items: Seq<XmlItemView>, key: Seq<char>, i: int)
    ensures
        0 <= i < items.len() && opens_entry(items[i], key) ==> written_name(items, key) == key,
        (forall|j: int| 0 <= j < items.len() ==> !opens_entry(#[trigger] items[j], key))
            ==> written_name(items, key) == escaped_xml(key),
{
}

} // verus!
