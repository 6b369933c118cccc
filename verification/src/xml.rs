//! XML documents, read event by event by the `quick_xml` crate.

use vstd::prelude::*;

use crate::text::{chars_of, opt_view, views};

verus! {

/// `quick_xml::reader::Reader`, which reads a document event by event.
#[verifier::external_type_specification]
#[verifier::external_body]
#[verifier::reject_recursive_types(R)]
pub struct ExReader<R>(quick_xml::reader::Reader<R>);

/// `quick_xml::events::Event`, one event of a document.
#[verifier::external_type_specification]
#[verifier::external_body]
pub struct ExEvent<'a>(quick_xml::events::Event<'a>);

/// One event of a document, taken apart.
pub enum XmlItem {
    /// An opening tag: its name, its attributes that can be read, and all that
    /// stands between its angle brackets.
    Start { name: String, attributes: Vec<(String, String)>, raw: String },
    /// A closing tag, by its name.
    End(String),
    /// Text as it is written, and what it means where it can be told.
    Text { raw: String, unescaped: Option<String> },
    /// Anything else, as it is written.
    Other(String),
    /// The end of the document.
    Eof,
    /// The document cannot be read any further: where, and why in two forms.
    Broken { position: u64, shown: String, detail: String },
}

/// What an [`XmlItem`] says.
pub enum XmlItemView {
    Start { name: Seq<char>, attributes: Seq<(Seq<char>, Seq<char>)>, raw: Seq<char> },
    End(Seq<char>),
    Text { raw: Seq<char>, unescaped: Option<Seq<char>> },
    Other(Seq<char>),
    Eof,
    Broken { position: u64, shown: Seq<char>, detail: Seq<char> },
}

/// Pairs of texts.
pub open spec fn pair_views(pairs: Seq<(String, String)>) -> Seq<(Seq<char>, Seq<char>)> {
    pairs.map_values(|p: (String, String)| (p.0@, p.1@))
}

impl View for XmlItem {
    type V = XmlItemView;

    open spec fn view(&self) -> XmlItemView {
        match self {
            XmlItem::Start { name, attributes, raw } => XmlItemView::Start {
                name: name@,
                attributes: pair_views(attributes@),
                raw: raw@,
            },
            XmlItem::End(name) => XmlItemView::End(name@),
            XmlItem::Text { raw, unescaped } => XmlItemView::Text {
                raw: raw@,
                unescaped: opt_view(*unescaped),
            },
            XmlItem::Other(raw) => XmlItemView::Other(raw@),
            XmlItem::Eof => XmlItemView::Eof,
            XmlItem::Broken { position, shown, detail } => XmlItemView::Broken {
                position: *position,
                shown: shown@,
                detail: detail@,
            },
        }
    }
}

/// Whether nothing comes after an event.
pub open spec fn is_final(item: XmlItemView) -> bool {
    item is Eof || item is Broken
}

/// Whether events end with one after which nothing comes, and only there.
pub open spec fn ends_once(items: Seq<XmlItemView>) -> bool {
    &&& items.len() > 0
    &&& is_final(items.last())
    &&& forall|i: int| 0 <= i < items.len() - 1 ==> !is_final(#[trigger] items[i])
}

/// The events of a document up to its end or to where it cannot be read any
/// further.
pub uninterp spec fn parsed_xml(text: Seq<char>, trim_text: bool) -> Seq<XmlItemView>;

/// The events that a reader has yet to give.
pub uninterp spec fn xml_remaining(
    reader: quick_xml::reader::Reader<&[u8]>,
) -> Seq<XmlItemView>;

/// A character as it is written in XML.
pub open spec fn escaped_char(c: char) -> Seq<char> {
    if c == '<' {
        "&lt;"@
    } else if c == '>' {
        "&gt;"@
    } else if c == '&' {
        "&amp;"@
    } else if c == '\'' {
        "&apos;"@
    } else if c == '"' {
        "&quot;"@
    } else {
        seq![c]
    }
}

/// A text as it is written in XML.
pub open spec fn escaped_xml(s: Seq<char>) -> Seq<char>
    decreases s.len(),
{
    if s.len() == 0 {
        seq![]
    } else {
        escaped_xml(s.drop_last()) + escaped_char(s.last())
    }
}

/// The text that says `value`.
pub open spec fn value_text(value: Seq<char>) -> XmlItemView {
    XmlItemView::Text { raw: escaped_xml(value), unescaped: Some(value) }
}

/// The tag that opens a value.
pub open spec fn value_tag() -> XmlItemView {
    XmlItemView::Start { name: "value"@, attributes: seq![], raw: "value"@ }
}

/// The tag that opens an entry.
pub open spec fn entry_tag(key: Seq<char>) -> XmlItemView {
    XmlItemView::Start {
        name: "data"@,
        attributes: seq![("name"@, key), ("xml:space"@, "preserve"@)],
        raw: "data name=\""@ + key + "\" xml:space=\"preserve\""@,
    }
}

/// An event as it is written in a document.
pub open spec fn item_text(item: XmlItemView) -> Seq<char> {
    match item {
        XmlItemView::Start { name, attributes, raw } => "<"@ + raw + ">"@,
        XmlItemView::End(name) => "</"@ + name + ">"@,
        XmlItemView::Text { raw, unescaped } => raw,
        XmlItemView::Other(raw) => raw,
        _ => seq![],
    }
}

/// Events as they are written in a document.
pub open spec fn items_text(items: Seq<XmlItemView>) -> Seq<char>
    decreases items.len(),
{
    if items.len() == 0 {
        seq![]
    } else {
        items_text(items.drop_last()) + item_text(items.last())
    }
}

/// The events of an entry.
pub open spec fn entry_events(name: Seq<char>, value: Seq<char>) -> Seq<XmlItemView> {
    seq![
        entry_tag(name),
        value_tag(),
        value_text(value),
        XmlItemView::End("value"@),
        XmlItemView::End("data"@),
    ]
}

/// Whether XML takes a character for a blank.
pub open spec fn is_xml_blank(c: char) -> bool {
    c == ' ' || c == '\t' || c == '\r' || c == '\n'
}

/// A text from its first character on that is no blank.
pub open spec fn after_blanks(s: Seq<char>) -> Seq<char>
    decreases s.len(),
{
    if s.len() > 0 && is_xml_blank(s[0]) {
        after_blanks(s.drop_first())
    } else {
        s
    }
}

/// A text up to its last character that is no blank.
pub open spec fn before_blanks(s: Seq<char>) -> Seq<char>
    decreases s.len(),
{
    if s.len() > 0 && is_xml_blank(s.last()) {
        before_blanks(s.drop_last())
    } else {
        s
    }
}

/// Whether a text holds nothing but blanks.
pub open spec fn is_all_blank(s: Seq<char>) -> bool {
    forall|i: int| 0 <= i < s.len() ==> is_xml_blank(#[trigger] s[i])
}

/// Whether a text holds nothing but blanks.
pub fn all_blank(text: &str) -> (r: bool)
    ensures
        r == is_all_blank(text@),
{
    let chars = chars_of(text);
    let mut i: usize = 0;
    while i < chars.len()
        invariant
            0 <= i <= chars@.len(),
            chars@ == text@,
            forall|k: int| 0 <= k < i ==> is_xml_blank(#[trigger] text@[k]),
        decreases chars@.len() - i,
    {
        let c = chars[i];
        if c != ' ' && c != '\t' && c != '\r' && c != '\n' {
            assert(!is_xml_blank(text@[i as int]));
            return false;
        }
        i += 1;
    }
    true
}

/// A text without the blanks around it.
pub open spec fn xml_trimmed(s: Seq<char>) -> Seq<char> {
    before_blanks(after_blanks(s))
}

/// Whether a text is not empty and neither begins nor ends with a blank.
pub open spec fn is_tight(text: Seq<char>) -> bool {
    text.len() > 0 && !is_xml_blank(text[0]) && !is_xml_blank(text.last())
}

/// What a text means where it can be told, by how it is written.
pub uninterp spec fn unescaped_xml(raw: Seq<char>) -> Option<Seq<char>>;

/// An event with the blanks around it left out where it is a text.
pub open spec fn trimmed_text(item: XmlItemView) -> XmlItemView {
    match item {
        XmlItemView::Text { raw, unescaped } => if xml_trimmed(raw) == raw {
            item
        } else {
            XmlItemView::Text { raw: xml_trimmed(raw), unescaped: unescaped_xml(xml_trimmed(raw)) }
        },
        other => other,
    }
}

/// Events with the blanks around texts left out, and texts of nothing else too.
pub open spec fn trimmed_items(items: Seq<XmlItemView>) -> Seq<XmlItemView>
    decreases items.len(),
{
    if items.len() == 0 {
        seq![]
    } else {
        let front = trimmed_items(items.drop_last());
        match items.last() {
            XmlItemView::Text { raw, unescaped } => if xml_trimmed(raw).len() == 0 {
                front
            } else {
                front.push(trimmed_text(items.last()))
            },
            other => front.push(other),
        }
    }
}

/// The names of the elements that are open after some events; nothing where one is
/// closed that is not the last to be opened.
pub open spec fn open_names(items: Seq<XmlItemView>) -> Option<Seq<Seq<char>>>
    decreases items.len(),
{
    if items.len() == 0 {
        Some(seq![])
    } else {
        match (open_names(items.drop_last()), items.last()) {
            (None, _) => None,
            (Some(names), XmlItemView::Start { name, attributes, raw }) => Some(names.push(name)),
            (Some(names), XmlItemView::End(name)) => if names.len() > 0 && names.last() == name {
                Some(names.drop_last())
            } else {
                None
            },
            (Some(names), _) => Some(names),
        }
    }
}

/// Whether no text follows another.
pub open spec fn texts_apart(items: Seq<XmlItemView>) -> bool {
    forall|i: int| 0 < i < items.len() && (#[trigger] items[i]) is Text ==> !(items[i - 1] is Text)
}

/// Whether elements are closed in the order in which they were opened, and texts
/// stand apart.
pub open spec fn is_orderly(items: Seq<XmlItemView>) -> bool {
    open_names(items) is Some && texts_apart(items)
}

/// Whether an event was read, untrimmed, from some document.
pub open spec fn is_read(item: XmlItemView) -> bool {
    exists|doc: Seq<char>, i: int|
        0 <= i < parsed_xml(doc, false).len() && #[trigger] parsed_xml(doc, false)[i] == item
}

/// Whether an event is one of those that write an entry.
pub open spec fn is_made(item: XmlItemView) -> bool {
    ||| exists|name: Seq<char>| !name.contains('"') && item == #[trigger] entry_tag(name)
    ||| exists|value: Seq<char>| value.len() > 0 && item == #[trigger] value_text(value)
    ||| item == value_tag()
    ||| item == XmlItemView::End("value"@)
    ||| item == XmlItemView::End("data"@)
}

/// Whether the text of events writes just these events: each of them was read from
/// a document or writes an entry, they are in order, and no byte order mark comes
/// first.
pub open spec fn is_writable(items: Seq<XmlItemView>) -> bool {
    &&& is_orderly(items)
    &&& forall|i: int|
        0 <= i < items.len() ==> !is_final(#[trigger] items[i]) && (is_read(items[i]) || is_made(
            items[i],
        ))
    &&& !begins_with_mark(items_text(items))
}

/// Whether a text begins with a byte order mark.
pub open spec fn begins_with_mark(text: Seq<char>) -> bool {
    text.len() > 0 && text[0] == '\u{feff}'
}

/// The events that are read of those that are written.
pub open spec fn read_again(items: Seq<XmlItemView>, trim_text: bool) -> Seq<XmlItemView> {
    if trim_text {
        trimmed_items(items).push(XmlItemView::Eof)
    } else {
        items.push(XmlItemView::Eof)
    }
}

proof fn lemma_blank_start(s: Seq<char>)
    ensures
        after_blanks(s).len() == 0 <==> is_all_blank(s),
        after_blanks(s).len() > 0 ==> !is_xml_blank(after_blanks(s)[0]),
    decreases s.len(),
{
    if s.len() > 0 && is_xml_blank(s[0]) {
        let rest = s.drop_first();
        lemma_blank_start(rest);
        if is_all_blank(rest) {
            assert forall|i: int| 0 <= i < s.len() implies is_xml_blank(#[trigger] s[i]) by {
                if i > 0 {
                    assert(rest[i - 1] == s[i]);
                }
            }
        }
        if is_all_blank(s) {
            assert forall|i: int| 0 <= i < rest.len() implies is_xml_blank(#[trigger] rest[i]) by {
                assert(rest[i] == s[i + 1]);
            }
        }
    }
}

proof fn lemma_blank_end(s: Seq<char>)
    requires
        s.len() > 0 ==> !is_xml_blank(s[0]),
    ensures
        before_blanks(s).len() == 0 <==> s.len() == 0,
    decreases s.len(),
{
    if s.len() > 0 && is_xml_blank(s.last()) {
        assert(s.len() > 1);
        assert(s.drop_last()[0] == s[0]);
        lemma_blank_end(s.drop_last());
    }
}

/// Nothing is left of a text exactly where it is all blanks.
pub proof fn lemma_all_blank(s: Seq<char>)
    ensures
        xml_trimmed(s).len() == 0 <==> is_all_blank(s),
{
    lemma_blank_start(s);
    lemma_blank_end(after_blanks(s));
}

proof fn lemma_escaped_ends(value: Seq<char>)
    requires
        is_tight(value),
    ensures
        is_tight(escaped_xml(value)),
    decreases value.len(),
{
    reveal_strlit("&lt;");
    reveal_strlit("&gt;");
    reveal_strlit("&amp;");
    reveal_strlit("&apos;");
    reveal_strlit("&quot;");
    let front = value.drop_last();
    let tail = escaped_char(value.last());
    assert(tail.len() > 0 && !is_xml_blank(tail.last()));
    lemma_escaped_start(value);
    assert(escaped_xml(value).last() == tail.last());
}

proof fn lemma_escaped_start(value: Seq<char>)
    requires
        value.len() > 0,
        !is_xml_blank(value[0]),
    ensures
        escaped_xml(value).len() > 0,
        !is_xml_blank(escaped_xml(value)[0]),
    decreases value.len(),
{
    reveal_strlit("&lt;");
    reveal_strlit("&gt;");
    reveal_strlit("&amp;");
    reveal_strlit("&apos;");
    reveal_strlit("&quot;");
    let front = value.drop_last();
    if front.len() > 0 {
        assert(front[0] == value[0]);
        lemma_escaped_start(front);
        assert(escaped_xml(value)[0] == escaped_xml(front)[0]);
    } else {
        assert(escaped_xml(front).len() == 0);
        assert(escaped_xml(value) =~= escaped_char(value.last()));
    }
}

/// Trimming leaves a value that neither begins nor ends with a blank as it is
/// written.
pub proof fn lemma_tight_values_stay(value: Seq<char>)
    requires
        is_tight(value),
    ensures
        xml_trimmed(escaped_xml(value)) == escaped_xml(value),
        escaped_xml(value).len() > 0,
{
    lemma_escaped_ends(value);
}

/// `Reader::from_str`, with `trim_text` set in its configuration: a reader that
/// has all events of the document before it. They are a function of the text and
/// of whether text is trimmed; there are finitely many up to the first that says
/// that the document ends or cannot be read any further.
///
/// Text runs up to the next markup, so no text follows another, and a closing tag
/// that does not match stops the reader. Trimming changes nothing but texts. From
/// the text of events the reader gives these events again: markup is told by what
/// stands between its own brackets, and what is escaped ends neither the attribute
/// nor the text that it stands in. Left out is a text that begins with a byte order
/// mark, which the reader drops.
#[verifier::external_body]
pub(crate) fn open_xml<'a>(
    text: &'a str,
    trim_text: bool,
) -> (r: quick_xml::reader::Reader<&'a [u8]>)
    ensures
        xml_remaining(r) == parsed_xml(text@, trim_text),
        ends_once(xml_remaining(r)),
        !trim_text && xml_remaining(r).last() is Eof ==> is_orderly(xml_remaining(r).drop_last()),
        trim_text && parsed_xml(text@, false).last() is Eof ==> xml_remaining(r) == read_again(
            parsed_xml(text@, false).drop_last(),
            true,
        ),
        forall|items: Seq<XmlItemView>|
            text@ == #[trigger] items_text(items) && is_writable(items) ==> xml_remaining(r)
                == read_again(items, trim_text),
{
    let mut reader = quick_xml::reader::Reader::from_str(text);
    reader.config_mut().trim_text(trim_text);
    reader
}

/// What an event says, an event that is neither a tag, a text nor the end being
/// given as it is written.
pub uninterp spec fn event_item(event: quick_xml::events::Event<'static>) -> XmlItemView;

/// `Reader::read_event_into`: the next event, or else where the reader is then
/// and the `Display` and `Debug` forms of its error.
#[verifier::external_body]
pub(crate) fn next_event(reader: &mut quick_xml::reader::Reader<&[u8]>) -> (r: Result<
    quick_xml::events::Event<'static>,
    (u64, String, String),
>)
    requires
        xml_remaining(*old(reader)).len() > 0,
    ensures
        xml_remaining(*old(reader))[0] == match r {
            Ok(event) => event_item(event),
            Err(fault) => broken_item(fault.0, fault.1@, fault.2@),
        },
        xml_remaining(*final(reader)) == xml_remaining(*old(reader)).drop_first(),
{
    match reader.read_event_into(&mut Vec::new()) {
        Ok(event) => Ok(event.into_owned()),
        Err(err) => Err((reader.buffer_position(), err.to_string(), format!("{:?}", err))),
    }
}

/// The item for a document that cannot be read any further.
pub open spec fn broken_item(position: u64, shown: Seq<char>, detail: Seq<char>) -> XmlItemView {
    XmlItemView::Broken { position, shown, detail }
}

/// `BytesStart::name`, `BytesStart::attributes` and the bytes of an opening tag,
/// attributes that cannot be read left out; `None` for every other event. Bytes
/// that are not UTF-8 are replaced.
#[verifier::external_body]
pub(crate) fn opening_tag(event: &quick_xml::events::Event<'static>) -> (r: Option<XmlItem>)
    ensures
        r is Some == event_item(*event) is Start,
        r matches Some(item) ==> item@ == event_item(*event),
{
    let text = |b: &[u8]| String::from_utf8_lossy(b).into_owned();
    match event {
        quick_xml::events::Event::Start(e) => Some(XmlItem::Start {
            name: text(e.name().as_ref()),
            attributes: e
                .attributes()
                .flatten()
                .map(|a| (text(a.key.as_ref()), text(&a.value)))
                .collect(),
            raw: text(e),
        }),
        _ => None,
    }
}

/// The bytes of a text and `BytesText::unescape`; `None` for every other event.
/// Bytes that are not UTF-8 are replaced.
#[verifier::external_body]
pub(crate) fn text_piece(event: &quick_xml::events::Event<'static>) -> (r: Option<XmlItem>)
    ensures
        r is Some == event_item(*event) is Text,
        r matches Some(item) ==> item@ == event_item(*event),
        r matches Some(XmlItem::Text { raw, unescaped }) ==> opt_view(unescaped) == unescaped_xml(
            raw@,
        ),
{
    match event {
        quick_xml::events::Event::Text(e) => Some(XmlItem::Text {
            raw: String::from_utf8_lossy(e).into_owned(),
            unescaped: e.unescape().ok().map(|t| t.into_owned()),
        }),
        _ => None,
    }
}

/// The bytes of a closing tag, the end, or else what `Writer::write_event`
/// writes. Bytes that are not UTF-8 are replaced. Of an opening tag and of a text
/// nothing is said.
#[verifier::external_body]
pub(crate) fn other_piece(event: quick_xml::events::Event<'static>) -> (r: XmlItem)
    ensures
        !(event_item(event) is Start) && !(event_item(event) is Text) ==> r@ == event_item(event),
{
    let text = |b: &[u8]| String::from_utf8_lossy(b).into_owned();
    match event {
        quick_xml::events::Event::End(e) => XmlItem::End(text(&e)),
        quick_xml::events::Event::Eof => XmlItem::Eof,
        other => {
            let mut writer = quick_xml::writer::Writer::new(Vec::new());
            let _ = writer.write_event(other);
            XmlItem::Other(text(&writer.into_inner()))
        },
    }
}

/// Takes the next event of a document.
fn next_item(reader: &mut quick_xml::reader::Reader<&[u8]>) -> (r: XmlItem)
    requires
        xml_remaining(*old(reader)).len() > 0,
    ensures
        r@ == xml_remaining(*old(reader))[0],
        xml_remaining(*final(reader)) == xml_remaining(*old(reader)).drop_first(),
{
    match next_event(reader) {
        Err((position, shown, detail)) => XmlItem::Broken { position, shown, detail },
        Ok(event) => {
            if let Some(item) = opening_tag(&event) {
                return item;
            }
            if let Some(item) = text_piece(&event) {
                return item;
            }
            other_piece(event)
        },
    }
}

/// Reads all events of a document.
pub fn read_document(text: &str, trim_text: bool) -> (r: Vec<XmlItem>)
    ensures
        views(r@) == parsed_xml(text@, trim_text),
        ends_once(views(r@)),
        !trim_text && views(r@).last() is Eof ==> is_orderly(views(r@).drop_last()),
        trim_text && parsed_xml(text@, false).last() is Eof ==> views(r@) == read_again(
            parsed_xml(text@, false).drop_last(),
            true,
        ),
        forall|items: Seq<XmlItemView>|
            text@ == #[trigger] items_text(items) && is_writable(items) ==> views(r@)
                == read_again(items, trim_text),
{
    let mut reader = open_xml(text, trim_text);
    let ghost all = xml_remaining(reader);
    let mut items: Vec<XmlItem> = Vec::new();
    assert(all.skip(0) =~= all);
    assert(views(items@) =~= all.take(0));
    loop
        invariant_except_break
            items@.len() < all.len(),
            views(items@) == all.take(items@.len() as int),
            xml_remaining(reader) == all.skip(items@.len() as int),
        invariant
            ends_once(all),
        ensures
            views(items@) == all,
        decreases all.len() - items@.len(),
    {
        let ghost before = items@;
        let item = next_item(&mut reader);
        let last = match &item {
            XmlItem::Eof => true,
            XmlItem::Broken { .. } => true,
            _ => false,
        };
        items.push(item);
        proof {
            assert(all.skip(before.len() as int)[0] == all[before.len() as int]);
            assert(all.skip(before.len() as int).drop_first() =~= all.skip(items@.len() as int));
            assert(views(items@) =~= views(before).push(item@));
            assert(all.take(items@.len() as int) =~= all.take(before.len() as int).push(item@));
        }
        if last {
            assert(items@.len() == all.len());
            assert(all.take(items@.len() as int) =~= all);
            break;
        }
    }
    items
}

/// `quick_xml::escape::escape`: the text with the five characters that XML
/// reserves written as entities.
#[verifier::external_body]
pub(crate) fn escape_xml(text: &str) -> (r: String)
    ensures
        r@ == escaped_xml(text@),
{
    quick_xml::escape::escape(text).into_owned()
}

/// Blanks, tabs and line ends around a text are not part of it.
pub proof fn lemma_xml_trimming(left: Seq<char>, core: Seq<char>, right: Seq<char>)
    requires
        forall|i: int|
            0 <= i < left.len() ==> #[trigger] left[i] == ' ' || left[i] == '\t' || left[i] == '\r'
                || left[i] == '\n',
        forall|i: int|
            0 <= i < right.len() ==> #[trigger] right[i] == ' ' || right[i] == '\t' || right[i]
                == '\r' || right[i] == '\n',
        is_tight(core),
    ensures
        xml_trimmed(left + core + right) == core,
        is_all_blank(left),
    decreases left.len() + right.len(),
{
    let whole = left + core + right;
    if left.len() > 0 {
        let less = left.drop_first();
        assert(forall|i: int| 0 <= i < less.len() ==> #[trigger] less[i] == left[i + 1]);
        assert(whole.drop_first() =~= less + core + right);
        assert(whole[0] == left[0]);
        lemma_xml_trimming(less, core, right);
    } else {
        assert(whole =~= core + right);
        assert(whole[0] == core[0]);
        assert(after_blanks(whole) == whole);
        lemma_trim_right(core, right);
    }
}

proof fn lemma_trim_right(core: Seq<char>, right: Seq<char>)
    requires
        forall|i: int|
            0 <= i < right.len() ==> #[trigger] right[i] == ' ' || right[i] == '\t' || right[i]
                == '\r' || right[i] == '\n',
        is_tight(core),
    ensures
        before_blanks(core + right) == core,
    decreases right.len(),
{
    let whole = core + right;
    if right.len() > 0 {
        let less = right.drop_last();
        assert(forall|i: int| 0 <= i < less.len() ==> #[trigger] less[i] == right[i]);
        assert(whole.drop_last() =~= core + less);
        assert(whole.last() == right[right.len() - 1]);
        lemma_trim_right(core, less);
    } else {
        assert(whole =~= core);
    }
}

} // verus!
