//! Reading and patching bytes.

use vstd::prelude::*;

use super::{module_result, show, shown};
use crate::bytes::{byte_text, hex_text, lemma_hex_text_is_digits, positions};
use crate::json::{Json, JsonNumber, JsonView, json_number};
use crate::protocol::mcp::{CallToolResult, CallToolResultView, Tool, ToolView};
use crate::text::{
    byte_count, byte_len, cat2, cat4, cat5, char_byte_count, char_len, chars_of, decimal,
    decimal_text, digit, digit_char, glued, is_cut, lemma_ascii_bytes, lemma_ascii_char,
    lemma_cuts_are_unique, lemma_replacing_cuts, substituted, text_of, views,
};
use crate::tools::hex::{lemma_substitution_length, replace_bytes};
use crate::tools::schema::{needs, object_schema, property, property_schema, schema1, takes};

verus! {

/// The module for bytes.
pub struct HexModule;

/// What `hex_patch` does.
pub const PATCH_DESCRIPTION: &'static str = "Patches hex bytes in a binary file at an offset or searches and replaces hex pattern";

/// What the module advertises.
pub open spec fn hex_tools() -> Seq<ToolView> {
    seq![
        ToolView::new(
            "hex_view"@,
            "Reads a file as hex bytes with optional offset and length"@,
            object_schema(
                JsonView::object().with(
                    "path"@,
                    property_schema("string"@, "File path to read"@),
                ).with(
                    "offset"@,
                    property_schema("integer"@, "Byte offset to start reading (default: 0)"@),
                ).with("length"@, property_schema("integer"@, "Number of bytes to read"@)),
                seq!["path"@],
            ),
        ),
        ToolView::new(
            "hex_patch"@,
            PATCH_DESCRIPTION@,
            object_schema(
                JsonView::object().with(
                    "path"@,
                    property_schema("string"@, "File path to patch"@),
                ).with(
                    "search_hex"@,
                    property_schema("string"@, "Hex pattern to search for (e.g. '414243')"@),
                ).with(
                    "replace_hex"@,
                    property_schema("string"@, "Hex pattern to replace with"@),
                ).with(
                    "offset"@,
                    property_schema("integer"@, "Byte offset to write hex data"@),
                ).with("hex_data"@, property_schema("string"@, "Hex bytes to write"@)),
                seq!["path"@],
            ),
        ),
    ]
}

// ---------------------------------------------------------------------------
// Hexadecimal texts

/// Whether a character may stand between digits.
pub open spec fn is_gap(c: char) -> bool {
    c == ' ' || c == '\n' || c == '\r'
}

/// A text without what may stand between its digits.
pub open spec fn without_gaps(text: Seq<char>) -> Seq<char>
    decreases text.len(),
{
    if text.len() == 0 {
        seq![]
    } else if is_gap(text.last()) {
        without_gaps(text.drop_last())
    } else {
        without_gaps(text.drop_last()).push(text.last())
    }
}

/// What a character means as a hexadecimal digit in either case.
pub open spec fn digit_value(c: char) -> Option<int> {
    if '0' <= c <= '9' {
        Some(c as int - 48)
    } else if 'a' <= c <= 'f' {
        Some(c as int - 87)
    } else if 'A' <= c <= 'F' {
        Some(c as int - 55)
    } else {
        None
    }
}

/// The byte that two characters write: two digits, or a plus sign and a digit.
pub open spec fn pair_value(a: char, b: char) -> Option<u8> {
    match (digit_value(a), digit_value(b)) {
        (Some(high), Some(low)) => Some((16 * high + low) as u8),
        (None, Some(low)) => if a == '+' {
            Some(low as u8)
        } else {
            None
        },
        _ => None,
    }
}

/// The message for a pair that writes no byte.
pub const BAD_BYTE: &'static str = "Invalid hex byte: invalid digit found in string";

/// The bytes that characters write from position `i` on, pair by pair. A
/// character of two bytes takes the place of a pair, and writes none.
pub open spec fn pair_bytes(s: Seq<char>, i: int) -> Result<Seq<u8>, Seq<char>>
    decreases s.len() - i,
{
    if i < 0 || i >= s.len() {
        Ok(seq![])
    } else if i + 1 >= s.len() || char_len(s[i]) != 1 {
        Err(BAD_BYTE@)
    } else {
        match pair_value(s[i], s[i + 1]) {
            None => Err(BAD_BYTE@),
            Some(b) => match pair_bytes(s, i + 2) {
                Ok(rest) => Ok(seq![b] + rest),
                Err(message) => Err(message),
            },
        }
    }
}

/// Whether the pairs from position `i` on, up to the first that writes no byte,
/// do not cut a character in two.
pub open spec fn pairs_align(s: Seq<char>, i: int) -> bool
    decreases s.len() - i,
{
    if i < 0 || i >= s.len() {
        true
    } else if char_len(s[i]) == 2 {
        true
    } else if char_len(s[i]) == 1 && i + 1 < s.len() && char_len(s[i + 1]) == 1 {
        pair_value(s[i], s[i + 1]) is None || pairs_align(s, i + 2)
    } else {
        false
    }
}

/// Whether a text can be cut into pairs.
pub open spec fn is_aligned(text: Seq<char>) -> bool {
    byte_len(without_gaps(text)) % 2 == 0 ==> pairs_align(without_gaps(text), 0)
}

/// The bytes that a text writes.
pub open spec fn hex_bytes(text: Seq<char>) -> Result<Seq<u8>, Seq<char>> {
    if byte_len(without_gaps(text)) % 2 != 0 {
        Err("Hex string length must be even"@)
    } else {
        pair_bytes(without_gaps(text), 0)
    }
}

fn cut_gaps(text: &str) -> (r: Vec<char>)
    ensures
        r@ == without_gaps(text@),
{
    let chars = chars_of(text);
    let mut kept: Vec<char> = Vec::new();
    let mut i: usize = 0;
    assert(chars@.take(0) =~= seq![]);
    while i < chars.len()
        invariant
            0 <= i <= chars@.len(),
            kept@ == without_gaps(chars@.take(i as int)),
        decreases chars@.len() - i,
    {
        assert(chars@.take(i + 1).drop_last() =~= chars@.take(i as int));
        let c: char = chars[i];
        if c != ' ' && c != '\n' && c != '\r' {
            kept.push(c);
        }
        i += 1;
    }
    assert(chars@.take(i as int) =~= chars@);
    kept
}

fn value_of(c: char) -> (r: Option<u8>)
    ensures
        match r {
            Some(d) => digit_value(c) == Some(d as int) && d < 16,
            None => digit_value(c) is None,
        },
{
    let code: u32 = c as u32;
    if '0' <= c && c <= '9' {
        Some((code - 48) as u8)
    } else if 'a' <= c && c <= 'f' {
        Some((code - 87) as u8)
    } else if 'A' <= c && c <= 'F' {
        Some((code - 55) as u8)
    } else {
        None
    }
}

fn byte_of(a: char, b: char) -> (r: Option<u8>)
    ensures
        r == pair_value(a, b),
{
    match (value_of(a), value_of(b)) {
        (Some(high), Some(low)) => Some(16 * high + low),
        (None, Some(low)) => if a == '+' {
            Some(low)
        } else {
            None
        },
        _ => None,
    }
}

fn even_bytes(s: &Vec<char>) -> (r: bool)
    ensures
        r == (byte_len(s@) % 2 == 0),
{
    let count: usize = byte_count(&text_of(s));
    count % 2 == 0
}

/// Whether a text can be cut into pairs.
pub fn aligned(text: &str) -> (r: bool)
    ensures
        r == is_aligned(text@),
{
    let s = cut_gaps(text);
    if !even_bytes(&s) {
        return true;
    }
    let mut i: usize = 0;
    while i < s.len()
        invariant
            0 <= i <= s.len(),
            s@ == without_gaps(text@),
            byte_len(s@) % 2 == 0,
            pairs_align(s@, 0) == pairs_align(s@, i as int),
        decreases s@.len() - i,
    {
        let width: usize = char_byte_count(s[i]);
        if width == 2 {
            return true;
        }
        if width != 1 || i + 1 >= s.len() || char_byte_count(s[i + 1]) != 1 {
            return false;
        }
        if byte_of(s[i], s[i + 1]).is_none() {
            return true;
        }
        i += 2;
    }
    true
}

/// Reads the bytes that a text writes in hexadecimal; blanks and line ends
/// between the digits do not count.
pub fn parse_hex(text: &str) -> (r: Result<Vec<u8>, String>)
    requires
        is_aligned(text@),
    ensures
        module_result(r) == hex_bytes(text@),
{
    let s = cut_gaps(text);
    if !even_bytes(&s) {
        return Err("Hex string length must be even".to_owned());
    }
    let mut out: Vec<u8> = Vec::new();
    let mut i: usize = 0;
    proof {
        match pair_bytes(s@, 0) {
            Ok(rest) => {
                assert(out@ + rest =~= rest);
            },
            Err(_) => {},
        }
    }
    while i < s.len()
        invariant
            0 <= i <= s.len(),
            s@ == without_gaps(text@),
            byte_len(s@) % 2 == 0,
            pairs_align(s@, i as int),
            pair_bytes(s@, 0) == match pair_bytes(s@, i as int) {
                Ok(rest) => Ok::<Seq<u8>, Seq<char>>(out@ + rest),
                Err(message) => Err::<Seq<u8>, Seq<char>>(message),
            },
        decreases s@.len() - i,
    {
        if char_byte_count(s[i]) != 1 {
            return Err(BAD_BYTE.to_owned());
        }
        match byte_of(s[i], s[i + 1]) {
            Some(b) => {
                let ghost before = out@;
                out.push(b);
                proof {
                    match pair_bytes(s@, i + 2) {
                        Ok(rest) => {
                            assert(before + (seq![b] + rest) =~= out@ + rest);
                        },
                        Err(_) => {},
                    }
                }
                i += 2;
            },
            None => {
                return Err(BAD_BYTE.to_owned());
            },
        }
    }
    assert(out@ + Seq::<u8>::empty() =~= out@);
    Ok(out)
}

// ---------------------------------------------------------------------------
// Viewing

/// The file that a call names.
pub open spec fn named_file(args: JsonView) -> Result<Seq<char>, Seq<char>> {
    match args.text_field("path"@) {
        Some(path) => Ok(path),
        None => Err("Missing path"@),
    }
}

/// Where a view starts.
pub open spec fn view_offset(args: JsonView) -> usize {
    match args.unsigned_field("offset"@) {
        Some(offset) => offset as usize,
        None => 0,
    }
}

/// How many bytes a view is to show, where that was said.
pub open spec fn view_length(args: JsonView) -> Option<usize> {
    match args.unsigned_field("length"@) {
        Some(length) => Some(length as usize),
        None => None,
    }
}

/// What a view of a file is answered with.
pub open spec fn view_answer(path: Seq<char>, offset: usize, length: Option<usize>, bytes: Seq<u8>) -> Result<
    CallToolResultView,
    Seq<char>,
> {
    if offset >= bytes.len() {
        Err(
            "Offset "@ + decimal(offset as nat) + " is beyond file size "@ + decimal(bytes.len()),
        )
    } else {
        let end = match length {
            Some(length) if offset + length < bytes.len() => offset + length,
            _ => bytes.len() as int,
        };
        let window = bytes.subrange(offset as int, end);
        Ok(
            shown(
                JsonView::object().with("path"@, JsonView::Text(path)).with(
                    "total_bytes"@,
                    json_number(bytes.len() as u64),
                ).with("offset"@, json_number(offset as u64)).with(
                    "bytes_read"@,
                    json_number(window.len() as u64),
                ).with("hex"@, JsonView::Text(hex_text(window))),
            ),
        )
    }
}

fn hex_of(bytes: &Vec<u8>, from: usize, to: usize) -> (r: String)
    requires
        from <= to <= bytes@.len(),
    ensures
        r@ == hex_text(bytes@.subrange(from as int, to as int)),
{
    let mut out = String::new();
    let mut i: usize = from;
    assert(out@ =~= hex_text(bytes@.subrange(from as int, from as int)));
    while i < to
        invariant
            from <= i <= to <= bytes@.len(),
            out@ == hex_text(bytes@.subrange(from as int, i as int)),
        decreases to - i,
    {
        let b: u8 = bytes[i];
        let ghost before = out@;
        out.push(digit(b / 16));
        out.push(digit(b % 16));
        proof {
            let longer = bytes@.subrange(from as int, i + 1);
            assert(longer.drop_last() =~= bytes@.subrange(from as int, i as int));
            assert(longer.last() == b);
            assert(out@ =~= before + byte_text(b));
        }
        i += 1;
    }
    out
}

/// Answers a view of a file.
pub fn show_view(path: &str, offset: usize, length: Option<usize>, bytes: &Vec<u8>) -> (r: Result<
    CallToolResult,
    String,
>)
    requires
        offset < bytes@.len() ==> match length {
            Some(length) => offset + length <= usize::MAX,
            None => true,
        },
    ensures
        module_result(r) == view_answer(path@, offset, length, bytes@),
{
    if offset >= bytes.len() {
        return Err(
            cat4(
                "Offset ",
                &decimal_text(offset as u64),
                " is beyond file size ",
                &decimal_text(bytes.len() as u64),
            ),
        );
    }
    let end: usize = match length {
        Some(length) => if offset + length < bytes.len() {
            offset + length
        } else {
            bytes.len()
        },
        None => bytes.len(),
    };
    Ok(
        show(
            Json::object().with("path", Json::string(path)).with(
                "total_bytes",
                Json::number(bytes.len() as u64),
            ).with("offset", Json::number(offset as u64)).with(
                "bytes_read",
                Json::number((end - offset) as u64),
            ).with("hex", Json::string(&hex_of(bytes, offset, end))),
        ),
    )
}

// ---------------------------------------------------------------------------
// Patching

/// What a patch is to do.
pub enum HexPatch {
    Substitute { search: String, replacement: String },
    Write { offset: usize, data: String },
}

/// What a [`HexPatch`] says.
pub enum HexPatchView {
    Substitute { search: Seq<char>, replacement: Seq<char> },
    Write { offset: usize, data: Seq<char> },
}

impl View for HexPatch {
    type V = HexPatchView;

    open spec fn view(&self) -> HexPatchView {
        match self {
            HexPatch::Substitute { search, replacement } => HexPatchView::Substitute {
                search: search@,
                replacement: replacement@,
            },
            HexPatch::Write { offset, data } => HexPatchView::Write { offset: *offset, data: data@ },
        }
    }
}

/// The message for a patch that has neither a pattern nor an offset.
pub const NOTHING_TO_PATCH: &'static str = "Either (search_hex, replace_hex) or (offset, hex_data) must be provided";

/// The patch that a call asks for.
pub open spec fn requested_patch(args: JsonView) -> Result<HexPatchView, Seq<char>> {
    match args.text_field("search_hex"@) {
        Some(search) => Ok(
            HexPatchView::Substitute {
                search,
                replacement: super::text_or_empty(args, "replace_hex"@),
            },
        ),
        None => match args.unsigned_field("offset"@) {
            Some(offset) => match args.text_field("hex_data"@) {
                Some(data) => Ok(HexPatchView::Write { offset: offset as usize, data }),
                None => Err("Missing hex_data"@),
            },
            None => Err(NOTHING_TO_PATCH@),
        },
    }
}

/// Bytes written over others from `offset` on; what lies between the end and the
/// offset is filled with zeros.
pub open spec fn written_at(original: Seq<u8>, offset: int, data: Seq<u8>) -> Seq<u8> {
    Seq::new(
        if offset + data.len() > original.len() {
            (offset + data.len()) as nat
        } else {
            original.len()
        },
        |i: int|
            if offset <= i < offset + data.len() {
                data[i - offset]
            } else if i < original.len() {
                original[i]
            } else {
                0u8
            },
    )
}

/// Writes bytes over others from an offset on.
pub fn write_at(original: &Vec<u8>, offset: usize, data: &Vec<u8>) -> (r: Vec<u8>)
    requires
        offset + data@.len() <= usize::MAX,
    ensures
        r@ == written_at(original@, offset as int, data@),
{
    let end: usize = offset + data.len();
    let total: usize = if end > original.len() {
        end
    } else {
        original.len()
    };
    let mut out: Vec<u8> = Vec::new();
    let mut i: usize = 0;
    while i < total
        invariant
            0 <= i <= total,
            end == offset + data@.len(),
            total == written_at(original@, offset as int, data@).len(),
            out@.len() == i,
            forall|k: int|
                0 <= k < i ==> #[trigger] out@[k] == written_at(original@, offset as int, data@)[k],
        decreases total - i,
    {
        if offset <= i && i < end {
            out.push(data[i - offset]);
        } else if i < original.len() {
            out.push(original[i]);
        } else {
            out.push(0);
        }
        i += 1;
    }
    assert(out@ =~= written_at(original@, offset as int, data@));
    out
}

/// What a substitution that was made is answered with.
pub open spec fn substituted_message(count: nat, path: Seq<char>) -> Seq<char> {
    "Replaced "@ + decimal(count) + " occurrences of hex pattern in "@ + path
}

/// What a write that was made is answered with.
pub open spec fn written_message(count: nat, offset: nat, path: Seq<char>) -> Seq<char> {
    "Patched "@ + decimal(count) + " bytes at offset "@ + decimal(offset) + " in "@ + path
}

/// Answers a substitution that was made.
fn report_substitution(count: usize, path: &str) -> (r: CallToolResult)
    ensures
        r@ == CallToolResultView::text(substituted_message(count as nat, path@)),
{
    CallToolResult::text(
        cat4("Replaced ", &decimal_text(count as u64), " occurrences of hex pattern in ", path),
    )
}

/// Answers a write that was made.
fn report_write(count: usize, offset: usize, path: &str) -> (r: CallToolResult)
    ensures
        r@ == CallToolResultView::text(written_message(count as nat, offset as nat, path@)),
{
    CallToolResult::text(
        cat2(
            &cat5(
                "Patched ",
                &decimal_text(count as u64),
                " bytes at offset ",
                &decimal_text(offset as u64),
                " in ",
            ),
            path,
        ),
    )
}

/// What a patch makes of the bytes of a file, and what the call is answered with.
pub open spec fn patched(patch: HexPatchView, path: Seq<char>, bytes: Seq<u8>) -> Result<
    (Seq<u8>, CallToolResultView),
    Seq<char>,
> {
    match patch {
        HexPatchView::Substitute { search, replacement } => match hex_bytes(search) {
            Err(message) => Err(message),
            Ok(needle) => match hex_bytes(replacement) {
                Err(message) => Err(message),
                Ok(with) => Ok(
                    (
                        substituted(bytes, needle, with),
                        CallToolResultView::text(
                            substituted_message(positions(bytes, needle, 0).len(), path),
                        ),
                    ),
                ),
            },
        },
        HexPatchView::Write { offset, data } => match hex_bytes(data) {
            Err(message) => Err(message),
            Ok(data) => Ok(
                (
                    written_at(bytes, offset as int, data),
                    CallToolResultView::text(written_message(data.len(), offset as nat, path)),
                ),
            ),
        },
    }
}

/// Whether a patch can be carried out: its texts can be cut into pairs, the
/// pattern is not empty, and the write ends at a position that can be counted.
pub open spec fn is_feasible(patch: HexPatchView) -> bool {
    match patch {
        HexPatchView::Substitute { search, replacement } => is_aligned(search) && match hex_bytes(
            search,
        ) {
            Err(_) => true,
            Ok(needle) => is_aligned(replacement) && (hex_bytes(replacement) is Ok ==> needle.len()
                > 0),
        },
        HexPatchView::Write { offset, data } => is_aligned(data) && match hex_bytes(data) {
            Err(_) => true,
            Ok(data) => offset + data.len() <= usize::MAX,
        },
    }
}

impl HexPatch {
    /// Whether the patch can be carried out.
    pub fn feasible(&self) -> (r: bool)
        ensures
            r == is_feasible(self@),
    {
        match self {
            HexPatch::Substitute { search, replacement } => {
                if !aligned(search) {
                    return false;
                }
                match parse_hex(search) {
                    Err(_) => true,
                    Ok(needle) => aligned(replacement) && (needle.len() > 0 || parse_hex(
                        replacement,
                    ).is_err()),
                }
            },
            HexPatch::Write { offset, data } => {
                if !aligned(data) {
                    return false;
                }
                match parse_hex(data) {
                    Err(_) => true,
                    Ok(data) => data.len() <= usize::MAX - *offset,
                }
            },
        }
    }

    /// Makes the patch on the bytes of a file; the answer comes with them.
    pub fn apply(&self, path: &str, bytes: &Vec<u8>) -> (r: Result<
        (Vec<u8>, CallToolResult),
        String,
    >)
        requires
            is_feasible(self@),
        ensures
            match r {
                Ok((after, answer)) => patched(self@, path@, bytes@) == Ok::<
                    (Seq<u8>, CallToolResultView),
                    Seq<char>,
                >((after@, answer@)),
                Err(message) => patched(self@, path@, bytes@) == Err::<
                    (Seq<u8>, CallToolResultView),
                    Seq<char>,
                >(message@),
            },
    {
        match self {
            HexPatch::Substitute { search, replacement } => match parse_hex(search) {
                Err(message) => Err(message),
                Ok(needle) => match parse_hex(replacement) {
                    Err(message) => Err(message),
                    Ok(with) => {
                        let (after, count) = replace_bytes(bytes, &needle, &with);
                        Ok((after, report_substitution(count, path)))
                    },
                },
            },
            HexPatch::Write { offset, data } => match parse_hex(data) {
                Err(message) => Err(message),
                Ok(data) => Ok(
                    (
                        write_at(bytes, *offset, &data),
                        report_write(data.len(), *offset, path),
                    ),
                ),
            },
        }
    }
}

impl HexModule {
    /// The module.
    pub fn new() -> (r: HexModule)
        ensures
            r == HexModule,
    {
        HexModule
    }

    /// Unique identifier of the module.
    pub fn name(&self) -> (r: &'static str)
        ensures
            r@ == "hex"@,
    {
        "hex"
    }

    /// What the module advertises.
    pub fn tools(&self) -> (r: Vec<Tool>)
        ensures
            views(r@) == hex_tools(),
    {
        let tools: Vec<Tool> = vec![
            Tool::new(
                "hex_view",
                "Reads a file as hex bytes with optional offset and length",
                schema1(
                    Json::object().with("path", property("string", "File path to read")).with(
                        "offset",
                        property("integer", "Byte offset to start reading (default: 0)"),
                    ).with("length", property("integer", "Number of bytes to read")),
                    "path",
                ),
            ),
            Tool::new(
                "hex_patch",
                PATCH_DESCRIPTION,
                schema1(
                    Json::object().with("path", property("string", "File path to patch")).with(
                        "search_hex",
                        property("string", "Hex pattern to search for (e.g. '414243')"),
                    ).with("replace_hex", property("string", "Hex pattern to replace with")).with(
                        "offset",
                        property("integer", "Byte offset to write hex data"),
                    ).with("hex_data", property("string", "Hex bytes to write")),
                    "path",
                ),
            ),
        ];
        assert(views(tools@) =~= hex_tools());
        tools
    }

    /// Reads which file a call names.
    pub fn file(&self, args: &Json) -> (r: Result<String, String>)
        ensures
            module_result(r) == named_file(args@),
    {
        match args.get_text("path") {
            Some(path) => Ok(path.clone()),
            None => Err("Missing path".to_owned()),
        }
    }

    /// Reads where a view starts and how long it is.
    pub fn window(&self, args: &Json) -> (r: (usize, Option<usize>))
        ensures
            r == (view_offset(args@), view_length(args@)),
    {
        let offset: usize = match args.get_unsigned("offset") {
            Some(offset) => offset as usize,
            None => 0,
        };
        let length: Option<usize> = match args.get_unsigned("length") {
            Some(length) => Some(length as usize),
            None => None,
        };
        (offset, length)
    }

    /// Reads which patch a call asks for.
    pub fn patch(&self, args: &Json) -> (r: Result<HexPatch, String>)
        ensures
            module_result(r) == requested_patch(args@),
    {
        match args.get_text("search_hex") {
            Some(search) => Ok(
                HexPatch::Substitute {
                    search: search.clone(),
                    replacement: super::read_text_or_empty(args, "replace_hex"),
                },
            ),
            None => match args.get_unsigned("offset") {
                Some(offset) => match args.get_text("hex_data") {
                    Some(data) => Ok(
                        HexPatch::Write { offset: offset as usize, data: data.clone() },
                    ),
                    None => Err("Missing hex_data".to_owned()),
                },
                None => Err(NOTHING_TO_PATCH.to_owned()),
            },
        }
    }
}

/// A write leaves everything outside its range as it was.
pub proof fn lemma_write_frame(original: Seq<u8>, offset: int, data: Seq<u8>, i: int)
    requires
        0 <= offset,
        0 <= i < original.len(),
    ensures
        i < written_at(original, offset, data).len(),
        i < offset || offset + data.len() <= i ==> written_at(original, offset, data)[i]
            == original[i],
{
}

proof fn lemma_gaps_add_up(a: Seq<char>, b: Seq<char>)
    ensures
        without_gaps(a + b) == without_gaps(a) + without_gaps(b),
    decreases b.len(),
{
    let whole = a + b;
    if b.len() == 0 {
        assert(whole =~= a);
        assert(without_gaps(a) + without_gaps(b) =~= without_gaps(a));
    } else {
        lemma_gaps_add_up(a, b.drop_last());
        assert(whole.drop_last() =~= a + b.drop_last());
        assert(whole.last() == b.last());
        assert(without_gaps(a) + without_gaps(b.drop_last()).push(b.last()) =~= (without_gaps(a)
            + without_gaps(b.drop_last())).push(b.last()));
    }
}

/// Blanks and line ends between the digits do not count, wherever they stand, and every
/// other character does.
pub proof fn lemma_gaps_do_not_count(a: Seq<char>, c: char, b: Seq<char>)
    ensures
        without_gaps(a + seq![c] + b) == if c == ' ' || c == '\n' || c == '\r' {
            without_gaps(a + b)
        } else {
            without_gaps(a) + seq![c] + without_gaps(b)
        },
        without_gaps(seq![]) == Seq::<char>::empty(),
{
    lemma_gaps_add_up(a + seq![c], b);
    lemma_gaps_add_up(a, seq![c]);
    lemma_gaps_add_up(a, b);
    assert(seq![c].drop_last() =~= seq![]);
    assert(without_gaps(seq![c].drop_last()) =~= seq![]);
    if is_gap(c) {
        assert(without_gaps(seq![c]) =~= seq![]);
        assert(without_gaps(a) + without_gaps(seq![c]) =~= without_gaps(a));
    } else {
        assert(without_gaps(seq![c]) =~= seq![c]);
    }
}

proof fn lemma_pairs(s: Seq<char>, i: int)
    requires
        0 <= i,
    ensures
        pair_bytes(s, i) matches Ok(bytes) ==> {
            &&& i <= s.len() ==> s.len() == i + 2 * bytes.len()
            &&& forall|k: int|
                0 <= k < bytes.len() ==> Some(#[trigger] bytes[k]) == pair_value(
                    s[i + 2 * k],
                    s[i + 2 * k + 1],
                )
        },
    decreases s.len() - i,
{
    if i < s.len() && i + 1 < s.len() {
        lemma_pairs(s, i + 2);
        match (pair_value(s[i], s[i + 1]), pair_bytes(s, i + 2)) {
            (Some(b), Ok(rest)) => {
                let bytes = seq![b] + rest;
                assert forall|k: int| 0 <= k < bytes.len() implies Some(#[trigger] bytes[k])
                    == pair_value(s[i + 2 * k], s[i + 2 * k + 1]) by {
                    if k > 0 {
                        assert(bytes[k] == rest[k - 1]);
                        assert(i + 2 + 2 * (k - 1) == i + 2 * k);
                    }
                }
            },
            _ => {},
        }
    }
}

/// What is read of a text are the bytes that its digits write, two digits for each and
/// in order, and nothing is left over.
pub proof fn lemma_bytes_are_read(text: Seq<char>)
    ensures
        hex_bytes(text) matches Ok(bytes) ==> {
            let digits = without_gaps(text);
            &&& digits.len() == 2 * bytes.len()
            &&& forall|k: int|
                0 <= k < bytes.len() ==> Some(#[trigger] bytes[k]) == pair_value(
                    digits[2 * k],
                    digits[2 * k + 1],
                )
        },
{
    let digits = without_gaps(text);
    lemma_pairs(digits, 0);
    if hex_bytes(text) is Ok {
        let bytes = hex_bytes(text)->Ok_0;
        assert forall|k: int| 0 <= k < bytes.len() implies Some(#[trigger] bytes[k]) == pair_value(
            digits[2 * k],
            digits[2 * k + 1],
        ) by {
            assert(0 + 2 * k == 2 * k);
        }
    }
}

/// Two digits write sixteen times the first and once the second, in either case.
pub proof fn lemma_pair_values(high: int, low: int)
    requires
        0 <= high < 16,
        0 <= low < 16,
    ensures
        pair_value(digit_char(high), digit_char(low)) == Some((16 * high + low) as u8),
        digit_value('A') == Some(10int) && digit_value('F') == Some(15int),
        digit_value('g') is None && digit_value('G') is None,
{
    assert(digit_value(digit_char(high)) == Some(high));
    assert(digit_value(digit_char(low)) == Some(low));
}

proof fn lemma_pairs_of_text(bytes: Seq<u8>, i: int)
    requires
        0 <= i <= bytes.len(),
    ensures
        pair_bytes(hex_text(bytes), 2 * i) == Ok::<Seq<u8>, Seq<char>>(bytes.skip(i)),
    decreases bytes.len() - i,
{
    lemma_hex_digits(bytes);
    let s = hex_text(bytes);
    if i < bytes.len() {
        lemma_pairs_of_text(bytes, i + 1);
        assert(2 * (i + 1) == 2 * i + 2);
        let b = bytes[i];
        assert(s[2 * i] == digit_char(b as int / 16));
        assert(s[2 * i + 1] == digit_char(b as int % 16));
        lemma_pair_values(b as int / 16, b as int % 16);
        assert(16 * (b as int / 16) + b as int % 16 == b);
        lemma_ascii_char(s[2 * i]);
        assert(bytes.skip(i) =~= seq![b] + bytes.skip(i + 1));
    } else {
        assert(bytes.skip(i) =~= seq![]);
    }
}

proof fn lemma_hex_digits(bytes: Seq<u8>)
    ensures
        hex_text(bytes).len() == 2 * bytes.len(),
        forall|i: int|
            0 <= i < bytes.len() ==> hex_text(bytes)[2 * i] == digit_char(
                (#[trigger] bytes[i]) as int / 16,
            ) && hex_text(bytes)[2 * i + 1] == digit_char(bytes[i] as int % 16),
    decreases bytes.len(),
{
    if bytes.len() > 0 {
        let front = bytes.drop_last();
        lemma_hex_digits(front);
        assert forall|i: int| 0 <= i < bytes.len() implies hex_text(bytes)[2 * i] == digit_char(
            (#[trigger] bytes[i]) as int / 16,
        ) && hex_text(bytes)[2 * i + 1] == digit_char(bytes[i] as int % 16) by {
            if i < front.len() {
                assert(front[i] == bytes[i]);
                assert(hex_text(bytes)[2 * i] == hex_text(front)[2 * i]);
                assert(hex_text(bytes)[2 * i + 1] == hex_text(front)[2 * i + 1]);
            }
        }
    }
}

/// A file is shown from the offset on, as far as is asked for or as it goes, as the
/// digits of its bytes; an offset at or past the end is an error.
pub proof fn lemma_windows_are_shown(
    path: Seq<char>,
    offset: usize,
    length: Option<usize>,
    bytes: Seq<u8>,
)
    ensures
        view_answer(path, offset, length, bytes) is Ok <==> offset < bytes.len(),
        offset < bytes.len() ==> exists|window: Seq<u8>, report: JsonView|
            #![trigger shown(report), hex_text(window)]
            {
                &&& view_answer(path, offset, length, bytes) == Ok::<CallToolResultView, Seq<char>>(
                    shown(report),
                )
                &&& report.field("path"@) == Some(JsonView::Text(path))
                &&& report.field("total_bytes"@) == Some(json_number(bytes.len() as u64))
                &&& report.field("offset"@) == Some(json_number(offset as u64))
                &&& report.field("bytes_read"@) == Some(json_number(window.len() as u64))
                &&& report.field("hex"@) == Some(JsonView::Text(hex_text(window)))
                &&& window.len() <= bytes.len() - offset
                &&& forall|i: int|
                    0 <= i < window.len() ==> #[trigger] window[i] == bytes[offset + i]
                &&& match length {
                    Some(n) => window.len() == if n <= bytes.len() - offset {
                        n as int
                    } else {
                        bytes.len() - offset
                    },
                    None => window.len() == bytes.len() - offset,
                }
            },
{
    reveal_strlit("path");
    reveal_strlit("total_bytes");
    reveal_strlit("offset");
    reveal_strlit("bytes_read");
    reveal_strlit("hex");
    assert("path"@.len() == 4);
    assert("total_bytes"@.len() == 11);
    assert("offset"@.len() == 6);
    assert("bytes_read"@.len() == 10);
    assert("hex"@.len() == 3);
    if offset < bytes.len() {
        let end = match length {
            Some(length) if offset + length < bytes.len() => offset + length,
            _ => bytes.len() as int,
        };
        let window = bytes.subrange(offset as int, end);
        let report = JsonView::object().with("path"@, JsonView::Text(path)).with(
            "total_bytes"@,
            json_number(bytes.len() as u64),
        ).with("offset"@, json_number(offset as u64)).with(
            "bytes_read"@,
            json_number(window.len() as u64),
        ).with("hex"@, JsonView::Text(hex_text(window)));
        assert(view_answer(path, offset, length, bytes) == Ok::<CallToolResultView, Seq<char>>(
            shown(report),
        ));
    }
}

/// A patch is read from the arguments: a pattern with its replacement, nothing where
/// none is given, wins over data at an offset; without either there is nothing to do.
pub proof fn lemma_patch_is_read(args: JsonView)
    ensures
        match requested_patch(args) {
            Ok(HexPatchView::Substitute { search, replacement }) => {
                &&& args.field("search_hex"@) == Some(JsonView::Text(search))
                &&& args.field("replace_hex"@) matches Some(JsonView::Text(text)) ==> replacement
                    == text
                &&& !(args.field("replace_hex"@) matches Some(JsonView::Text(_)))
                    ==> replacement.len() == 0
            },
            Ok(HexPatchView::Write { offset, data }) => {
                &&& !(args.field("search_hex"@) matches Some(JsonView::Text(_)))
                &&& args.field("offset"@) matches Some(JsonView::Number(JsonNumber::Unsigned(n)))
                    && offset == n as usize
                &&& args.field("hex_data"@) == Some(JsonView::Text(data))
            },
            Err(_) => {
                &&& !(args.field("search_hex"@) matches Some(JsonView::Text(_)))
                &&& !(args.field("offset"@) matches Some(JsonView::Number(JsonNumber::Unsigned(_))))
                    || !(args.field("hex_data"@) matches Some(JsonView::Text(_)))
            },
        },
{
    reveal_strlit("");
    assert(""@.len() == 0);
}

/// A window is read from the arguments: from the start where no offset is given, and
/// to the end where no length is.
pub proof fn lemma_window_is_read(args: JsonView)
    ensures
        args.field("offset"@) matches Some(JsonView::Number(JsonNumber::Unsigned(n)))
            ==> view_offset(args) == n as usize,
        args.field("offset"@) is None ==> view_offset(args) == 0,
        args.field("length"@) matches Some(JsonView::Number(JsonNumber::Unsigned(n)))
            ==> view_length(args) == Some(n as usize),
        args.field("length"@) is None ==> view_length(args) is None,
        args.field("path"@) matches Some(JsonView::Text(path)) ==> named_file(args) == Ok::<
            Seq<char>,
            Seq<char>,
        >(path),
        args.field("path"@) is None ==> named_file(args) is Err,
{
}

/// Writing puts the data at the offset, keeps all else, and fills with zeros what lies
/// between the end of the file and the data.
pub proof fn lemma_writing(original: Seq<u8>, offset: int, data: Seq<u8>, i: int)
    requires
        0 <= offset,
        0 <= i < written_at(original, offset, data).len(),
    ensures
        written_at(original, offset, data).len() >= original.len(),
        written_at(original, offset, data).len() >= offset + data.len(),
        written_at(original, offset, data).len() == original.len() || written_at(
            original,
            offset,
            data,
        ).len() == offset + data.len(),
        offset <= i < offset + data.len() ==> written_at(original, offset, data)[i] == data[i
            - offset],
        !(offset <= i < offset + data.len()) && i < original.len() ==> written_at(
            original,
            offset,
            data,
        )[i] == original[i],
        original.len() <= i < offset ==> written_at(original, offset, data)[i] == 0,
{
}

/// A substitution cuts the file at every occurrence of the pattern, puts the
/// replacement there, and says how many there were.
pub proof fn lemma_patch_cuts(
    path: Seq<char>,
    bytes: Seq<u8>,
    search: Seq<char>,
    replacement: Seq<char>,
) -> (parts: Seq<Seq<u8>>)
    requires
        hex_bytes(search) matches Ok(needle) && needle.len() > 0,
        hex_bytes(replacement) is Ok,
    ensures
        is_cut(bytes, hex_bytes(search)->Ok_0, parts),
        patched(HexPatchView::Substitute { search, replacement }, path, bytes) matches Ok(
            (after, answer),
        ) && {
            &&& after == glued(parts, hex_bytes(replacement)->Ok_0)
            &&& answer == CallToolResultView::text(
                "Replaced "@ + decimal((parts.len() - 1) as nat)
                    + " occurrences of hex pattern in "@ + path,
            )
        },
{
    let needle = hex_bytes(search)->Ok_0;
    let with = hex_bytes(replacement)->Ok_0;
    let parts = lemma_replacing_cuts(bytes, needle, with);
    let longer = needle.push(0u8);
    let same = lemma_replacing_cuts(bytes, needle, longer);
    lemma_cuts_are_unique(bytes, needle, parts, same);
    lemma_substitution_length(bytes, needle, longer, 0);
    assert(bytes.skip(0) =~= bytes);
    let count = positions(bytes, needle, 0).len() as int;
    assert(longer.len() - needle.len() == 1);
    assert(count * 1 == count && (parts.len() - 1) * 1 == parts.len() - 1);
    assert(count == parts.len() - 1);
    parts
}

/// Data is written at its offset, and it is said how much and where.
pub proof fn lemma_patch_writes(path: Seq<char>, bytes: Seq<u8>, offset: usize, data: Seq<char>)
    ensures
        match hex_bytes(data) {
            Ok(written) => patched(HexPatchView::Write { offset, data }, path, bytes) matches Ok(
                (after, answer),
            ) && after == written_at(bytes, offset as int, written) && answer
                == CallToolResultView::text(
                "Patched "@ + decimal(written.len()) + " bytes at offset "@ + decimal(offset as nat)
                    + " in "@ + path,
            ),
            Err(_) => patched(HexPatchView::Write { offset, data }, path, bytes) is Err,
        },
{
}

/// What the two tools take.
pub proof fn lemma_hex_module_schemas()
    ensures
        hex_tools().len() == 2,
        hex_tools()[0].name == "hex_view"@,
        needs(hex_tools()[0].input_schema, seq!["path"@]),
        takes(hex_tools()[0].input_schema, "path"@, "string"@),
        takes(hex_tools()[0].input_schema, "offset"@, "integer"@),
        takes(hex_tools()[0].input_schema, "length"@, "integer"@),
        hex_tools()[1].name == "hex_patch"@,
        needs(hex_tools()[1].input_schema, seq!["path"@]),
        takes(hex_tools()[1].input_schema, "path"@, "string"@),
        takes(hex_tools()[1].input_schema, "search_hex"@, "string"@),
        takes(hex_tools()[1].input_schema, "replace_hex"@, "string"@),
        takes(hex_tools()[1].input_schema, "offset"@, "integer"@),
        takes(hex_tools()[1].input_schema, "hex_data"@, "string"@),
{
    reveal_strlit("type");
    reveal_strlit("properties");
    reveal_strlit("required");
    reveal_strlit("description");
    reveal_strlit("path");
    reveal_strlit("offset");
    reveal_strlit("length");
    reveal_strlit("search_hex");
    reveal_strlit("replace_hex");
    reveal_strlit("hex_data");
    assert("type"@.len() == 4);
    assert("properties"@.len() == 10);
    assert("required"@.len() == 8);
    assert("description"@.len() == 11);
    assert("path"@.len() == 4);
    assert("offset"@.len() == 6);
    assert("length"@.len() == 6);
    assert("search_hex"@.len() == 10);
    assert("replace_hex"@.len() == 11);
    assert("hex_data"@.len() == 8);
    assert("type"@[0] == 't');
    assert("properties"@[0] == 'p');
    assert("required"@[0] == 'r');
    assert("description"@[0] == 'd');
    assert("path"@[0] == 'p');
    assert("offset"@[0] == 'o');
    assert("length"@[0] == 'l');
    assert("search_hex"@[0] == 's');
    assert("replace_hex"@[0] == 'r');
    assert("hex_data"@[0] == 'h');
}

/// What a view shows of some bytes can be given back, and is read as those bytes.
pub proof fn lemma_shown_bytes_are_read_back(bytes: Seq<u8>)
    ensures
        hex_bytes(hex_text(bytes)) == Ok::<Seq<u8>, Seq<char>>(bytes),
{
    let text = hex_text(bytes);
    lemma_hex_text_is_digits(bytes);
    lemma_no_gaps(text);
    lemma_ascii_bytes(text);
    lemma_hex_digits(bytes);
    lemma_pairs_of_text(bytes, 0);
    assert(bytes.skip(0) =~= bytes);
}

proof fn lemma_no_gaps(text: Seq<char>)
    requires
        forall|j: int| 0 <= j < text.len() ==> ('0' <= #[trigger] text[j] <= '9' || 'a' <= text[j]
            <= 'f'),
    ensures
        without_gaps(text) == text,
    decreases text.len(),
{
    if text.len() > 0 {
        let front = text.drop_last();
        assert forall|j: int| 0 <= j < front.len() implies ('0' <= #[trigger] front[j] <= '9'
            || 'a' <= front[j] <= 'f') by {
            assert(front[j] == text[j]);
        }
        lemma_no_gaps(front);
        assert(text[text.len() - 1] == text.last());
        assert(front.push(text.last()) =~= text);
    } else {
        assert(without_gaps(text) =~= text);
    }
}

} // verus!
