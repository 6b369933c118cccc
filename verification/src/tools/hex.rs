//! Binary inspection and patching.
//!
//! A view reads only the window it shows. A patch scans the original bytes, so
//! that replacement bytes are never rescanned; it never grows a file unless
//! asked to, and it keeps a copy of what it changes.

use vstd::prelude::*;

use super::args::{
    bool_arg, bool_or, opt_string, opt_string_arg, opt_u64, opt_u64_arg, string, string_arg,
    u64_arg, u64_or,
};
use super::context::{
    gate, resolved_path, OnDisk, OnDiskView, ToolContext, ToolContextView, FILE_MUTATION_DENIED,
};
use super::schema::{needs, object_schema, property, property_schema, schema1, takes};
use crate::bytes::{
    as_ints, byte_text, decode_hex, decoded_hex, encode_hex, find_all, hex_number, hex_text,
    hexadecimal, hexadecimal_text, lemma_hex_round_trip, lemma_hex_text_is_digits,
    lemma_hexadecimal_reads_back, lemma_padding, lemma_positions_found, pad_zeros, positions,
    zero_padded,
};
use crate::error::{tool_result, ToolError, ToolErrorView, ToolResult};
use crate::json::{Json, JsonNumber, JsonView, json_number};
use crate::protocol::mcp::{CallToolResult, CallToolResultView, Tool, ToolView};
use crate::text::{
    cat3, cat4, cat5, chars_of, contains, debug, debug_text, decimal, decimal_text, digit,
    find_from, glued, is_cut, is_whitespace, lemma_contains, lemma_cuts_are_unique, lemma_find_from,
    lemma_find_shift, lemma_replacing_cuts, starts_with, substituted, views, whitespace,
};

verus! {

/// The tools that read and patch bytes.
pub struct HexTools;

/// How many bytes a view shows where the caller does not say.
pub const DEFAULT_VIEW_BYTES: u64 = 256;

/// How many bytes a view shows at most.
pub const MAX_VIEW_BYTES: u64 = 1048576;

/// How many bytes stand in a row of a dump.
pub const BYTES_PER_ROW: usize = 16;

/// What `hex_view` does.
pub const VIEW_DESCRIPTION: &'static str = "Dumps a byte range of a file as a classic hex view with offsets and an ASCII gutter. Reads only the requested window, so it is safe on very large files.";

/// What `hex_patch` does.
pub const PATCH_DESCRIPTION: &'static str = "Modifies a binary file, either by replacing every occurrence of a hex pattern or by writing hex bytes at an offset. Requires `apply: true` to write; otherwise it reports what would change.";

/// What `allow_resize` of `hex_patch` does.
pub const RESIZE_DESCRIPTION: &'static str = "Permit the patch to change the file's length (default false; resizing usually corrupts binaries)";

/// The descriptor of `hex_view`.
pub open spec fn view_tool() -> ToolView {
    ToolView::new(
        "hex_view"@,
        VIEW_DESCRIPTION@,
        object_schema(
            JsonView::object().with(
                "path"@,
                property_schema("string"@, "Absolute file path"@),
            ).with(
                "offset"@,
                property_schema("integer"@, "Byte offset to start at (default 0)"@),
            ).with(
                "length"@,
                property_schema("integer"@, "Bytes to read (default 256, maximum 1048576)"@),
            ),
            seq!["path"@],
        ),
    )
}

/// The descriptor of `hex_patch`.
pub open spec fn patch_tool() -> ToolView {
    ToolView::new(
        "hex_patch"@,
        PATCH_DESCRIPTION@,
        object_schema(
            JsonView::object().with(
                "path"@,
                property_schema("string"@, "Absolute file path"@),
            ).with(
                "search_hex"@,
                property_schema("string"@, "Hex byte pattern to find, e.g. \"48656c6c6f\""@),
            ).with(
                "replace_hex"@,
                property_schema("string"@, "Hex bytes to substitute for each match"@),
            ).with(
                "offset"@,
                property_schema("integer"@, "Byte offset for a direct write"@),
            ).with(
                "hex_data"@,
                property_schema("string"@, "Hex bytes to write at `offset`"@),
            ).with(
                "apply"@,
                property_schema("boolean"@, "Write to disk. Default false: report only."@),
            ).with("allow_resize"@, property_schema("boolean"@, RESIZE_DESCRIPTION@)),
            seq!["path"@],
        ),
    )
}

impl HexTools {
    /// What the group advertises.
    pub fn descriptors(&self) -> (r: Vec<Tool>)
        ensures
            views(r@) == seq![view_tool(), patch_tool()],
    {
        let view = Tool::new(
            "hex_view",
            VIEW_DESCRIPTION,
            schema1(
                Json::object().with("path", property("string", "Absolute file path")).with(
                    "offset",
                    property("integer", "Byte offset to start at (default 0)"),
                ).with(
                    "length",
                    property("integer", "Bytes to read (default 256, maximum 1048576)"),
                ),
                "path",
            ),
        );
        let patch = Tool::new(
            "hex_patch",
            PATCH_DESCRIPTION,
            schema1(
                Json::object().with("path", property("string", "Absolute file path")).with(
                    "search_hex",
                    property("string", "Hex byte pattern to find, e.g. \"48656c6c6f\""),
                ).with(
                    "replace_hex",
                    property("string", "Hex bytes to substitute for each match"),
                ).with("offset", property("integer", "Byte offset for a direct write")).with(
                    "hex_data",
                    property("string", "Hex bytes to write at `offset`"),
                ).with(
                    "apply",
                    property("boolean", "Write to disk. Default false: report only."),
                ).with("allow_resize", property("boolean", RESIZE_DESCRIPTION)),
                "path",
            ),
        );
        let tools: Vec<Tool> = vec![view, patch];
        assert(views(tools@) =~= seq![view_tool(), patch_tool()]);
        tools
    }
}

// ---------------------------------------------------------------------------
// Viewing

/// A view that was asked for.
pub struct ViewRequest {
    pub path: String,
    pub offset: u64,
    pub length: u64,
}

/// What a [`ViewRequest`] asks for.
pub struct ViewRequestView {
    pub path: Seq<char>,
    pub offset: u64,
    pub length: u64,
}

impl View for ViewRequest {
    type V = ViewRequestView;

    open spec fn view(&self) -> ViewRequestView {
        ViewRequestView { path: self.path@, offset: self.offset, length: self.length }
    }
}

/// The view that the arguments ask for. `disk` is what the filesystem
/// says of the path.
pub open spec fn view_request(
    args: JsonView,
    ctx: ToolContextView,
    disk: OnDiskView,
) -> Result<ViewRequestView, ToolErrorView> {
    match string_arg(args, "path"@) {
        Err(err) => Err(err),
        Ok(raw) => match resolved_path(ctx.roots, raw, disk) {
            Err(err) => Err(err),
            Ok(path) => match u64_arg(args, "offset"@, 0) {
                Err(err) => Err(err),
                Ok(offset) => match u64_arg(args, "length"@, DEFAULT_VIEW_BYTES) {
                    Err(err) => Err(err),
                    Ok(length) => Ok(
                        ViewRequestView {
                            path,
                            offset,
                            length: if length <= MAX_VIEW_BYTES {
                                length
                            } else {
                                MAX_VIEW_BYTES
                            },
                        },
                    ),
                },
            },
        },
    }
}

/// How many bytes of a file of `total` bytes a view reads.
pub open spec fn window_bytes(offset: u64, length: u64, total: u64) -> Result<u64, ToolErrorView> {
    if offset > total {
        Err(
            ToolErrorView::InvalidArguments(
                "offset "@ + decimal(offset as nat) + " is past the end of the "@ + decimal(
                    total as nat,
                ) + "-byte file"@,
            ),
        )
    } else if length <= total - offset {
        Ok(length)
    } else {
        Ok((total - offset) as u64)
    }
}

/// One cell of a row: two digits and a space, or three spaces behind the end;
/// the two halves of a row are set apart.
pub open spec fn dump_cell(chunk: Seq<u8>, column: int) -> Seq<char> {
    (if column < chunk.len() {
        byte_text(chunk[column]).push(' ')
    } else {
        "   "@
    }) + (if column == 7 {
        seq![' ']
    } else {
        seq![]
    })
}

/// The first `n` cells of a row.
pub open spec fn dump_cells(chunk: Seq<u8>, n: int) -> Seq<char>
    decreases n,
{
    if n <= 0 {
        seq![]
    } else {
        dump_cells(chunk, n - 1) + dump_cell(chunk, n - 1)
    }
}

/// A byte in the gutter: printable ASCII as it is, anything else as a dot.
pub open spec fn gutter_char(b: u8) -> char {
    if 32 <= b <= 126 {
        b as char
    } else {
        '.'
    }
}

/// The gutter of a row.
pub open spec fn gutter(chunk: Seq<u8>) -> Seq<char> {
    chunk.map_values(|b: u8| gutter_char(b))
}

/// One row: offset, hexadecimal columns, printable ASCII.
pub open spec fn dump_row(chunk: Seq<u8>, address: nat) -> Seq<char> {
    zero_padded(hexadecimal(address), 8) + "  "@ + dump_cells(chunk, 16) + " |"@ + gutter(chunk)
        + "|\n"@
}

/// The rows of a dump whose first byte has the address `base`.
pub open spec fn dump_text(bytes: Seq<u8>, base: nat) -> Seq<char>
    decreases bytes.len(),
{
    if bytes.len() == 0 {
        seq![]
    } else if bytes.len() <= 16 {
        dump_row(bytes, base)
    } else {
        dump_row(bytes.take(16), base) + dump_text(bytes.skip(16), base + 16)
    }
}

/// What a view of `bytes` reports.
pub open spec fn view_report_json(
    path: Seq<char>,
    total: u64,
    offset: u64,
    bytes: Seq<u8>,
) -> JsonView {
    JsonView::object().with("path"@, JsonView::Text(path)).with(
        "total_bytes"@,
        json_number(total),
    ).with("offset"@, json_number(offset)).with("bytes_read"@, json_number(bytes.len() as u64)).with(
        "hex"@,
        JsonView::Text(hex_text(bytes)),
    ).with("dump"@, JsonView::Text(dump_text(bytes, offset as nat)))
}

/// Reads the arguments of a view.
pub fn plan_view(args: &Json, ctx: &ToolContext, disk: OnDisk) -> (r: ToolResult<
    ViewRequest,
>)
    ensures
        tool_result(r) == view_request(args@, ctx@, disk@),
{
    let raw = match string(args, "path") {
        Ok(raw) => raw,
        Err(err) => return Err(err),
    };
    let path = match ctx.resolve(&raw, disk) {
        Ok(path) => path,
        Err(err) => return Err(err),
    };
    let offset: u64 = match u64_or(args, "offset", 0) {
        Ok(offset) => offset,
        Err(err) => return Err(err),
    };
    let length: u64 = match u64_or(args, "length", DEFAULT_VIEW_BYTES) {
        Ok(length) => length,
        Err(err) => return Err(err),
    };
    Ok(
        ViewRequest {
            path,
            offset,
            length: if length <= MAX_VIEW_BYTES {
                length
            } else {
                MAX_VIEW_BYTES
            },
        },
    )
}

/// How many bytes of a file of `total` bytes a view reads.
pub fn window(offset: u64, length: u64, total: u64) -> (r: ToolResult<u64>)
    ensures
        tool_result(r) == window_bytes(offset, length, total),
{
    if offset > total {
        return Err(
            ToolError::InvalidArguments(
                cat5(
                    "offset ",
                    &decimal_text(offset),
                    " is past the end of the ",
                    &decimal_text(total),
                    "-byte file",
                ),
            ),
        );
    }
    if length <= total - offset {
        Ok(length)
    } else {
        Ok(total - offset)
    }
}

fn push_cells(out: &mut String, bytes: &Vec<u8>, from: usize, to: usize)
    requires
        from <= to <= bytes@.len(),
        to - from <= 16,
    ensures
        final(out)@ == old(out)@ + dump_cells(bytes@.subrange(from as int, to as int), 16),
{
    let ghost chunk = bytes@.subrange(from as int, to as int);
    let ghost start = out@;
    let mut column: usize = 0;
    assert(start + dump_cells(chunk, 0) =~= start);
    while column < BYTES_PER_ROW
        invariant
            0 <= column <= 16,
            from <= to <= bytes@.len(),
            chunk == bytes@.subrange(from as int, to as int),
            out@ == start + dump_cells(chunk, column as int),
        decreases 16 - column,
    {
        let ghost before = out@;
        if column < to - from {
            let b: u8 = bytes[from + column];
            out.push(digit(b / 16));
            out.push(digit(b % 16));
            out.push(' ');
            assert(chunk[column as int] == b);
            assert(out@ =~= before + byte_text(b).push(' '));
        } else {
            out.append("   ");
        }
        let ghost middle = out@;
        if column == 7 {
            out.push(' ');
            assert(out@ =~= middle + seq![' ']);
        } else {
            assert(out@ =~= middle + seq![]);
        }
        assert(out@ =~= before + dump_cell(chunk, column as int));
        assert(out@ =~= start + dump_cells(chunk, column + 1));
        column += 1;
    }
}

fn push_gutter(out: &mut String, bytes: &Vec<u8>, from: usize, to: usize)
    requires
        from <= to <= bytes@.len(),
    ensures
        final(out)@ == old(out)@ + gutter(bytes@.subrange(from as int, to as int)),
{
    let ghost chunk = bytes@.subrange(from as int, to as int);
    let ghost start = out@;
    let mut i: usize = from;
    assert(start + gutter(chunk).take(0) =~= start);
    while i < to
        invariant
            from <= i <= to <= bytes@.len(),
            chunk == bytes@.subrange(from as int, to as int),
            out@ == start + gutter(chunk).take(i - from),
        decreases to - i,
    {
        let b: u8 = bytes[i];
        let c: char = if 32 <= b && b <= 126 {
            b as char
        } else {
            '.'
        };
        out.push(c);
        assert(gutter(chunk)[i - from] == gutter_char(b));
        assert(start + gutter(chunk).take(i - from + 1) =~= (start + gutter(chunk).take(
            i - from,
        )).push(c));
        i += 1;
    }
    assert(gutter(chunk).take(i - from) =~= gutter(chunk));
}

fn push_row(out: &mut String, bytes: &Vec<u8>, from: usize, to: usize, address: u64)
    requires
        from <= to <= bytes@.len(),
        to - from <= 16,
    ensures
        final(out)@ == old(out)@ + dump_row(
            bytes@.subrange(from as int, to as int),
            address as nat,
        ),
{
    let ghost chunk = bytes@.subrange(from as int, to as int);
    let ghost start = out@;
    let ghost place = zero_padded(hexadecimal(address as nat), 8);
    out.append(pad_zeros(&hexadecimal_text(address), 8).as_str());
    out.append("  ");
    push_cells(out, bytes, from, to);
    out.append(" |");
    push_gutter(out, bytes, from, to);
    out.append("|\n");
    assert(out@ =~= start + (place + "  "@ + dump_cells(chunk, 16) + " |"@ + gutter(chunk)
        + "|\n"@));
}

/// Renders rows of offset, hexadecimal columns and printable ASCII.
pub fn dump(bytes: &Vec<u8>, base: u64) -> (r: String)
    requires
        base + bytes@.len() <= u64::MAX,
    ensures
        r@ == dump_text(bytes@, base as nat),
{
    let mut out = String::new();
    let mut at: usize = 0;
    proof {
        assert(bytes@.skip(0) =~= bytes@);
        assert(out@ + dump_text(bytes@, base as nat) =~= dump_text(bytes@, base as nat));
    }
    while at < bytes.len()
        invariant
            at <= bytes@.len(),
            base + bytes@.len() <= u64::MAX,
            out@ + dump_text(bytes@.skip(at as int), (base + at) as nat) == dump_text(
                bytes@,
                base as nat,
            ),
        decreases bytes@.len() - at,
    {
        let end: usize = if bytes.len() - at <= BYTES_PER_ROW {
            bytes.len()
        } else {
            at + BYTES_PER_ROW
        };
        let ghost before = out@;
        let ghost rest = bytes@.skip(at as int);
        let ghost chunk = bytes@.subrange(at as int, end as int);
        let ghost address = (base + at) as nat;
        push_row(&mut out, bytes, at, end, base + at as u64);
        proof {
            if rest.len() <= 16 {
                assert(chunk =~= rest);
                assert(bytes@.skip(end as int) =~= seq![]);
                assert(out@ + dump_text(bytes@.skip(end as int), (base + end) as nat) =~= out@);
            } else {
                assert(chunk =~= rest.take(16));
                assert(rest.skip(16) =~= bytes@.skip(end as int));
                assert(before + (dump_row(chunk, address) + dump_text(rest.skip(16), address + 16))
                    =~= out@ + dump_text(rest.skip(16), address + 16));
            }
        }
        at = end;
    }
    assert(bytes@.skip(at as int) =~= seq![]);
    assert(out@ + dump_text(bytes@.skip(at as int), (base + at) as nat) =~= out@);
    out
}

/// What a view of `bytes` reports.
pub fn view_report(path: &str, total: u64, offset: u64, bytes: &Vec<u8>) -> (r: CallToolResult)
    requires
        offset + bytes@.len() <= u64::MAX,
    ensures
        r@ == CallToolResultView::structured(view_report_json(path@, total, offset, bytes@)),
{
    CallToolResult::structured(
        Json::object().with("path", Json::string(path)).with(
            "total_bytes",
            Json::number(total),
        ).with("offset", Json::number(offset)).with(
            "bytes_read",
            Json::number(bytes.len() as u64),
        ).with("hex", Json::string(&encode_hex(bytes))).with(
            "dump",
            Json::string(&dump(bytes, offset)),
        ),
    )
}

// ---------------------------------------------------------------------------
// Patching

/// A patch that was asked for.
pub struct PatchRequest {
    pub path: String,
    pub apply: bool,
    pub allow_resize: bool,
}

/// What a [`PatchRequest`] asks for.
pub struct PatchRequestView {
    pub path: Seq<char>,
    pub apply: bool,
    pub allow_resize: bool,
}

impl View for PatchRequest {
    type V = PatchRequestView;

    open spec fn view(&self) -> PatchRequestView {
        PatchRequestView {
            path: self.path@,
            apply: self.apply,
            allow_resize: self.allow_resize,
        }
    }
}

/// The patch that the arguments ask for: one that is to be written needs the
/// permission to change files.
pub open spec fn patch_request(
    args: JsonView,
    ctx: ToolContextView,
    disk: OnDiskView,
) -> Result<PatchRequestView, ToolErrorView> {
    match string_arg(args, "path"@) {
        Err(err) => Err(err),
        Ok(raw) => match resolved_path(ctx.roots, raw, disk) {
            Err(err) => Err(err),
            Ok(path) => match bool_arg(args, "apply"@, false) {
                Err(err) => Err(err),
                Ok(apply) => match bool_arg(args, "allow_resize"@, false) {
                    Err(err) => Err(err),
                    Ok(allow_resize) => match gate(
                        !apply || ctx.policy.allow_file_mutation,
                        FILE_MUTATION_DENIED@,
                    ) {
                        Err(err) => Err(err),
                        Ok(_) => Ok(PatchRequestView { path, apply, allow_resize }),
                    },
                },
            },
        },
    }
}

/// Reads what a patch is to do, but for its bytes.
pub fn plan_patch(args: &Json, ctx: &ToolContext, disk: OnDisk) -> (r: ToolResult<
    PatchRequest,
>)
    ensures
        tool_result(r) == patch_request(args@, ctx@, disk@),
{
    let raw = match string(args, "path") {
        Ok(raw) => raw,
        Err(err) => return Err(err),
    };
    let path = match ctx.resolve(&raw, disk) {
        Ok(path) => path,
        Err(err) => return Err(err),
    };
    let apply: bool = match bool_or(args, "apply", false) {
        Ok(apply) => apply,
        Err(err) => return Err(err),
    };
    let allow_resize: bool = match bool_or(args, "allow_resize", false) {
        Ok(allow_resize) => allow_resize,
        Err(err) => return Err(err),
    };
    if apply {
        match ctx.require_file_mutation() {
            Ok(_) => {},
            Err(err) => return Err(err),
        }
    }
    Ok(PatchRequest { path, apply, allow_resize })
}

/// A file that is to be written.
pub struct FileWrite {
    pub path: String,
    pub bytes: Vec<u8>,
    /// What is said where that fails.
    pub complaint: String,
}

/// What a [`FileWrite`] says.
pub struct FileWriteView {
    pub path: Seq<char>,
    pub bytes: Seq<u8>,
    pub complaint: Seq<char>,
}

impl View for FileWrite {
    type V = FileWriteView;

    open spec fn view(&self) -> FileWriteView {
        FileWriteView { path: self.path@, bytes: self.bytes@, complaint: self.complaint@ }
    }
}

impl PatchRequestView {
    /// What is written, in order: first the copy of the file, since a bad byte patch
    /// is otherwise unrecoverable, and nothing where the patch is not to be applied.
    pub open spec fn writes(self, original: Seq<u8>, patched: Seq<u8>) -> Seq<FileWriteView> {
        if self.apply {
            seq![
                FileWriteView {
                    path: backup_path(self.path),
                    bytes: original,
                    complaint: "could not write backup"@,
                },
                FileWriteView {
                    path: self.path,
                    bytes: patched,
                    complaint: "could not write "@ + self.path,
                },
            ]
        } else {
            seq![]
        }
    }
}

impl PatchRequest {
    /// What is to be written, in order. The path is one that names a file.
    pub fn writes(&self, original: &Vec<u8>, patched: &Vec<u8>) -> (r: Vec<FileWrite>)
        ensures
            views(r@) == self@.writes(original@, patched@),
    {
        let mut out: Vec<FileWrite> = Vec::new();
        if self.apply {
            out.push(
                FileWrite {
                    path: backup_of(&self.path),
                    bytes: original.clone(),
                    complaint: "could not write backup".to_owned(),
                },
            );
            out.push(
                FileWrite {
                    path: self.path.clone(),
                    bytes: patched.clone(),
                    complaint: crate::text::cat2("could not write ", &self.path),
                },
            );
        }
        assert(views(out@) =~= self@.writes(original@, patched@));
        out
    }
}

/// Whether a character may stand between hexadecimal digits.
pub open spec fn is_separator(c: char) -> bool {
    is_whitespace(c) || c == ':'
}

/// A text without what may stand between its digits.
pub open spec fn cleaned(text: Seq<char>) -> Seq<char>
    decreases text.len(),
{
    if text.len() == 0 {
        seq![]
    } else if is_separator(text.last()) {
        cleaned(text.drop_last())
    } else {
        cleaned(text.drop_last()).push(text.last())
    }
}

/// The bytes that an argument writes in hexadecimal.
pub open spec fn hex_argument(text: Seq<char>, field: Seq<char>) -> Result<
    Seq<u8>,
    ToolErrorView,
> {
    match decoded_hex(vstd::utf8::encode_utf8(cleaned(text))) {
        Ok(bytes) => Ok(bytes),
        Err(fault) => Err(
            ToolErrorView::InvalidArguments(
                debug_text(field) + " is not valid hex: "@ + fault.message(),
            ),
        ),
    }
}

/// Reads an argument that writes bytes in hexadecimal; whitespace and colons
/// between the digits do not count.
pub fn decode(text: &str, field: &str) -> (r: ToolResult<Vec<u8>>)
    ensures
        tool_result(r) == hex_argument(text@, field@),
{
    let chars = chars_of(text);
    let mut kept = String::new();
    let mut i: usize = 0;
    assert(chars@.take(0) =~= seq![]);
    assert(kept@ =~= cleaned(chars@.take(0)));
    while i < chars.len()
        invariant
            0 <= i <= chars@.len(),
            kept@ == cleaned(chars@.take(i as int)),
        decreases chars@.len() - i,
    {
        assert(chars@.take(i + 1).drop_last() =~= chars@.take(i as int));
        let c: char = chars[i];
        if !whitespace(c) && c != ':' {
            kept.push(c);
        }
        i += 1;
    }
    assert(chars@.take(i as int) =~= chars@);
    match decode_hex(&kept) {
        Ok(bytes) => Ok(bytes),
        Err(fault) => Err(
            ToolError::InvalidArguments(
                cat3(&debug(field), " is not valid hex: ", &fault.message()),
            ),
        ),
    }
}

/// The bytes of a patch and what it did, for the caller.
pub struct PatchedView {
    pub bytes: Seq<u8>,
    pub summary: Seq<char>,
}

/// The outcome of making a patch.
pub open spec fn patched_result(r: ToolResult<(Vec<u8>, String)>) -> Result<
    PatchedView,
    ToolErrorView,
> {
    match r {
        Ok((bytes, summary)) => Ok(PatchedView { bytes: bytes@, summary: summary@ }),
        Err(err) => Err(err@),
    }
}

/// Every occurrence of a pattern replaced, without overlaps.
pub open spec fn substitution(
    haystack: Seq<u8>,
    needle: Seq<u8>,
    replacement: Seq<u8>,
) -> Result<PatchedView, ToolErrorView> {
    if needle.len() == 0 {
        Err(ToolErrorView::InvalidArguments("`search_hex` must not be empty"@))
    } else {
        Ok(
            PatchedView {
                bytes: substituted(haystack, needle, replacement),
                summary: "replaced "@ + decimal(positions(haystack, needle, 0).len())
                    + " occurrence(s)"@,
            },
        )
    }
}

/// Bytes written over others from `offset` on, which may make them longer.
pub open spec fn overwritten(original: Seq<u8>, offset: int, data: Seq<u8>) -> Seq<u8> {
    original.take(offset) + data + (if offset + data.len() <= original.len() {
        original.skip(offset + data.len())
    } else {
        seq![]
    })
}

/// A direct write at an offset.
pub open spec fn overwriting(original: Seq<u8>, offset: u64, data: Seq<u8>) -> Result<
    PatchedView,
    ToolErrorView,
> {
    if offset > usize::MAX {
        Err(
            ToolErrorView::InvalidArguments(
                "offset "@ + decimal(offset as nat) + " is too large"@,
            ),
        )
    } else if offset > original.len() {
        Err(
            ToolErrorView::InvalidArguments(
                "offset "@ + decimal(offset as nat) + " is past the end of the "@ + decimal(
                    original.len(),
                ) + "-byte file"@,
            ),
        )
    } else {
        Ok(
            PatchedView {
                bytes: overwritten(original, offset as int, data),
                summary: "wrote "@ + decimal(data.len()) + " byte(s) at offset "@ + decimal(
                    offset as nat,
                ),
            },
        )
    }
}

fn copy_range(out: &mut Vec<u8>, bytes: &Vec<u8>, from: usize, to: usize)
    requires
        from <= to <= bytes@.len(),
    ensures
        final(out)@ == old(out)@ + bytes@.subrange(from as int, to as int),
{
    let ghost start = out@;
    let mut i: usize = from;
    assert(start + bytes@.subrange(from as int, from as int) =~= start);
    while i < to
        invariant
            from <= i <= to <= bytes@.len(),
            out@ == start + bytes@.subrange(from as int, i as int),
        decreases to - i,
    {
        out.push(bytes[i]);
        assert(start + bytes@.subrange(from as int, i + 1) =~= (start + bytes@.subrange(
            from as int,
            i as int,
        )).push(bytes@[i as int]));
        i += 1;
    }
}

proof fn lemma_substituted_step(s: Seq<u8>, p: Seq<u8>, with: Seq<u8>, c: int)
    requires
        0 <= c <= s.len(),
        p.len() > 0,
    ensures
        match find_from(s, p, c) {
            Some(k) => c <= k && k + p.len() <= s.len() && substituted(s.skip(c), p, with)
                == s.subrange(c, k) + with + substituted(s.skip((k + p.len()) as int), p, with)
                && positions(s, p, c) == seq![k] + positions(s, p, (k + p.len()) as int),
            None => substituted(s.skip(c), p, with) == s.skip(c) && positions(s, p, c).len() == 0,
        },
{
    let rest = s.skip(c);
    assert(s.subrange(c, s.len() as int) =~= rest);
    lemma_find_shift(s, p, c, 0);
    lemma_find_from(s, p, c);
    match find_from(s, p, c) {
        Some(k) => {
            assert(rest.subrange(0, k - c) =~= s.subrange(c, k));
            assert(rest.subrange(k - c + p.len(), rest.len() as int) =~= s.skip(
                (k + p.len()) as int,
            ));
        },
        None => {},
    }
}

/// Replaces every non-overlapping occurrence of a pattern that is not empty,
/// scanning the original bytes so that replacement bytes are never rescanned.
/// Gives back how many there were, too.
pub fn replace_bytes(haystack: &Vec<u8>, needle: &Vec<u8>, replacement: &Vec<u8>) -> (r: (
    Vec<u8>,
    usize,
))
    requires
        needle@.len() > 0,
    ensures
        r.0@ == substituted(haystack@, needle@, replacement@),
        r.1 == positions(haystack@, needle@, 0).len(),
{
    let found = find_all(haystack, needle);
    let mut out: Vec<u8> = Vec::new();
    let mut cursor: usize = 0;
    let mut i: usize = 0;
    let ghost all = as_ints(found@);
    proof {
        assert(haystack@.skip(0) =~= haystack@);
        assert(all.skip(0) =~= all);
        assert(out@ + substituted(haystack@, needle@, replacement@) =~= substituted(
            haystack@,
            needle@,
            replacement@,
        ));
    }
    while i < found.len()
        invariant
            0 <= i <= found@.len(),
            cursor <= haystack.len(),
            needle@.len() > 0,
            all == as_ints(found@),
            all.skip(i as int) == positions(haystack@, needle@, cursor as int),
            out@ + substituted(haystack@.skip(cursor as int), needle@, replacement@)
                == substituted(haystack@, needle@, replacement@),
        decreases found@.len() - i,
    {
        let position: usize = found[i];
        let ghost before = out@;
        let ghost here = cursor as int;
        proof {
            lemma_substituted_step(haystack@, needle@, replacement@, here);
            assert(all.skip(i as int)[0] == position);
            assert(all.skip(i as int).drop_first() =~= all.skip(i + 1));
            let k = find_from(haystack@, needle@, here)->0;
            assert((seq![k] + positions(haystack@, needle@, (k + needle@.len()) as int)).drop_first()
                =~= positions(haystack@, needle@, (k + needle@.len()) as int));
        }
        copy_range(&mut out, haystack, cursor, position);
        copy_range(&mut out, replacement, 0, replacement.len());
        assert(position + needle@.len() <= haystack.len());
        cursor = position + needle.len();
        proof {
            assert(replacement@.subrange(0, replacement@.len() as int) =~= replacement@);
            assert(before + (haystack@.subrange(here, position as int) + replacement@ + substituted(
                haystack@.skip(cursor as int),
                needle@,
                replacement@,
            )) =~= out@ + substituted(haystack@.skip(cursor as int), needle@, replacement@));
        }
        i += 1;
    }
    proof {
        lemma_substituted_step(haystack@, needle@, replacement@, cursor as int);
        assert(all.skip(i as int).len() == 0);
        assert(haystack@.subrange(cursor as int, haystack@.len() as int) =~= haystack@.skip(
            cursor as int,
        ));
    }
    copy_range(&mut out, haystack, cursor, haystack.len());
    (out, found.len())
}

/// Replaces every occurrence of a pattern.
pub fn substitute(haystack: &Vec<u8>, needle: &Vec<u8>, replacement: &Vec<u8>) -> (r: ToolResult<
    (Vec<u8>, String),
>)
    ensures
        patched_result(r) == substitution(haystack@, needle@, replacement@),
{
    if needle.len() == 0 {
        return Err(ToolError::InvalidArguments("`search_hex` must not be empty".to_owned()));
    }
    let (out, count) = replace_bytes(haystack, needle, replacement);
    Ok((out, cat3("replaced ", &decimal_text(count as u64), " occurrence(s)")))
}

/// Writes bytes over others from an offset on.
pub fn overwrite(original: &Vec<u8>, offset: u64, data: &Vec<u8>) -> (r: ToolResult<
    (Vec<u8>, String),
>)
    ensures
        patched_result(r) == overwriting(original@, offset, data@),
{
    if offset > usize::MAX as u64 {
        return Err(
            ToolError::InvalidArguments(cat3("offset ", &decimal_text(offset), " is too large")),
        );
    }
    let start: usize = offset as usize;
    if start > original.len() {
        return Err(
            ToolError::InvalidArguments(
                cat5(
                    "offset ",
                    &decimal_text(offset),
                    " is past the end of the ",
                    &decimal_text(original.len() as u64),
                    "-byte file",
                ),
            ),
        );
    }
    let mut out: Vec<u8> = Vec::new();
    copy_range(&mut out, original, 0, start);
    copy_range(&mut out, data, 0, data.len());
    if data.len() <= original.len() - start {
        copy_range(&mut out, original, start + data.len(), original.len());
    }
    proof {
        assert(original@.subrange(0, start as int) =~= original@.take(start as int));
        assert(data@.subrange(0, data@.len() as int) =~= data@);
        assert(out@ =~= overwritten(original@, start as int, data@));
    }
    Ok(
        (
            out,
            cat4(
                "wrote ",
                &decimal_text(data.len() as u64),
                " byte(s) at offset ",
                &decimal_text(offset),
            ),
        ),
    )
}

/// The message for a patch that has neither a pattern nor an offset.
pub const NOTHING_TO_PATCH: &'static str = "supply either `search_hex` (with `replace_hex`) or `offset` with `hex_data`";

/// The patch that the arguments describe, on the bytes of a file.
pub open spec fn described_patch(args: JsonView, original: Seq<u8>) -> Result<
    PatchedView,
    ToolErrorView,
> {
    match opt_string_arg(args, "search_hex"@) {
        Err(err) => Err(err),
        Ok(Some(search)) => match opt_string_arg(args, "replace_hex"@) {
            Err(err) => Err(err),
            Ok(replacement) => match hex_argument(search, "search_hex"@) {
                Err(err) => Err(err),
                Ok(needle) => match hex_argument(
                    match replacement {
                        Some(text) => text,
                        None => ""@,
                    },
                    "replace_hex"@,
                ) {
                    Err(err) => Err(err),
                    Ok(with) => substitution(original, needle, with),
                },
            },
        },
        Ok(None) => match opt_u64_arg(args, "offset"@) {
            Err(err) => Err(err),
            Ok(None) => Err(ToolErrorView::InvalidArguments(NOTHING_TO_PATCH@)),
            Ok(Some(offset)) => match string_arg(args, "hex_data"@) {
                Err(err) => Err(err),
                Ok(text) => match hex_argument(text, "hex_data"@) {
                    Err(err) => Err(err),
                    Ok(data) => overwriting(original, offset, data),
                },
            },
        },
    }
}

/// What `hex_patch` makes of a file: a change of its length is refused unless
/// it was allowed.
pub open spec fn made_patch(args: JsonView, allow_resize: bool, original: Seq<u8>) -> Result<
    PatchedView,
    ToolErrorView,
> {
    match described_patch(args, original) {
        Err(err) => Err(err),
        Ok(patched) => if patched.bytes.len() != original.len() && !allow_resize {
            Err(
                ToolErrorView::InvalidArguments(
                    "this patch would change the file size from "@ + decimal(original.len())
                        + " to "@ + decimal(patched.bytes.len())
                        + " bytes, which usually corrupts a binary; pass allow_resize: true if that is intended"@,
                ),
            )
        } else {
            Ok(patched)
        },
    }
}

fn describe_patch(args: &Json, original: &Vec<u8>) -> (r: ToolResult<(Vec<u8>, String)>)
    ensures
        patched_result(r) == described_patch(args@, original@),
{
    match opt_string(args, "search_hex") {
        Err(err) => Err(err),
        Ok(Some(search)) => {
            let replacement = match opt_string(args, "replace_hex") {
                Err(err) => return Err(err),
                Ok(Some(text)) => text,
                Ok(None) => "".to_owned(),
            };
            let needle = match decode(&search, "search_hex") {
                Err(err) => return Err(err),
                Ok(needle) => needle,
            };
            match decode(&replacement, "replace_hex") {
                Err(err) => Err(err),
                Ok(with) => substitute(original, &needle, &with),
            }
        },
        Ok(None) => match opt_u64(args, "offset") {
            Err(err) => Err(err),
            Ok(None) => Err(ToolError::InvalidArguments(NOTHING_TO_PATCH.to_owned())),
            Ok(Some(offset)) => match string(args, "hex_data") {
                Err(err) => Err(err),
                Ok(text) => match decode(&text, "hex_data") {
                    Err(err) => Err(err),
                    Ok(data) => overwrite(original, offset, &data),
                },
            },
        },
    }
}

/// Makes the patch that the arguments describe.
pub fn make_patch(args: &Json, allow_resize: bool, original: &Vec<u8>) -> (r: ToolResult<
    (Vec<u8>, String),
>)
    ensures
        patched_result(r) == made_patch(args@, allow_resize, original@),
{
    match describe_patch(args, original) {
        Err(err) => Err(err),
        Ok((patched, summary)) => {
            if patched.len() != original.len() && !allow_resize {
                return Err(
                    ToolError::InvalidArguments(
                        cat5(
                            "this patch would change the file size from ",
                            &decimal_text(original.len() as u64),
                            " to ",
                            &decimal_text(patched.len() as u64),
                            " bytes, which usually corrupts a binary; pass allow_resize: true if that is intended",
                        ),
                    ),
                );
            }
            Ok((patched, summary))
        },
    }
}

/// The last position of `c`, or -1.
pub open spec fn last_position(s: Seq<char>, c: char) -> int
    decreases s.len(),
{
    if s.len() == 0 {
        -1
    } else if s.last() == c {
        s.len() - 1
    } else {
        last_position(s.drop_last(), c)
    }
}

/// Where the copy of a file goes before it is patched: beside it, its extension
/// (or `bin`) followed by `omni-bak`.
pub open spec fn backup_path(path: Seq<char>) -> Seq<char> {
    let name = path.skip(last_position(path, '/') + 1);
    if last_position(name, '.') > 0 {
        path + ".omni-bak"@
    } else {
        path + ".bin.omni-bak"@
    }
}

fn last_char_position(s: &Vec<char>, from: usize, c: char) -> (r: Option<usize>)
    requires
        from <= s@.len(),
    ensures
        match r {
            Some(k) => last_position(s@.skip(from as int), c) == k - from && from <= k < s.len(),
            None => last_position(s@.skip(from as int), c) == -1,
        },
{
    let mut i: usize = s.len();
    let ghost rest = s@.skip(from as int);
    assert(rest.take(rest.len() as int) =~= rest);
    while i > from
        invariant
            from <= i <= s@.len(),
            rest == s@.skip(from as int),
            last_position(rest, c) == last_position(rest.take(i - from), c),
        decreases i,
    {
        i -= 1;
        proof {
            assert(rest.take(i - from + 1).last() == s@[i as int]);
            assert(rest.take(i - from + 1).drop_last() =~= rest.take(i - from));
        }
        if s[i] == c {
            return Some(i);
        }
    }
    None
}

/// Where the copy of a file goes before it is patched. The path is one that
/// names a file: it does not end in a slash.
pub fn backup_of(path: &str) -> (r: String)
    ensures
        r@ == backup_path(path@),
{
    let chars = chars_of(path);
    assert(chars@.skip(0) =~= chars@);
    let start: usize = match last_char_position(&chars, 0, '/') {
        Some(k) => k + 1,
        None => 0,
    };
    let named = match last_char_position(&chars, start, '.') {
        Some(k) => k > start,
        None => false,
    };
    if named {
        crate::text::cat2(path, ".omni-bak")
    } else {
        crate::text::cat2(path, ".bin.omni-bak")
    }
}

/// What a patch reports: one that was not written says so.
pub open spec fn patch_report_json(
    path: Seq<char>,
    applied: bool,
    original: nat,
    patched: PatchedView,
) -> JsonView {
    let start = JsonView::object().with("path"@, JsonView::Text(path)).with(
        "applied"@,
        JsonView::Bool(applied),
    ).with("original_bytes"@, json_number(original as u64)).with(
        "new_bytes"@,
        json_number(patched.bytes.len() as u64),
    );
    if applied {
        start.with("backup"@, JsonView::Text(backup_path(path))).with(
            "summary"@,
            JsonView::Text(patched.summary),
        )
    } else {
        start.with(
            "summary"@,
            JsonView::Text(patched.summary + " (preview only; pass apply: true to write)"@),
        )
    }
}

/// What a patch reports: one that was not written says so.
pub fn patch_report(
    path: &str,
    applied: bool,
    original: &Vec<u8>,
    patched: &Vec<u8>,
    summary: &str,
) -> (r: CallToolResult)
    ensures
        r@ == CallToolResultView::structured(
            patch_report_json(
                path@,
                applied,
                original@.len(),
                (PatchedView { bytes: patched@, summary: summary@ }),
            ),
        ),
{
    let start = Json::object().with("path", Json::string(path)).with(
        "applied",
        Json::Bool(applied),
    ).with("original_bytes", Json::number(original.len() as u64)).with(
        "new_bytes",
        Json::number(patched.len() as u64),
    );
    if applied {
        CallToolResult::structured(
            start.with("backup", Json::string(&backup_of(path))).with(
                "summary",
                Json::string(summary),
            ),
        )
    } else {
        CallToolResult::structured(
            start.with(
                "summary",
                Json::string(
                    &crate::text::cat2(summary, " (preview only; pass apply: true to write)"),
                ),
            ),
        )
    }
}

// ---------------------------------------------------------------------------
// Laws

/// A patch never changes the length of a file unless that was allowed.
pub proof fn lemma_patch_keeps_length(args: JsonView, original: Seq<u8>)
    requires
        made_patch(args, false, original) is Ok,
    ensures
        made_patch(args, false, original)->Ok_0.bytes.len() == original.len(),
{
}

/// Nothing is written unless the patch is to be applied; then a copy of the file as
/// it was is written before the file is, and the permission to change files was
/// there.
pub proof fn lemma_backup_comes_first(
    args: JsonView,
    ctx: ToolContextView,
    disk: OnDiskView,
    original: Seq<u8>,
    patched: Seq<u8>,
)
    requires
        patch_request(args, ctx, disk) is Ok,
    ensures
        ({
            let request = patch_request(args, ctx, disk)->Ok_0;
            let writes = request.writes(original, patched);
            &&& writes.len() > 0 <==> request.apply
            &&& writes.len() > 0 ==> {
                &&& ctx.policy.allow_file_mutation
                &&& writes.len() == 2
                &&& writes[0].path == backup_path(request.path) && writes[0].bytes == original
                &&& writes[1].path == request.path && writes[1].bytes == patched
            }
        }),
{
}

/// A pattern that is absent leaves the bytes untouched, and none is counted.
pub proof fn lemma_absent_pattern(haystack: Seq<u8>, needle: Seq<u8>, replacement: Seq<u8>)
    requires
        needle.len() > 0,
        !crate::text::contains(haystack, needle),
    ensures
        substitution(haystack, needle, replacement) == Ok::<PatchedView, ToolErrorView>(
            PatchedView {
                bytes: haystack,
                summary: "replaced "@ + decimal(0) + " occurrence(s)"@,
            },
        ),
{
    lemma_positions_found(haystack, needle);
}

/// Replacing a pattern by itself changes nothing.
pub proof fn lemma_identity_substitution(haystack: Seq<u8>, needle: Seq<u8>)
    requires
        needle.len() > 0,
    ensures
        substituted(haystack, needle, needle) == haystack,
    decreases haystack.len(),
{
    lemma_find_from(haystack, needle, 0);
    match find_from(haystack, needle, 0) {
        Some(k) => {
            let rest = haystack.subrange(k + needle.len(), haystack.len() as int);
            lemma_identity_substitution(rest, needle);
            assert(haystack.subrange(k, k + needle.len()) == needle);
            assert(haystack.subrange(0, k) + haystack.subrange(k, k + needle.len()) + rest
                =~= haystack);
        },
        None => {},
    }
}

/// The length after a substitution is the one before it, and the difference of
/// the two patterns once for every position.
pub proof fn lemma_substitution_length(haystack: Seq<u8>, needle: Seq<u8>, with: Seq<u8>, c: int)
    requires
        needle.len() > 0,
        0 <= c <= haystack.len(),
    ensures
        substituted(haystack.skip(c), needle, with).len() == haystack.len() - c + positions(
            haystack,
            needle,
            c,
        ).len() * (with.len() - needle.len()),
    decreases haystack.len() - c,
{
    lemma_substituted_step(haystack, needle, with, c);
    match find_from(haystack, needle, c) {
        Some(k) => {
            let next = (k + needle.len()) as int;
            lemma_substitution_length(haystack, needle, with, next);
            let n = positions(haystack, needle, next).len() as int;
            let d = with.len() - needle.len();
            assert((n + 1) * d == n * d + d) by (nonlinear_arith);
        },
        None => {
            let d = with.len() - needle.len();
            assert(0 * d == 0);
        },
    }
}

/// A write at an offset leaves everything outside its range as it was.
pub proof fn lemma_overwrite_frame(original: Seq<u8>, offset: int, data: Seq<u8>, i: int)
    requires
        0 <= offset <= original.len(),
        0 <= i < original.len(),
    ensures
        i < overwritten(original, offset, data).len(),
        overwritten(original, offset, data)[i] == if offset <= i < offset + data.len() {
            data[i - offset]
        } else {
            original[i]
        },
{
}

proof fn lemma_cleaned_digits(text: Seq<char>)
    requires
        forall|k: int| 0 <= k < text.len() ==> !is_separator(#[trigger] text[k]),
    ensures
        cleaned(text) == text,
    decreases text.len(),
{
    if text.len() > 0 {
        let front = text.drop_last();
        assert forall|k: int| 0 <= k < front.len() implies !is_separator(#[trigger] front[k]) by {
            assert(front[k] == text[k]);
        }
        lemma_cleaned_digits(front);
        assert(!is_separator(text[text.len() - 1]));
        assert(front.push(text.last()) =~= text);
    } else {
        assert(cleaned(text) =~= text);
    }
}

/// What a view shows in hexadecimal can be handed to a patch: it means the bytes
/// it was written from.
pub proof fn lemma_view_feeds_patch(bytes: Seq<u8>, field: Seq<char>)
    ensures
        hex_argument(hex_text(bytes), field) == Ok::<Seq<u8>, ToolErrorView>(bytes),
{
    lemma_hex_text_is_digits(bytes);
    let text = hex_text(bytes);
    assert forall|k: int| 0 <= k < text.len() implies !is_separator(#[trigger] text[k]) by {}
    lemma_cleaned_digits(text);
    lemma_hex_round_trip(bytes);
}

/// The copy never replaces the file it is a copy of.
pub proof fn lemma_backup_is_another_file(path: Seq<char>)
    ensures
        backup_path(path) != path,
{
    reveal_strlit(".omni-bak");
    reveal_strlit(".bin.omni-bak");
    assert(backup_path(path).len() > path.len());
}

/// Substitution cuts the bytes at every occurrence of the pattern and puts the
/// replacement there, keeps all that stands between, and counts the cuts.
pub proof fn lemma_substitution_cuts(haystack: Seq<u8>, needle: Seq<u8>, with: Seq<u8>) -> (parts:
    Seq<Seq<u8>>)
    requires
        needle.len() > 0,
    ensures
        is_cut(haystack, needle, parts),
        substitution(haystack, needle, with) == Ok::<PatchedView, ToolErrorView>(
            PatchedView {
                bytes: glued(parts, with),
                summary: "replaced "@ + decimal((parts.len() - 1) as nat) + " occurrence(s)"@,
            },
        ),
{
    let parts = lemma_replacing_cuts(haystack, needle, with);
    let longer = needle.push(0u8);
    let same = lemma_replacing_cuts(haystack, needle, longer);
    lemma_cuts_are_unique(haystack, needle, parts, same);
    lemma_substitution_length(haystack, needle, longer, 0);
    assert(haystack.skip(0) =~= haystack);
    let count = positions(haystack, needle, 0).len() as int;
    assert(longer.len() - needle.len() == 1);
    assert(count * 1 == count && (parts.len() - 1) * 1 == parts.len() - 1);
    assert(count == parts.len() - 1);
    parts
}

/// Writing at an offset keeps what stands before it and what stands behind the data,
/// and grows the file only as far as the data reaches past its end. An offset past the
/// end is refused.
pub proof fn lemma_overwriting(original: Seq<u8>, offset: u64, data: Seq<u8>)
    requires
        original.len() <= usize::MAX,
    ensures
        match overwriting(original, offset, data) {
            Ok(patched) => {
                let end = offset + data.len();
                &&& offset <= original.len()
                &&& patched.bytes.len() == if end > original.len() {
                    end
                } else {
                    original.len() as int
                }
                &&& forall|i: int|
                    0 <= i < patched.bytes.len() ==> #[trigger] patched.bytes[i] == if offset <= i
                        < end {
                        data[i - offset]
                    } else {
                        original[i]
                    }
                &&& patched.summary == "wrote "@ + decimal(data.len()) + " byte(s) at offset "@
                    + decimal(offset as nat)
            },
            Err(err) => offset > original.len() && err is InvalidArguments,
        },
{
}

proof fn lemma_cleaned_adds_up(a: Seq<char>, b: Seq<char>)
    ensures
        cleaned(a + b) == cleaned(a) + cleaned(b),
    decreases b.len(),
{
    let whole = a + b;
    if b.len() == 0 {
        assert(whole =~= a);
        assert(cleaned(a) + cleaned(b) =~= cleaned(a));
    } else {
        lemma_cleaned_adds_up(a, b.drop_last());
        assert(whole.drop_last() =~= a + b.drop_last());
        assert(whole.last() == b.last());
        assert(cleaned(a) + cleaned(b.drop_last()).push(b.last()) =~= (cleaned(a) + cleaned(
            b.drop_last(),
        )).push(b.last()));
    }
}

/// Blanks and colons between the digits do not count, wherever they stand, and every
/// other character does.
pub proof fn lemma_separators_do_not_count(a: Seq<char>, c: char, b: Seq<char>)
    ensures
        cleaned(a + seq![c] + b) == if is_whitespace(c) || c == ':' {
            cleaned(a + b)
        } else {
            cleaned(a) + seq![c] + cleaned(b)
        },
        cleaned(seq![]) == Seq::<char>::empty(),
{
    lemma_cleaned_adds_up(a + seq![c], b);
    lemma_cleaned_adds_up(a, seq![c]);
    lemma_cleaned_adds_up(a, b);
    assert(seq![c].drop_last() =~= seq![]);
    assert(cleaned(seq![c].drop_last()) =~= seq![]);
    if is_separator(c) {
        assert(cleaned(seq![c]) =~= seq![]);
        assert(cleaned(a) + cleaned(seq![c]) =~= cleaned(a));
    } else {
        assert(cleaned(seq![c]) =~= seq![c]);
    }
}

/// A patch that looks for a pattern puts the replacement for it, nothing where none is
/// given; one that writes at an offset writes its data there; a pattern wins over an
/// offset, and without either there is nothing to patch.
pub proof fn lemma_patches_do_what_they_describe(args: JsonView, original: Seq<u8>)
    ensures
        match (args.field("search_hex"@), args.field("offset"@)) {
            (Some(JsonView::Text(search)), _) => described_patch(args, original) matches Ok(patched)
                ==> {
                &&& hex_argument(search, "search_hex"@) matches Ok(needle) && needle.len() > 0
                    && match args.field("replace_hex"@) {
                    Some(JsonView::Text(text)) => hex_argument(text, "replace_hex"@) matches Ok(with)
                        && patched.bytes == substituted(original, needle, with),
                    Some(JsonView::Null) => patched.bytes == substituted(original, needle, seq![]),
                    None => patched.bytes == substituted(original, needle, seq![]),
                    Some(_) => false,
                }
            },
            (None, Some(JsonView::Number(JsonNumber::Unsigned(offset)))) => described_patch(
                args,
                original,
            ) matches Ok(patched) ==> {
                &&& args.field("hex_data"@) matches Some(JsonView::Text(text)) && hex_argument(
                    text,
                    "hex_data"@,
                ) matches Ok(data) && overwriting(original, offset, data) == Ok::<
                    PatchedView,
                    ToolErrorView,
                >(patched)
            },
            (None, None) => described_patch(args, original) is Err,
            _ => true,
        },
{
    lemma_nothing_is_written(original);
}

proof fn lemma_nothing_is_written(original: Seq<u8>)
    ensures
        hex_argument(""@, "replace_hex"@) == Ok::<Seq<u8>, ToolErrorView>(seq![]),
{
    reveal_strlit("");
    assert(""@ =~= hex_text(seq![]));
    lemma_view_feeds_patch(seq![], "replace_hex"@);
}

/// A patch that may resize is made as described; one that may not is made only where
/// the size stays.
pub proof fn lemma_resizing_is_asked_for(args: JsonView, original: Seq<u8>)
    ensures
        made_patch(args, true, original) == described_patch(args, original),
        described_patch(args, original) matches Ok(patched) ==> if patched.bytes.len()
            == original.len() {
            made_patch(args, false, original) == Ok::<PatchedView, ToolErrorView>(patched)
        } else {
            made_patch(args, false, original) matches Err(err) && err is InvalidArguments
        },
        described_patch(args, original) is Err ==> made_patch(args, false, original)
            == described_patch(args, original),
{
}

/// A window begins at its offset and holds as many bytes as are asked for, or as are
/// left; one that would begin past the end is refused.
pub proof fn lemma_window(offset: u64, length: u64, total: u64)
    ensures
        match window_bytes(offset, length, total) {
            Ok(n) => offset <= total && n <= length && offset + n <= total && (n < length ==> offset
                + n == total),
            Err(err) => offset > total && err is InvalidArguments,
        },
{
}

/// A view is made of the path that is asked for, from the start where no offset is
/// given, with as many bytes as are asked for, up to a mebibyte.
pub proof fn lemma_view_arguments(args: JsonView, ctx: ToolContextView, disk: OnDiskView)
    ensures
        view_request(args, ctx, disk) matches Ok(request) ==> {
            &&& args.field("path"@) matches Some(JsonView::Text(raw)) && resolved_path(
                ctx.roots,
                raw,
                disk,
            ) == Ok::<Seq<char>, ToolErrorView>(request.path)
            &&& match args.field("offset"@) {
                Some(JsonView::Number(JsonNumber::Unsigned(n))) => request.offset == n,
                Some(JsonView::Null) => request.offset == 0,
                None => request.offset == 0,
                Some(_) => false,
            }
            &&& match args.field("length"@) {
                Some(JsonView::Number(JsonNumber::Unsigned(n))) => request.length == if n
                    <= 1_048_576 {
                    n
                } else {
                    1_048_576
                },
                Some(JsonView::Null) => request.length == 256,
                None => request.length == 256,
                Some(_) => false,
            }
        },
        args.field("path"@) matches Some(JsonView::Text(raw)) ==> (args.field("offset"@) is None
            && args.field("length"@) is None && resolved_path(ctx.roots, raw, disk) is Ok
            ==> view_request(args, ctx, disk) is Ok),
{
}

/// A patch is made of the path that is asked for. It is written, and may resize, only
/// where that is asked for, and is denied where files may not be changed; a preview
/// never is.
pub proof fn lemma_patch_arguments(args: JsonView, ctx: ToolContextView, disk: OnDiskView)
    ensures
        patch_request(args, ctx, disk) matches Ok(request) ==> {
            &&& args.field("path"@) matches Some(JsonView::Text(raw)) && resolved_path(
                ctx.roots,
                raw,
                disk,
            ) == Ok::<Seq<char>, ToolErrorView>(request.path)
            &&& request.apply <==> args.field("apply"@) == Some(JsonView::Bool(true))
            &&& request.allow_resize <==> args.field("allow_resize"@) == Some(JsonView::Bool(true))
            &&& request.apply ==> ctx.policy.allow_file_mutation
        },
        args.field("path"@) matches Some(JsonView::Text(raw)) ==> (resolved_path(
            ctx.roots,
            raw,
            disk,
        ) is Ok && args.field("apply"@) == Some(JsonView::Bool(true)) && args.field(
            "allow_resize"@,
        ) is None ==> if ctx.policy.allow_file_mutation {
            patch_request(args, ctx, disk) is Ok
        } else {
            patch_request(args, ctx, disk) matches Err(err) && err is Denied
        }),
        args.field("path"@) matches Some(JsonView::Text(raw)) ==> (resolved_path(
            ctx.roots,
            raw,
            disk,
        ) is Ok && args.field("apply"@) is None && args.field("allow_resize"@) is None
            ==> patch_request(args, ctx, disk) is Ok),
{
}

/// The report of a view says where the bytes come from, how many there are, and what
/// they are.
pub proof fn lemma_view_report(path: Seq<char>, total: u64, offset: u64, bytes: Seq<u8>)
    ensures
        ({
            let report = view_report_json(path, total, offset, bytes);
            &&& report.field("path"@) == Some(JsonView::Text(path))
            &&& report.field("total_bytes"@) == Some(json_number(total))
            &&& report.field("offset"@) == Some(json_number(offset))
            &&& report.field("bytes_read"@) == Some(json_number(bytes.len() as u64))
            &&& report.field("hex"@) == Some(JsonView::Text(hex_text(bytes)))
            &&& report.field("dump"@) == Some(JsonView::Text(dump_text(bytes, offset as nat)))
        }),
{
    reveal_strlit("path");
    reveal_strlit("total_bytes");
    reveal_strlit("offset");
    reveal_strlit("bytes_read");
    reveal_strlit("hex");
    reveal_strlit("dump");
    assert("path"@.len() == 4);
    assert("total_bytes"@.len() == 11);
    assert("offset"@.len() == 6);
    assert("bytes_read"@.len() == 10);
    assert("hex"@.len() == 3);
    assert("dump"@.len() == 4);
    assert("path"@[0] == 'p');
    assert("dump"@[0] == 'd');
}

/// The report of a patch says whether it was written, the size before and after, what
/// was done, and the copy that was kept, where one was.
pub proof fn lemma_patch_report(
    path: Seq<char>,
    applied: bool,
    original: nat,
    patched: PatchedView,
)
    ensures
        ({
            let report = patch_report_json(path, applied, original, patched);
            &&& report.field("path"@) == Some(JsonView::Text(path))
            &&& report.field("applied"@) == Some(JsonView::Bool(applied))
            &&& report.field("original_bytes"@) == Some(json_number(original as u64))
            &&& report.field("new_bytes"@) == Some(json_number(patched.bytes.len() as u64))
            &&& applied ==> report.field("summary"@) == Some(JsonView::Text(patched.summary))
                && report.field("backup"@) == Some(JsonView::Text(backup_path(path)))
            &&& !applied ==> report.field("backup"@) is None && report.field("summary"@) == Some(
                JsonView::Text(patched.summary + " (preview only; pass apply: true to write)"@),
            )
        }),
{
    reveal_strlit("path");
    reveal_strlit("applied");
    reveal_strlit("original_bytes");
    reveal_strlit("new_bytes");
    reveal_strlit("summary");
    reveal_strlit("backup");
    assert("path"@.len() == 4);
    assert("applied"@.len() == 7);
    assert("original_bytes"@.len() == 14);
    assert("new_bytes"@.len() == 9);
    assert("summary"@.len() == 7);
    assert("backup"@.len() == 6);
    assert("applied"@[0] == 'a');
    assert("summary"@[0] == 's');
}

/// A copy is kept beside the file: its name is that of the file with an ending of its
/// own.
pub proof fn lemma_backup_name(path: Seq<char>)
    ensures
        starts_with(backup_path(path), path),
        backup_path(path).len() > path.len(),
        backup_path(path).skip(backup_path(path).len() - 9) == ".omni-bak"@,
        forall|i: int|
            path.len() <= i < backup_path(path).len() ==> #[trigger] backup_path(path)[i] != '/',
{
    reveal_strlit(".omni-bak");
    reveal_strlit(".bin.omni-bak");
    assert(".omni-bak"@.len() == 9);
    assert(".bin.omni-bak"@.len() == 13);
    let copy = backup_path(path);
    assert(copy.subrange(0, path.len() as int) =~= path);
    assert(copy.skip(copy.len() - 9) =~= ".omni-bak"@);
}

/// Rows of a dump stand one below the other: cutting the bytes where a row ends cuts
/// the dump, and the second half goes on counting where the first ends.
pub proof fn lemma_dump_adds_up(a: Seq<u8>, b: Seq<u8>, base: nat)
    requires
        a.len() % 16 == 0,
    ensures
        dump_text(a + b, base) == dump_text(a, base) + dump_text(b, base + a.len()),
    decreases a.len(),
{
    let whole = a + b;
    if a.len() == 0 {
        assert(whole =~= b);
        assert(dump_text(a, base) + dump_text(b, base) =~= dump_text(b, base));
    } else {
        assert(a.len() >= 16);
        let less = a.skip(16);
        lemma_dump_adds_up(less, b, base + 16);
        assert(whole.take(16) =~= a.take(16));
        assert(whole.skip(16) =~= less + b);
        let row = dump_row(a.take(16), base);
        if a.len() == 16 {
            assert(a.take(16) =~= a);
            assert(less =~= seq![]);
            assert(dump_text(less, base + 16) =~= seq![]);
            if b.len() == 0 {
                assert(whole =~= a);
                assert(dump_text(b, base + 16) =~= seq![]);
                assert(row + dump_text(b, base + 16) =~= row);
            } else {
                assert(less + b =~= b);
            }
        } else {
            assert(row + (dump_text(less, base + 16) + dump_text(b, base + a.len())) =~= (row
                + dump_text(less, base + 16)) + dump_text(b, base + a.len()));
        }
    }
}

/// Where the digits of a byte stand among the cells of a row: two for each byte and a
/// blank behind them, and one blank more in the middle.
pub open spec fn cell_start(column: int) -> int {
    3 * column + if column > 7 {
        1int
    } else {
        0int
    }
}

proof fn lemma_cells(chunk: Seq<u8>, n: int, column: int)
    requires
        0 <= column < n <= 16,
    ensures
        dump_cells(chunk, n).len() == cell_start(n),
        column < chunk.len() ==> dump_cells(chunk, n).subrange(
            cell_start(column),
            cell_start(column) + 2,
        ) == byte_text(chunk[column]),
        column >= chunk.len() ==> dump_cells(chunk, n).subrange(
            cell_start(column),
            cell_start(column) + 2,
        ) == seq![' ', ' '],
    decreases n,
{
    reveal_strlit("   ");
    assert("   "@.len() == 3 && "   "@[0] == ' ' && "   "@[1] == ' ');
    let cells = dump_cells(chunk, n);
    let before = dump_cells(chunk, n - 1);
    if n == 1 {
        assert(before =~= seq![]);
        assert(before.len() == cell_start(0));
    } else {
        lemma_cells(chunk, n - 1, if column < n - 1 {
            column
        } else {
            0
        });
    }
    let start = cell_start(column);
    if column == n - 1 {
        if column < chunk.len() {
            assert(cells.subrange(start, start + 2) =~= byte_text(chunk[column]));
        } else {
            assert(cells.subrange(start, start + 2) =~= seq![' ', ' ']);
        }
    } else {
        assert(cells.subrange(start, start + 2) =~= before.subrange(start, start + 2));
    }
}

proof fn lemma_row_parts(head: Seq<char>, cells: Seq<char>, signs: Seq<char>)
    requires
        cells.len() == 49,
    ensures
        ({
            let row = head + "  "@ + cells + " |"@ + signs + "|\n"@;
            let digits = head.len() as int;
            &&& row.len() == digits + 55 + signs.len()
            &&& row.take(digits) == head
            &&& row[digits] == ' ' && row[digits + 1] == ' '
            &&& row.subrange(digits + 2, digits + 51) == cells
            &&& row[digits + 52] == '|'
            &&& row.subrange(digits + 53, digits + 53 + signs.len()) == signs
            &&& row[row.len() - 2] == '|'
            &&& row.last() == '\n'
        }),
{
    reveal_strlit("  ");
    reveal_strlit(" |");
    reveal_strlit("|\n");
    assert("  "@.len() == 2 && "  "@[0] == ' ' && "  "@[1] == ' ');
    assert(" |"@.len() == 2 && " |"@[0] == ' ' && " |"@[1] == '|');
    assert("|\n"@.len() == 2 && "|\n"@[0] == '|' && "|\n"@[1] == '\n');
    let row = head + "  "@ + cells + " |"@ + signs + "|\n"@;
    let digits = head.len() as int;
    assert(row.take(digits) =~= head);
    assert(row.subrange(digits + 2, digits + 51) =~= cells);
    assert(row.subrange(digits + 53, digits + 53 + signs.len()) =~= signs);
}

/// How many digits the address of a row has.
pub open spec fn address_width(chunk: Seq<u8>, address: nat) -> int {
    dump_row(chunk, address).len() - 55 - chunk.len()
}

proof fn lemma_row_layout(chunk: Seq<u8>, address: nat)
    ensures
        ({
            let row = dump_row(chunk, address);
            let digits = address_width(chunk, address);
            let head = zero_padded(hexadecimal(address), 8);
            &&& digits == head.len()
            &&& row.take(digits) == head
            &&& row[digits] == ' ' && row[digits + 1] == ' '
            &&& row.subrange(digits + 2, digits + 51) == dump_cells(chunk, 16)
            &&& dump_cells(chunk, 16).len() == 49
            &&& row[digits + 52] == '|'
            &&& row.subrange(digits + 53, digits + 53 + chunk.len()) == gutter(chunk)
            &&& row[row.len() - 2] == '|'
            &&& row.last() == '\n'
        }),
{
    lemma_cells(chunk, 16, 0);
    lemma_row_parts(zero_padded(hexadecimal(address), 8), dump_cells(chunk, 16), gutter(chunk));
}

/// A row begins with the address of its first byte in hexadecimal, eight digits at
/// least, and ends with a line feed.
pub proof fn lemma_row_address(chunk: Seq<u8>, address: nat)
    ensures
        ({
            let row = dump_row(chunk, address);
            let digits = address_width(chunk, address);
            &&& 8 <= digits < row.len()
            &&& hex_number(row.take(digits)) == address
            &&& digits > 8 ==> row[0] != '0'
            &&& row[digits] == ' ' && row[digits + 1] == ' '
            &&& row.last() == '\n'
        }),
{
    lemma_row_layout(chunk, address);
    lemma_hexadecimal_reads_back(address);
    lemma_padding(hexadecimal(address), 8);
    let row = dump_row(chunk, address);
    let digits = address_width(chunk, address);
    if digits > 8 {
        assert(row[0] == row.take(digits)[0]);
        if address == 0 {
            assert(hexadecimal(0).len() == 1);
        }
    }
}

/// Behind the address stand the two digits of each byte of the row, and room for those
/// that are missing.
pub proof fn lemma_row_digits(chunk: Seq<u8>, address: nat, column: int)
    requires
        chunk.len() <= 16,
        0 <= column < 16,
    ensures
        ({
            let row = dump_row(chunk, address);
            let cell = address_width(chunk, address) + 2 + cell_start(column);
            &&& column < chunk.len() ==> row.subrange(cell, cell + 2) == byte_text(chunk[column])
            &&& column >= chunk.len() ==> row.subrange(cell, cell + 2) == seq![' ', ' ']
        }),
{
    lemma_row_layout(chunk, address);
    lemma_cells(chunk, 16, column);
    let row = dump_row(chunk, address);
    let digits = address_width(chunk, address);
    let start = cell_start(column);
    assert(0 <= start && start + 2 <= 49);
    assert(row.subrange(digits + 2 + start, digits + 4 + start) =~= row.subrange(
        digits + 2,
        digits + 51,
    ).subrange(start, start + 2));
}

/// At the end stands, between bars, each byte as the character that it is, or as a dot
/// where that cannot be shown.
pub proof fn lemma_row_characters(chunk: Seq<u8>, address: nat, column: int)
    requires
        0 <= column < chunk.len(),
    ensures
        ({
            let row = dump_row(chunk, address);
            let bar = address_width(chunk, address) + 52;
            &&& row[bar] == '|' && row[row.len() - 2] == '|'
            &&& row[bar + 1 + column] == if 32 <= chunk[column] <= 126 {
                chunk[column] as char
            } else {
                '.'
            }
        }),
{
    lemma_row_layout(chunk, address);
    let row = dump_row(chunk, address);
    let digits = address_width(chunk, address);
    assert(row[digits + 53 + column] == row.subrange(
        digits + 53,
        digits + 53 + chunk.len(),
    )[column]);
}

/// What the two tools take: a path for each, a window for the one, and what to find or
/// where to write for the other.
pub proof fn lemma_hex_schemas()
    ensures
        view_tool().name == "hex_view"@,
        needs(view_tool().input_schema, seq!["path"@]),
        takes(view_tool().input_schema, "path"@, "string"@),
        takes(view_tool().input_schema, "offset"@, "integer"@),
        takes(view_tool().input_schema, "length"@, "integer"@),
        patch_tool().name == "hex_patch"@,
        needs(patch_tool().input_schema, seq!["path"@]),
        takes(patch_tool().input_schema, "path"@, "string"@),
        takes(patch_tool().input_schema, "search_hex"@, "string"@),
        takes(patch_tool().input_schema, "replace_hex"@, "string"@),
        takes(patch_tool().input_schema, "offset"@, "integer"@),
        takes(patch_tool().input_schema, "hex_data"@, "string"@),
        takes(patch_tool().input_schema, "apply"@, "boolean"@),
        takes(patch_tool().input_schema, "allow_resize"@, "boolean"@),
{
    reveal_strlit("path");
    reveal_strlit("offset");
    reveal_strlit("length");
    reveal_strlit("search_hex");
    reveal_strlit("replace_hex");
    reveal_strlit("hex_data");
    reveal_strlit("apply");
    reveal_strlit("allow_resize");
    reveal_strlit("type");
    reveal_strlit("properties");
    reveal_strlit("required");
    reveal_strlit("description");
    assert("path"@.len() == 4);
    assert("offset"@.len() == 6);
    assert("length"@.len() == 6);
    assert("search_hex"@.len() == 10);
    assert("replace_hex"@.len() == 11);
    assert("hex_data"@.len() == 8);
    assert("apply"@.len() == 5);
    assert("allow_resize"@.len() == 12);
    assert("type"@.len() == 4);
    assert("properties"@.len() == 10);
    assert("required"@.len() == 8);
    assert("description"@.len() == 11);
    assert("path"@[0] == 'p');
    assert("offset"@[0] == 'o');
    assert("length"@[0] == 'l');
    assert("search_hex"@[0] == 's');
    assert("replace_hex"@[0] == 'r');
    assert("hex_data"@[0] == 'h');
    assert("type"@[0] == 't');
    assert("properties"@[0] == 'p');
    assert("required"@[0] == 'r');
    assert("description"@[0] == 'd');
}

/// What could not be written is told, with the path of the file.
pub proof fn lemma_complaints(request: PatchRequestView, original: Seq<u8>, patched: Seq<u8>)
    requires
        request.apply,
    ensures
        contains(request.writes(original, patched)[0].complaint, "backup"@),
        contains(request.writes(original, patched)[1].complaint, request.path),
{
    reveal_strlit("could not write backup");
    reveal_strlit("could not write ");
    reveal_strlit("backup");
    let none = Seq::<char>::empty();
    lemma_contains("could not write "@, "backup"@, none);
    assert("could not write "@ + "backup"@ + none =~= "could not write backup"@);
    lemma_contains("could not write "@, request.path, none);
    assert("could not write "@ + request.path + none =~= "could not write "@ + request.path);
}

proof fn lemma_last_position(s: Seq<char>, c: char)
    ensures
        -1 <= last_position(s, c) < s.len(),
        last_position(s, c) >= 0 ==> s[last_position(s, c)] == c,
        forall|i: int| last_position(s, c) < i < s.len() ==> #[trigger] s[i] != c,
    decreases s.len(),
{
    if s.len() > 0 && s.last() != c {
        let front = s.drop_last();
        lemma_last_position(front, c);
        let p = last_position(front, c);
        if p >= 0 {
            assert(s[p] == front[p]);
        }
        assert forall|i: int| p < i < s.len() implies #[trigger] s[i] != c by {
            if i < front.len() {
                assert(s[i] == front[i]);
            }
        }
    }
}

/// A file whose name has an ending, a dot that does not begin the name, keeps it in
/// front of that of the copy; one without gets another ending before it.
pub proof fn lemma_backup_endings(dir: Seq<char>, name: Seq<char>)
    requires
        !name.contains('/'),
    ensures
        (exists|i: int| 0 < i < name.len() && #[trigger] name[i] == '.') ==> backup_path(
            dir + seq!['/'] + name,
        ) == dir + seq!['/'] + name + ".omni-bak"@,
        !(exists|i: int| 0 < i < name.len() && #[trigger] name[i] == '.') ==> backup_path(
            dir + seq!['/'] + name,
        ) == dir + seq!['/'] + name + ".bin.omni-bak"@,
{
    let path = dir + seq!['/'] + name;
    let slash = dir.len() as int;
    lemma_last_position(path, '/');
    let p = last_position(path, '/');
    assert(path[slash] == '/');
    if p > slash {
        assert(path[p] == name[p - slash - 1]);
        assert(name.contains(name[p - slash - 1]));
    }
    assert(p == slash);
    assert(path.skip(p + 1) =~= name);
    lemma_last_position(name, '.');
    if exists|i: int| 0 < i < name.len() && #[trigger] name[i] == '.' {
        let i = choose|i: int| 0 < i < name.len() && #[trigger] name[i] == '.';
        assert(last_position(name, '.') >= i);
    }
}

} // verus!
