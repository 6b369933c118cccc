//! Self-contained modules of tools, as a [`crate::registry::Registry`] holds
//! them.

pub mod common;
pub mod diff;
pub mod eval;
pub mod everything;
pub mod grep;
pub mod hex;
pub mod resx;

use vstd::prelude::*;

use crate::json::{Json, JsonView};
use crate::protocol::mcp::{CallToolResult, CallToolResultView};
use crate::text::cat2;

verus! {

/// How large a compiled regular expression of a module may be.
pub const REGEX_SIZE_LIMIT: usize = 10485760;

/// The outcome of a call of a module.
pub open spec fn module_result<T: View>(r: Result<T, String>) -> Result<T::V, Seq<char>> {
    match r {
        Ok(value) => Ok(value@),
        Err(message) => Err(message@),
    }
}

/// The message for a tool that a module does not have.
pub open spec fn unknown_message(name: Seq<char>) -> Seq<char> {
    "Unknown tool: "@ + name
}

/// The message for a tool that a module does not have.
pub fn say_unknown(name: &str) -> (r: String)
    ensures
        r@ == unknown_message(name@),
{
    cat2("Unknown tool: ", name)
}

/// The text under `key`, or the empty text.
pub open spec fn text_or_empty(args: JsonView, key: Seq<char>) -> Seq<char> {
    match args.text_field(key) {
        Some(text) => text,
        None => ""@,
    }
}

/// The text under `key`, or the empty text.
pub fn read_text_or_empty(args: &Json, key: &str) -> (r: String)
    ensures
        r@ == text_or_empty(args@, key@),
{
    match args.get_text(key) {
        Some(text) => text.clone(),
        None => "".to_owned(),
    }
}

/// A result that shows a value as pretty JSON and nothing more.
pub open spec fn shown(value: JsonView) -> CallToolResultView {
    CallToolResultView::text(crate::json::pretty_json(value))
}

/// A result that shows a value as pretty JSON and nothing more.
pub fn show(value: Json) -> (r: CallToolResult)
    ensures
        r@ == shown(value@),
{
    CallToolResult::text(value.pretty())
}

} // verus!
