//! Reading the arguments of a tool call.
//!
//! A required argument that is not there is reported rather than defaulted; an
//! argument of the wrong type is reported wherever it stands. An optional
//! argument that is `null` counts as not there.

use vstd::prelude::*;

use crate::error::{missing, missing_view, ToolError, ToolErrorView, ToolResult};
use crate::json::{Json, JsonNumber, JsonView};
use crate::text::{cat4, contains, debug, debug_text, lemma_contains};

verus! {

/// The error for an argument that is not `kind`.
pub open spec fn wrong_kind(field: Seq<char>, kind: Seq<char>) -> ToolErrorView {
    ToolErrorView::InvalidArguments("argument "@ + debug_text(field) + " must be "@ + kind)
}

fn refuse_kind(field: &str, kind: &str) -> (r: ToolError)
    ensures
        r@ == wrong_kind(field@, kind@),
{
    ToolError::InvalidArguments(cat4("argument ", &debug(field), " must be ", kind))
}

/// The text that must stand under `field`.
pub open spec fn string_arg(args: JsonView, field: Seq<char>) -> Result<
    Seq<char>,
    ToolErrorView,
> {
    match args.field(field) {
        None => Err(missing_view(field)),
        Some(JsonView::Text(s)) => Ok(s),
        Some(_) => Err(wrong_kind(field, "a string"@)),
    }
}

/// The text that may stand under `field`.
pub open spec fn opt_string_arg(args: JsonView, field: Seq<char>) -> Result<
    Option<Seq<char>>,
    ToolErrorView,
> {
    match args.field(field) {
        None => Ok(None),
        Some(JsonView::Null) => Ok(None),
        Some(JsonView::Text(s)) => Ok(Some(s)),
        Some(_) => Err(wrong_kind(field, "a string"@)),
    }
}

/// The natural number that may stand under `field`.
pub open spec fn opt_u64_arg(args: JsonView, field: Seq<char>) -> Result<
    Option<u64>,
    ToolErrorView,
> {
    match args.field(field) {
        None => Ok(None),
        Some(JsonView::Null) => Ok(None),
        Some(v) => match v.unsigned() {
            Some(n) => Ok(Some(n)),
            None => Err(wrong_kind(field, "a non-negative integer"@)),
        },
    }
}

/// The natural number under `field`, or `default`.
pub open spec fn u64_arg(args: JsonView, field: Seq<char>, default: u64) -> Result<
    u64,
    ToolErrorView,
> {
    match opt_u64_arg(args, field) {
        Ok(Some(n)) => Ok(n),
        Ok(None) => Ok(default),
        Err(err) => Err(err),
    }
}

/// The truth value under `field`, or `default`.
pub open spec fn bool_arg(args: JsonView, field: Seq<char>, default: bool) -> Result<
    bool,
    ToolErrorView,
> {
    match args.field(field) {
        None => Ok(default),
        Some(JsonView::Null) => Ok(default),
        Some(JsonView::Bool(b)) => Ok(b),
        Some(_) => Err(wrong_kind(field, "a boolean"@)),
    }
}

/// The text that must stand under `field`.
pub fn string(args: &Json, field: &str) -> (r: ToolResult<String>)
    ensures
        crate::error::tool_result(r) == string_arg(args@, field@),
{
    match args.get(field) {
        None => Err(missing(field)),
        Some(Json::Text(s)) => Ok(s.clone()),
        Some(_) => Err(refuse_kind(field, "a string")),
    }
}

/// The text that may stand under `field`.
pub fn opt_string(args: &Json, field: &str) -> (r: ToolResult<Option<String>>)
    ensures
        match r {
            Ok(Some(s)) => opt_string_arg(args@, field@) == Ok::<
                Option<Seq<char>>,
                ToolErrorView,
            >(Some(s@)),
            Ok(None) => opt_string_arg(args@, field@) == Ok::<Option<Seq<char>>, ToolErrorView>(
                None,
            ),
            Err(err) => opt_string_arg(args@, field@) == Err::<Option<Seq<char>>, ToolErrorView>(
                err@,
            ),
        },
{
    match args.get(field) {
        None => Ok(None),
        Some(Json::Null) => Ok(None),
        Some(Json::Text(s)) => Ok(Some(s.clone())),
        Some(_) => Err(refuse_kind(field, "a string")),
    }
}

/// The natural number that may stand under `field`.
pub fn opt_u64(args: &Json, field: &str) -> (r: ToolResult<Option<u64>>)
    ensures
        crate::error::tool_result(r) == opt_u64_arg(args@, field@),
{
    match args.get(field) {
        None => Ok(None),
        Some(Json::Null) => Ok(None),
        Some(v) => match v.as_unsigned() {
            Some(n) => Ok(Some(n)),
            None => Err(refuse_kind(field, "a non-negative integer")),
        },
    }
}

/// The natural number under `field`, or `default`.
pub fn u64_or(args: &Json, field: &str, default: u64) -> (r: ToolResult<u64>)
    ensures
        crate::error::tool_result(r) == u64_arg(args@, field@, default),
{
    match opt_u64(args, field) {
        Ok(Some(n)) => Ok(n),
        Ok(None) => Ok(default),
        Err(err) => Err(err),
    }
}

/// The truth value under `field`, or `default`.
pub fn bool_or(args: &Json, field: &str, default: bool) -> (r: ToolResult<bool>)
    ensures
        crate::error::tool_result(r) == bool_arg(args@, field@, default),
{
    match args.get(field) {
        None => Ok(default),
        Some(Json::Null) => Ok(default),
        Some(Json::Bool(b)) => Ok(*b),
        Some(_) => Err(refuse_kind(field, "a boolean")),
    }
}

/// An argument is read as what it holds. One that must be there is refused where it is
/// not, one that may be there gives the default where it is not or where it is null,
/// and one that holds something else is refused; a refusal is always one of the
/// arguments.
pub proof fn lemma_arguments_are_read(
    args: JsonView,
    field: Seq<char>,
    number: u64,
    flag: bool,
)
    ensures
        match args.field(field) {
            None => {
                &&& string_arg(args, field) is Err
                &&& opt_string_arg(args, field) == Ok::<Option<Seq<char>>, ToolErrorView>(None)
                &&& opt_u64_arg(args, field) == Ok::<Option<u64>, ToolErrorView>(None)
                &&& u64_arg(args, field, number) == Ok::<u64, ToolErrorView>(number)
                &&& bool_arg(args, field, flag) == Ok::<bool, ToolErrorView>(flag)
            },
            Some(JsonView::Null) => {
                &&& string_arg(args, field) is Err
                &&& opt_string_arg(args, field) == Ok::<Option<Seq<char>>, ToolErrorView>(None)
                &&& opt_u64_arg(args, field) == Ok::<Option<u64>, ToolErrorView>(None)
                &&& u64_arg(args, field, number) == Ok::<u64, ToolErrorView>(number)
                &&& bool_arg(args, field, flag) == Ok::<bool, ToolErrorView>(flag)
            },
            Some(JsonView::Text(s)) => {
                &&& string_arg(args, field) == Ok::<Seq<char>, ToolErrorView>(s)
                &&& opt_string_arg(args, field) == Ok::<Option<Seq<char>>, ToolErrorView>(Some(s))
                &&& opt_u64_arg(args, field) is Err
                &&& u64_arg(args, field, number) is Err
                &&& bool_arg(args, field, flag) is Err
            },
            Some(JsonView::Number(JsonNumber::Unsigned(n))) => {
                &&& string_arg(args, field) is Err
                &&& opt_string_arg(args, field) is Err
                &&& opt_u64_arg(args, field) == Ok::<Option<u64>, ToolErrorView>(Some(n))
                &&& u64_arg(args, field, number) == Ok::<u64, ToolErrorView>(n)
                &&& bool_arg(args, field, flag) is Err
            },
            Some(JsonView::Bool(b)) => {
                &&& string_arg(args, field) is Err
                &&& opt_string_arg(args, field) is Err
                &&& opt_u64_arg(args, field) is Err
                &&& u64_arg(args, field, number) is Err
                &&& bool_arg(args, field, flag) == Ok::<bool, ToolErrorView>(b)
            },
            Some(_) => {
                &&& string_arg(args, field) is Err
                &&& opt_string_arg(args, field) is Err
                &&& opt_u64_arg(args, field) is Err
                &&& u64_arg(args, field, number) is Err
                &&& bool_arg(args, field, flag) is Err
            },
        },
        string_arg(args, field) matches Err(err) ==> err is InvalidArguments,
        opt_string_arg(args, field) matches Err(err) ==> err is InvalidArguments,
        opt_u64_arg(args, field) matches Err(err) ==> err is InvalidArguments,
        u64_arg(args, field, number) matches Err(err) ==> err is InvalidArguments,
        bool_arg(args, field, flag) matches Err(err) ==> err is InvalidArguments,
{
}

/// A refusal names the argument and what it should be.
pub proof fn lemma_refusals_name_the_argument(field: Seq<char>, kind: Seq<char>)
    ensures
        wrong_kind(field, kind) matches ToolErrorView::InvalidArguments(message) && contains(
            message,
            debug_text(field),
        ) && contains(message, kind),
{
    let rest = " must be "@ + kind;
    lemma_contains("argument "@, debug_text(field), rest);
    assert("argument "@ + debug_text(field) + rest =~= "argument "@ + debug_text(field)
        + " must be "@ + kind);
    let front = "argument "@ + debug_text(field) + " must be "@;
    lemma_contains(front, kind, seq![]);
    assert(front + kind + Seq::<char>::empty() =~= front + kind);
}

} // verus!
