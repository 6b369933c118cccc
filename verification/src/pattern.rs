//! Regular expressions, compiled and matched by the `regex` crate.

use vstd::prelude::*;

use crate::text::{opt_view, views};

verus! {

/// `regex::Regex`, a compiled regular expression.
#[verifier::external_type_specification]
#[verifier::external_body]
pub struct ExRegex(regex::Regex);

/// What a regular expression was compiled from.
pub struct PatternView {
    pub source: Seq<char>,
    pub ignore_case: bool,
}

/// What a compiled regular expression was made from.
pub uninterp spec fn regex_origin(regex: regex::Regex) -> PatternView;

/// The message with which a regular expression is refused, where it is: by its
/// text, by whether case is ignored, by the limit on its compiled size in bytes,
/// and by the word size on which that size depends.
pub uninterp spec fn regex_refusal(
    source: Seq<char>,
    ignore_case: bool,
    size_limit: nat,
    word_bits: nat,
) -> Option<Seq<char>>;

/// Whether a regular expression matches anywhere in a text.
pub uninterp spec fn regex_matches(source: Seq<char>, ignore_case: bool, text: Seq<char>) -> bool;

/// A text with every match of a regular expression replaced, with references to
/// captures expanded.
pub uninterp spec fn regex_replaced(
    source: Seq<char>,
    ignore_case: bool,
    text: Seq<char>,
    with: Seq<char>,
) -> Seq<char>;

/// The matches of a regular expression in a text, in order.
pub uninterp spec fn regex_found(
    source: Seq<char>,
    ignore_case: bool,
    text: Seq<char>,
) -> Seq<Seq<char>>;

/// The matches of a regular expression in a text with their groups, in order.
pub uninterp spec fn regex_captured(
    source: Seq<char>,
    ignore_case: bool,
    text: Seq<char>,
) -> Seq<CaptureView>;

/// One match: where it starts in bytes, and its groups. The first group, where
/// there is one, is the whole match.
pub struct Capture {
    pub start: usize,
    pub groups: Vec<Option<String>>,
}

/// What a [`Capture`] holds.
pub struct CaptureView {
    pub start: int,
    pub groups: Seq<Option<Seq<char>>>,
}

/// The groups of a match.
pub open spec fn group_views(groups: Seq<Option<String>>) -> Seq<Option<Seq<char>>> {
    groups.map_values(|g: Option<String>| opt_view(g))
}

impl View for Capture {
    type V = CaptureView;

    open spec fn view(&self) -> CaptureView {
        CaptureView { start: self.start as int, groups: group_views(self.groups@) }
    }
}

/// The outcome of compiling a regular expression.
pub open spec fn build_outcome(
    r: Result<regex::Regex, String>,
    source: Seq<char>,
    ignore_case: bool,
    refusal: Option<Seq<char>>,
) -> bool {
    match r {
        Ok(regex) => refusal is None && regex_origin(regex) == (PatternView {
            source,
            ignore_case,
        }),
        Err(message) => refusal == Some(message@),
    }
}

/// `regex::RegexBuilder::build`, with `case_insensitive` and `size_limit` set:
/// either a regular expression made from the pattern or the message of the
/// error. Which patterns are refused is not stated beyond what it depends on.
#[verifier::external_body]
pub(crate) fn build_regex(source: &str, ignore_case: bool, size_limit: usize) -> (r: Result<
    regex::Regex,
    String,
>)
    ensures
        build_outcome(
            r,
            source@,
            ignore_case,
            regex_refusal(source@, ignore_case, size_limit as nat, usize::BITS as nat),
        ),
{
    regex::RegexBuilder::new(source)
        .case_insensitive(ignore_case)
        .size_limit(size_limit)
        .build()
        .map_err(|e| e.to_string())
}

/// `Regex::is_match`: a function of the pattern and the text.
#[verifier::external_body]
pub(crate) fn is_match(regex: &regex::Regex, text: &str) -> (r: bool)
    ensures
        r == regex_matches(regex_origin(*regex).source, regex_origin(*regex).ignore_case, text@),
{
    regex.is_match(text)
}

/// `Regex::replace_all` with a replacement text: a function of the pattern, the
/// text and the replacement.
#[verifier::external_body]
pub(crate) fn replace_all(regex: &regex::Regex, text: &str, with: &str) -> (r: String)
    ensures
        r@ == regex_replaced(
            regex_origin(*regex).source,
            regex_origin(*regex).ignore_case,
            text@,
            with@,
        ),
{
    regex.replace_all(text, with).into_owned()
}

/// `Regex::find_iter`: the texts of the matches, a function of the pattern and
/// the text.
#[verifier::external_body]
pub(crate) fn find_matches(regex: &regex::Regex, text: &str) -> (r: Vec<String>)
    ensures
        views(r@) == regex_found(
            regex_origin(*regex).source,
            regex_origin(*regex).ignore_case,
            text@,
        ),
{
    regex.find_iter(text).map(|m| m.as_str().to_string()).collect()
}

/// `Regex::captures_iter`: the matches with their groups, a function of the
/// pattern and the text.
#[verifier::external_body]
pub(crate) fn find_captures(regex: &regex::Regex, text: &str) -> (r: Vec<Capture>)
    ensures
        views(r@) == regex_captured(
            regex_origin(*regex).source,
            regex_origin(*regex).ignore_case,
            text@,
        ),
{
    regex.captures_iter(text)
        .map(|c| Capture {
            start: c.get_match().start(),
            groups: c.iter().map(|g| g.map(|m| m.as_str().to_string())).collect(),
        })
        .collect()
}

/// A regular expression that was compiled.
pub struct Pattern {
    regex: regex::Regex,
}

impl View for Pattern {
    type V = PatternView;

    closed spec fn view(&self) -> PatternView {
        regex_origin(self.regex)
    }
}

impl PatternView {
    /// Whether the pattern matches anywhere in a text.
    pub open spec fn matches(self, text: Seq<char>) -> bool {
        regex_matches(self.source, self.ignore_case, text)
    }

    /// A text with every match replaced.
    pub open spec fn replaced(self, text: Seq<char>, with: Seq<char>) -> Seq<char> {
        regex_replaced(self.source, self.ignore_case, text, with)
    }

    /// The matches in a text.
    pub open spec fn found(self, text: Seq<char>) -> Seq<Seq<char>> {
        regex_found(self.source, self.ignore_case, text)
    }

    /// The matches in a text, with their groups.
    pub open spec fn captured(self, text: Seq<char>) -> Seq<CaptureView> {
        regex_captured(self.source, self.ignore_case, text)
    }
}

/// The pattern that a text writes, or why it is none.
pub open spec fn compiled(source: Seq<char>, ignore_case: bool, size_limit: nat) -> Result<
    PatternView,
    Seq<char>,
> {
    match regex_refusal(source, ignore_case, size_limit, usize::BITS as nat) {
        Some(message) => Err(message),
        None => Ok(PatternView { source, ignore_case }),
    }
}

/// The outcome of compiling a pattern.
pub open spec fn compile_result(r: Result<Pattern, String>) -> Result<PatternView, Seq<char>> {
    match r {
        Ok(pattern) => Ok(pattern@),
        Err(message) => Err(message@),
    }
}

impl Pattern {
    /// Compiles a regular expression, up to a limit on its compiled size.
    pub fn new(source: &str, ignore_case: bool, size_limit: usize) -> (r: Result<Pattern, String>)
        ensures
            compile_result(r) == compiled(source@, ignore_case, size_limit as nat),
    {
        match build_regex(source, ignore_case, size_limit) {
            Ok(regex) => Ok(Pattern { regex }),
            Err(message) => Err(message),
        }
    }

    /// Whether the pattern matches anywhere in a text.
    pub fn matches(&self, text: &str) -> (r: bool)
        ensures
            r == self@.matches(text@),
    {
        is_match(&self.regex, text)
    }

    /// A text with every match replaced.
    pub fn replace(&self, text: &str, with: &str) -> (r: String)
        ensures
            r@ == self@.replaced(text@, with@),
    {
        replace_all(&self.regex, text, with)
    }

    /// The matches in a text.
    pub fn find(&self, text: &str) -> (r: Vec<String>)
        ensures
            views(r@) == self@.found(text@),
    {
        find_matches(&self.regex, text)
    }

    /// The matches in a text, with their groups.
    pub fn captures(&self, text: &str) -> (r: Vec<Capture>)
        ensures
            views(r@) == self@.captured(text@),
    {
        find_captures(&self.regex, text)
    }
}

} // verus!
