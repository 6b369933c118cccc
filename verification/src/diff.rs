//! Line diffs, computed by the `similar` crate.

use vstd::prelude::*;

use crate::text::views;

verus! {

/// What happened to a line.
#[derive(Debug, Clone, Copy, PartialEq, Eq, Structural)]
pub enum DiffTag {
    Equal,
    Delete,
    Insert,
}

/// One line of a diff, with its terminator where it has one.
pub struct LineChange {
    pub tag: DiffTag,
    pub value: String,
}

/// What a [`LineChange`] says.
pub struct LineChangeView {
    pub tag: DiffTag,
    pub value: Seq<char>,
}

impl View for LineChange {
    type V = LineChangeView;

    open spec fn view(&self) -> LineChangeView {
        LineChangeView { tag: self.tag, value: self.value@ }
    }
}

/// A run of lines that stayed, went or came, with the ranges it covers on both
/// sides.
pub struct LineOp {
    pub old_start: usize,
    pub old_end: usize,
    pub new_start: usize,
    pub new_end: usize,
    pub changes: Vec<LineChange>,
}

/// What a [`LineOp`] says.
pub struct LineOpView {
    pub old_start: int,
    pub old_end: int,
    pub new_start: int,
    pub new_end: int,
    pub changes: Seq<LineChangeView>,
}

impl View for LineOp {
    type V = LineOpView;

    open spec fn view(&self) -> LineOpView {
        LineOpView {
            old_start: self.old_start as int,
            old_end: self.old_end as int,
            new_start: self.new_start as int,
            new_end: self.new_end as int,
            changes: views(self.changes@),
        }
    }
}

/// Runs of lines that stand together.
pub open spec fn group_views(groups: Seq<Vec<LineOp>>) -> Seq<Seq<LineOpView>> {
    groups.map_values(|g: Vec<LineOp>| views(g@))
}

/// The changed places between two texts, each with up to `context` unchanged
/// lines around it.
pub uninterp spec fn diff_groups(
    before: Seq<char>,
    after: Seq<char>,
    context: nat,
) -> Seq<Seq<LineOpView>>;

/// Every line of two texts with what happened to it.
pub uninterp spec fn diff_lines(before: Seq<char>, after: Seq<char>) -> Seq<LineChangeView>;

/// `TextDiff::from_lines` with `grouped_ops` and `iter_changes`: the runs of
/// lines of every changed place, a function of the two texts and the number of
/// lines around it. There is no such place exactly where the texts are the same.
#[verifier::external_body]
pub(crate) fn grouped_lines(before: &str, after: &str, context: usize) -> (r: Vec<Vec<LineOp>>)
    requires
        context <= 1_000_000,
    ensures
        group_views(r@) == diff_groups(before@, after@, context as nat),
        r@.len() == 0 <==> before@ == after@,
{
    let diff = similar::TextDiff::from_lines(before, after);
    let change = |c: similar::Change<&str>| LineChange {
        tag: match c.tag() {
            similar::ChangeTag::Equal => DiffTag::Equal,
            similar::ChangeTag::Delete => DiffTag::Delete,
            similar::ChangeTag::Insert => DiffTag::Insert,
        }, value: c.value().to_string() };
    diff.grouped_ops(context).iter().map(|group| group.iter().map(|op| LineOp {
        old_start: op.old_range().start, old_end: op.old_range().end,
        new_start: op.new_range().start, new_end: op.new_range().end,
        changes: diff.iter_changes(op).map(change).collect(),
    }).collect()).collect()
}

/// `TextDiff::from_lines` with `iter_all_changes`: every line with its tag, as
/// `Display` of a change writes it, which ends one that has no terminator. A
/// function of the two texts.
#[verifier::external_body]
pub(crate) fn all_lines(before: &str, after: &str) -> (r: Vec<LineChange>)
    ensures
        views(r@) == diff_lines(before@, after@),
{
    similar::TextDiff::from_lines(before, after).iter_all_changes().map(|c| LineChange {
        tag: match c.tag() {
            similar::ChangeTag::Equal => DiffTag::Equal,
            similar::ChangeTag::Delete => DiffTag::Delete,
            similar::ChangeTag::Insert => DiffTag::Insert,
        },
        value: c.to_string(),
    }).collect()
}

} // verus!
