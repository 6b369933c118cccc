//! Execution context shared by the native tools: policy checks and path
//! sandboxing.
//!
//! Running code, rewriting files and reaching other hosts are gated on explicit
//! configuration, and filesystem tools are confined to `tools.allowed_roots`.

use vstd::prelude::*;

use super::path::{
    below, components, graft, is_absolute, is_absolute_path, lemma_below, path_starts_with,
    starts_with_path, tail_segments,
};
use crate::config::model::{ToolPolicy, ToolPolicyView};
use crate::error::{tool_result, ToolError, ToolErrorView, ToolResult};
use crate::text::{
    blank, cat3, contains, debug, debug_text, is_blank, lemma_contains, opt_view, views,
};

verus! {

/// The policy, and the roots it names with their links resolved.
pub struct ToolContext {
    policy: ToolPolicy,
    canonical_roots: Vec<String>,
}

/// What a [`ToolContext`] holds.
pub struct ToolContextView {
    pub policy: ToolPolicyView,
    pub roots: Seq<Seq<char>>,
}

impl View for ToolContext {
    type V = ToolContextView;

    closed spec fn view(&self) -> ToolContextView {
        ToolContextView { policy: self.policy@, roots: views(self.canonical_roots@) }
    }
}

/// Each root, with its links resolved where the filesystem could resolve them.
pub open spec fn resolved_roots(
    roots: Seq<Seq<char>>,
    canonical: Seq<Option<Seq<char>>>,
) -> Seq<Seq<char>> {
    Seq::new(
        roots.len(),
        |i: int|
            if i < canonical.len() && canonical[i] is Some {
                canonical[i]->0
            } else {
                roots[i]
            },
    )
}

/// The message for code execution that is not allowed.
pub const CODE_EXECUTION_DENIED: &'static str = "code execution is disabled; set `allow_code_execution = true` under [tools] in omni-mcp.toml to enable it";

/// The message for SSH that is not allowed.
pub const SSH_DENIED: &'static str = "ssh access is disabled; set `allow_ssh = true` under [tools] in omni-mcp.toml to enable it";

/// The message for a file change that is not allowed.
pub const FILE_MUTATION_DENIED: &'static str = "this tool modifies files, which is disabled; set `allow_file_mutation = true` under [tools] in omni-mcp.toml to enable it";

/// What a policy switch says to a caller.
pub open spec fn gate(allowed: bool, message: Seq<char>) -> Result<(), ToolErrorView> {
    if allowed {
        Ok(())
    } else {
        Err(ToolErrorView::Denied(message))
    }
}

/// What the filesystem says of a path.
pub enum OnDisk {
    /// It exists, and with its links resolved it is this.
    Found(String),
    /// It does not exist. Its dots collapsed, all but its last `missing` segments
    /// do, and with the links in them resolved they are `ancestor`.
    Missing { ancestor: String, missing: usize },
    /// It, or what of it exists, cannot be resolved to a text: its name is none, or
    /// a link on the way leads nowhere.
    Unreadable,
}

/// What an [`OnDisk`] says.
pub enum OnDiskView {
    Found(Seq<char>),
    Missing { ancestor: Seq<char>, missing: int },
    Unreadable,
}

impl View for OnDisk {
    type V = OnDiskView;

    open spec fn view(&self) -> OnDiskView {
        match self {
            OnDisk::Found(path) => OnDiskView::Found(path@),
            OnDisk::Missing { ancestor, missing } => OnDiskView::Missing {
                ancestor: ancestor@,
                missing: *missing as int,
            },
            OnDisk::Unreadable => OnDiskView::Unreadable,
        }
    }
}

/// The path that a caller means, with all its links resolved. Of one that does not
/// exist, what is missing is put under what exists, so that naming a new file
/// works.
pub open spec fn meant_path(raw: Seq<char>, disk: OnDiskView) -> Option<Seq<char>> {
    match disk {
        OnDiskView::Found(path) => Some(path),
        OnDiskView::Missing { ancestor, missing } => Some(
            below(ancestor, tail_segments(raw, missing)),
        ),
        OnDiskView::Unreadable => None,
    }
}

/// Whether a path is under one of the roots.
pub open spec fn under_roots(roots: Seq<Seq<char>>, path: Seq<char>) -> bool {
    exists|i: int| 0 <= i < roots.len() && path_starts_with(path, #[trigger] roots[i])
}

/// What a caller gets for a path: nothing outside the roots, where there are
/// any.
pub open spec fn resolved_path(
    roots: Seq<Seq<char>>,
    raw: Seq<char>,
    disk: OnDiskView,
) -> Result<Seq<char>, ToolErrorView> {
    let path = meant_path(raw, disk);
    if is_blank(raw) {
        Err(ToolErrorView::InvalidArguments("path must not be empty"@))
    } else if !is_absolute_path(raw) {
        Err(
            ToolErrorView::InvalidArguments(
                "path "@ + debug_text(raw)
                    + " must be absolute; the gateway has no meaningful working directory"@,
            ),
        )
    } else if roots.len() == 0 {
        Ok(
            match path {
                Some(path) => path,
                None => raw,
            },
        )
    } else if path is Some && under_roots(roots, path->0) {
        Ok(path->0)
    } else {
        Err(
            ToolErrorView::Denied(
                "path "@ + debug_text(raw) + " is outside the configured tools.allowed_roots"@,
            ),
        )
    }
}

impl ToolContext {
    /// The context of a policy. `canonical` says, root by root, what the
    /// filesystem resolves it to; roots are resolved once so that symlinked
    /// roots still match.
    pub fn new(policy: ToolPolicy, canonical: &Vec<Option<String>>) -> (r: ToolContext)
        ensures
            r@.policy == policy@,
            r@.roots == resolved_roots(
                policy@.allowed_roots,
                canonical@.map_values(|c: Option<String>| opt_view(c)),
            ),
    {
        let mut roots: Vec<String> = Vec::new();
        let ghost known = canonical@.map_values(|c: Option<String>| opt_view(c));
        let ghost wanted = resolved_roots(policy@.allowed_roots, known);
        let mut i: usize = 0;
        while i < policy.allowed_roots.len()
            invariant
                0 <= i <= policy.allowed_roots@.len(),
                roots@.len() == i,
                known == canonical@.map_values(|c: Option<String>| opt_view(c)),
                wanted == resolved_roots(policy@.allowed_roots, known),
                forall|k: int| 0 <= k < i ==> (#[trigger] roots@[k])@ == wanted[k],
            decreases policy.allowed_roots@.len() - i,
        {
            let own: &String = &policy.allowed_roots[i];
            assert(policy@.allowed_roots[i as int] == own@);
            if i < canonical.len() {
                assert(known[i as int] == opt_view(canonical@[i as int]));
                match &canonical[i] {
                    Some(path) => {
                        roots.push(path.clone());
                    },
                    None => {
                        roots.push(own.clone());
                    },
                }
            } else {
                roots.push(own.clone());
            }
            i += 1;
        }
        assert(views(roots@) =~= wanted);
        ToolContext { policy, canonical_roots: roots }
    }

    /// The policy.
    pub fn policy(&self) -> (r: &ToolPolicy)
        ensures
            r@ == self@.policy,
    {
        &self.policy
    }

    /// How much of a file the filesystem tools will read.
    pub fn max_file_bytes(&self) -> (r: u64)
        ensures
            r == self@.policy.max_file_bytes,
    {
        self.policy.max_file_bytes
    }

    /// Fails unless `tools.allow_code_execution` is set.
    pub fn require_code_execution(&self) -> (r: ToolResult<()>)
        ensures
            tool_result(r) == gate(self@.policy.allow_code_execution, CODE_EXECUTION_DENIED@),
    {
        if self.policy.allow_code_execution {
            return Ok(());
        }
        Err(ToolError::Denied(CODE_EXECUTION_DENIED.to_owned()))
    }

    /// Fails unless `tools.allow_ssh` is set.
    pub fn require_ssh(&self) -> (r: ToolResult<()>)
        ensures
            tool_result(r) == gate(self@.policy.allow_ssh, SSH_DENIED@),
    {
        if self.policy.allow_ssh {
            return Ok(());
        }
        Err(ToolError::Denied(SSH_DENIED.to_owned()))
    }

    /// Fails unless `tools.allow_file_mutation` is set.
    pub fn require_file_mutation(&self) -> (r: ToolResult<()>)
        ensures
            tool_result(r) == gate(self@.policy.allow_file_mutation, FILE_MUTATION_DENIED@),
    {
        if self.policy.allow_file_mutation {
            return Ok(());
        }
        Err(ToolError::Denied(FILE_MUTATION_DENIED.to_owned()))
    }

    /// Resolves a caller-supplied path and rejects anything outside
    /// `allowed_roots`. With no roots configured, any path is permitted. `disk` is
    /// what the filesystem says of the path, so that symlinks cannot escape a root,
    /// not even those on the way to a file that does not exist yet.
    pub fn resolve(&self, raw: &str, disk: OnDisk) -> (r: ToolResult<String>)
        ensures
            tool_result(r) == resolved_path(self@.roots, raw@, disk@),
    {
        if blank(raw) {
            return Err(ToolError::InvalidArguments("path must not be empty".to_owned()));
        }
        if !is_absolute(raw) {
            return Err(
                ToolError::InvalidArguments(
                    cat3(
                        "path ",
                        &debug(raw),
                        " must be absolute; the gateway has no meaningful working directory",
                    ),
                ),
            );
        }
        let denied = ToolError::Denied(
            cat3("path ", &debug(raw), " is outside the configured tools.allowed_roots"),
        );
        let resolved = match disk {
            OnDisk::Found(path) => path,
            OnDisk::Missing { ancestor, missing } => graft(&ancestor, raw, missing),
            OnDisk::Unreadable => {
                if self.canonical_roots.len() == 0 {
                    return Ok(raw.to_owned());
                }
                return Err(denied);
            },
        };
        if self.canonical_roots.len() == 0 {
            return Ok(resolved);
        }
        let ghost roots = views(self.canonical_roots@);
        let mut i: usize = 0;
        while i < self.canonical_roots.len()
            invariant
                0 <= i <= self.canonical_roots@.len(),
                roots == views(self.canonical_roots@),
                roots == self@.roots,
                roots.len() > 0,
                !is_blank(raw@),
                is_absolute_path(raw@),
                meant_path(raw@, disk@) == Some(resolved@),
                forall|k: int| 0 <= k < i ==> !path_starts_with(resolved@, #[trigger] roots[k]),
            decreases self.canonical_roots@.len() - i,
        {
            assert(roots[i as int] == self.canonical_roots@[i as int]@);
            if starts_with_path(&resolved, &self.canonical_roots[i]) {
                return Ok(resolved);
            }
            i += 1;
        }
        Err(denied)
    }
}

/// Nothing that a tool is given lies outside the roots, where there are any. A file
/// that does not exist yet is given by where it will be once every link on the way
/// is followed: under what exists, with no `..` by which it could leave that.
pub proof fn lemma_paths_stay_under_the_roots(
    roots: Seq<Seq<char>>,
    raw: Seq<char>,
    disk: OnDiskView,
)
    requires
        resolved_path(roots, raw, disk) is Ok,
    ensures
        roots.len() > 0 ==> meant_path(raw, disk) == Some(resolved_path(roots, raw, disk)->Ok_0)
            && under_roots(roots, resolved_path(roots, raw, disk)->Ok_0),
        disk matches OnDiskView::Missing { ancestor, missing } ==> (is_absolute_path(ancestor)
            ==> components(resolved_path(roots, raw, disk)->Ok_0) == components(ancestor)
            + tail_segments(raw, missing) && !tail_segments(raw, missing).contains(".."@)),
{
    match disk {
        OnDiskView::Missing { ancestor, missing } => if is_absolute_path(ancestor) {
            lemma_below(ancestor, raw, missing);
        },
        _ => {},
    }
}

/// A path that leads out of every root, through whatever links, is denied: an
/// existing one by what it resolves to, a new one by where it would be made.
pub proof fn lemma_links_cannot_escape(
    roots: Seq<Seq<char>>,
    raw: Seq<char>,
    disk: OnDiskView,
)
    requires
        roots.len() > 0,
        is_absolute_path(raw),
        !is_blank(raw),
        meant_path(raw, disk) matches Some(path) ==> !under_roots(roots, path),
    ensures
        resolved_path(roots, raw, disk) matches Err(err) && err is Denied,
{
}

/// With no roots configured every absolute path is permitted.
pub proof fn lemma_no_roots_no_limits(raw: Seq<char>, disk: OnDiskView)
    requires
        is_absolute_path(raw),
        !is_blank(raw),
    ensures
        resolved_path(seq![], raw, disk) is Ok,
        meant_path(raw, disk) matches Some(path) ==> resolved_path(seq![], raw, disk) == Ok::<
            Seq<char>,
            ToolErrorView,
        >(path),
{
}

/// Dangerous capabilities are denied unless the configuration turns them on.
pub proof fn lemma_denied_by_default()
    ensures
        gate(
            ToolPolicyView::default_view().allow_code_execution,
            CODE_EXECUTION_DENIED@,
        ) is Err,
        gate(ToolPolicyView::default_view().allow_ssh, SSH_DENIED@) is Err,
        gate(
            ToolPolicyView::default_view().allow_file_mutation,
            FILE_MUTATION_DENIED@,
        ) is Err,
{
}

/// A path that is there is taken as where its links lead, if that is under one of the
/// roots, and is denied if it is not; a path that is blank or not absolute is refused,
/// whatever the roots are.
pub proof fn lemma_paths_are_resolved(roots: Seq<Seq<char>>, raw: Seq<char>, disk: OnDiskView)
    ensures
        is_blank(raw) || !is_absolute_path(raw) ==> (resolved_path(roots, raw, disk) matches Err(
            err,
        ) && err is InvalidArguments),
        !is_blank(raw) && is_absolute_path(raw) ==> (disk matches OnDiskView::Found(path) ==> if (
        roots.len() == 0 || exists|i: int|
            0 <= i < roots.len() && path_starts_with(path, #[trigger] roots[i])) {
            resolved_path(roots, raw, disk) == Ok::<Seq<char>, ToolErrorView>(path)
        } else {
            resolved_path(roots, raw, disk) matches Err(err) && err is Denied
        }),
        !is_blank(raw) && is_absolute_path(raw) && disk is Unreadable ==> if roots.len() == 0 {
            resolved_path(roots, raw, disk) == Ok::<Seq<char>, ToolErrorView>(raw)
        } else {
            resolved_path(roots, raw, disk) matches Err(err) && err is Denied
        },
{
}

/// A root counts as where its links lead, and as it is written where that is not
/// known.
pub proof fn lemma_roots_are_resolved(
    roots: Seq<Seq<char>>,
    canonical: Seq<Option<Seq<char>>>,
    i: int,
)
    requires
        0 <= i < roots.len(),
    ensures
        resolved_roots(roots, canonical).len() == roots.len(),
        i < canonical.len() ==> (canonical[i] matches Some(path) ==> resolved_roots(
            roots,
            canonical,
        )[i] == path),
        i >= canonical.len() || canonical[i] is None ==> resolved_roots(roots, canonical)[i]
            == roots[i],
{
}

/// What is allowed goes through, and what is not is denied with the reason.
pub proof fn lemma_gates(message: Seq<char>)
    ensures
        gate(true, message) == Ok::<(), ToolErrorView>(()),
        gate(false, message) == Err::<(), ToolErrorView>(ToolErrorView::Denied(message)),
{
}

/// A refusal names the path.
pub proof fn lemma_refusals_name_the_path(roots: Seq<Seq<char>>, raw: Seq<char>, disk: OnDiskView)
    requires
        !is_blank(raw),
    ensures
        resolved_path(roots, raw, disk) matches Err(err) ==> contains(
            err.message(),
            debug_text(raw),
        ),
{
    lemma_contains(
        "path "@,
        debug_text(raw),
        " must be absolute; the gateway has no meaningful working directory"@,
    );
    lemma_contains(
        "path "@,
        debug_text(raw),
        " is outside the configured tools.allowed_roots"@,
    );
}

} // verus!
