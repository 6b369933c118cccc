//! Backends: the three places a tool call can be served from.
//!
//! * [`native`]  — Rust code in this binary, microsecond latency.
//! * [`sidecar`] — a supervised child process speaking MCP over stdio.
//! * [`proxy`]   — a remote MCP server over HTTP.
//!
//! The router treats all three uniformly and routes by an explicit tool-name
//! table, so that a call reaches only the backend that owns the tool.

pub mod headers;
pub mod native;
pub mod proxy;
pub mod sidecar;

use vstd::prelude::*;

use crate::text::{
    begins, byte_count, byte_len, cat2, char_byte_count, char_len, chars_of, cut_prefix,
    lemma_byte_len_push, opt_view, slice_text, starts_with, trim, trimmed, without_prefix,
};

verus! {

/// What kind of backend it is, for `omni_status`.
#[derive(Debug, Clone, Copy, PartialEq, Eq)]
pub enum BackendKind {
    Native,
    Sidecar,
    Proxy,
}

impl BackendKind {
    /// The word for the kind.
    pub open spec fn spec_label(self) -> Seq<char> {
        match self {
            BackendKind::Native => "native"@,
            BackendKind::Sidecar => "sidecar"@,
            BackendKind::Proxy => "proxy"@,
        }
    }

    /// The word for the kind.
    pub fn label(self) -> (r: &'static str)
        ensures
            r@ == self.spec_label(),
    {
        match self {
            BackendKind::Native => "native",
            BackendKind::Sidecar => "sidecar",
            BackendKind::Proxy => "proxy",
        }
    }
}

/// How a backend is doing.
#[derive(Debug, PartialEq, Eq)]
pub enum BackendStatus {
    /// Ready to serve calls.
    Ready,
    /// Configured but not yet contacted; will start on first use.
    Idle,
    /// Last interaction failed.
    Failed(String),
    /// Turned off in configuration.
    Disabled,
}

/// What a [`BackendStatus`] says.
pub enum BackendStatusView {
    Ready,
    Idle,
    Failed(Seq<char>),
    Disabled,
}

impl View for BackendStatus {
    type V = BackendStatusView;

    open spec fn view(&self) -> BackendStatusView {
        match self {
            BackendStatus::Ready => BackendStatusView::Ready,
            BackendStatus::Idle => BackendStatusView::Idle,
            BackendStatus::Failed(reason) => BackendStatusView::Failed(reason@),
            BackendStatus::Disabled => BackendStatusView::Disabled,
        }
    }
}

impl BackendStatusView {
    /// The status for a reader.
    pub open spec fn label(self) -> Seq<char> {
        match self {
            BackendStatusView::Ready => "ready"@,
            BackendStatusView::Idle => "idle (lazy)"@,
            BackendStatusView::Failed(reason) => reason,
            BackendStatusView::Disabled => "disabled"@,
        }
    }
}

impl BackendStatus {
    /// The status for a reader.
    pub fn label(&self) -> (r: &str)
        ensures
            r@ == self@.label(),
    {
        match self {
            BackendStatus::Ready => "ready",
            BackendStatus::Idle => "idle (lazy)",
            BackendStatus::Failed(reason) => reason.as_str(),
            BackendStatus::Disabled => "disabled",
        }
    }
}

/// What the gateway knows of a backend without asking it.
#[derive(Debug, PartialEq, Eq)]
pub struct BackendInfo {
    /// Stable identifier, used in diagnostics and the routing table.
    pub name: String,
    /// What kind of backend this is.
    pub kind: BackendKind,
    /// Prefix applied to this backend's tool names to keep them unique.
    pub prefix: Option<String>,
}

/// What a [`BackendInfo`] says.
pub struct BackendInfoView {
    pub name: Seq<char>,
    pub kind: BackendKind,
    pub prefix: Option<Seq<char>>,
}

impl View for BackendInfo {
    type V = BackendInfoView;

    open spec fn view(&self) -> BackendInfoView {
        BackendInfoView { name: self.name@, kind: self.kind, prefix: opt_view(self.prefix) }
    }
}

impl BackendInfo {
    /// A copy.
    pub fn dup(&self) -> (r: BackendInfo)
        ensures
            r@ == self@,
    {
        BackendInfo {
            name: self.name.clone(),
            kind: self.kind,
            prefix: match &self.prefix {
                Some(prefix) => Some(prefix.clone()),
                None => None,
            },
        }
    }
}

/// How many bytes of a backend's output a message quotes.
pub const SNIPPET_LIMIT: usize = 400;

/// How many characters from the front of `s` fit in `limit` bytes.
pub open spec fn fitting(s: Seq<char>, limit: int) -> int
    decreases s.len(),
{
    if s.len() == 0 || char_len(s[0]) > limit {
        0
    } else {
        1 + fitting(s.drop_first(), limit - char_len(s[0]))
    }
}

/// What a message quotes of a text: all of it where it is short, else as many
/// whole characters as fit, and an ellipsis.
pub open spec fn snippet_view(text: Seq<char>) -> Seq<char> {
    let t = trimmed(text);
    if byte_len(t) <= SNIPPET_LIMIT {
        t
    } else {
        t.take(fitting(t, SNIPPET_LIMIT as int)) + "…"@
    }
}

/// The characters that fit take up no more than the limit, and one more would.
pub proof fn lemma_fitting(s: Seq<char>, limit: int)
    requires
        0 <= limit,
    ensures
        0 <= fitting(s, limit) <= s.len(),
        byte_len(s.take(fitting(s, limit))) <= limit,
        fitting(s, limit) < s.len() ==> byte_len(s.take(fitting(s, limit) + 1)) > limit,
    decreases s.len(),
{
    if s.len() == 0 || char_len(s[0]) > limit {
        assert(s.take(0) =~= seq![]);
        if s.len() > 0 {
            assert(s.take(1) =~= Seq::<char>::empty().push(s[0]));
            lemma_byte_len_push(seq![], s[0]);
        }
    } else {
        let rest = s.drop_first();
        let n = fitting(rest, limit - char_len(s[0]));
        lemma_fitting(rest, limit - char_len(s[0]));
        crate::text::lemma_encode_concat(seq![s[0]], rest.take(n));
        assert(seq![s[0]] + rest.take(n) =~= s.take(n + 1));
        lemma_byte_len_push(seq![], s[0]);
        assert(Seq::<char>::empty().push(s[0]) =~= seq![s[0]]);
        if n < rest.len() {
            crate::text::lemma_encode_concat(seq![s[0]], rest.take(n + 1));
            assert(seq![s[0]] + rest.take(n + 1) =~= s.take(n + 2));
        }
    }
}

/// Shortens untrusted backend output for log lines and error messages, without
/// splitting a multi-byte character.
pub fn snippet(text: &str) -> (r: String)
    ensures
        r@ == snippet_view(text@),
{
    let t = trim(text);
    if byte_count(&t) <= SNIPPET_LIMIT {
        return t;
    }
    let chars = chars_of(&t);
    let mut used: usize = 0;
    let mut n: usize = 0;
    assert(chars@.skip(0) =~= chars@);
    while n < chars.len() && char_byte_count(chars[n]) <= SNIPPET_LIMIT - used
        invariant
            used <= SNIPPET_LIMIT,
            0 <= n <= chars@.len(),
            fitting(chars@, SNIPPET_LIMIT as int) == n + fitting(
                chars@.skip(n as int),
                SNIPPET_LIMIT - used,
            ),
        decreases chars@.len() - n,
    {
        assert(chars@.skip(n as int).drop_first() =~= chars@.skip(n + 1));
        used += char_byte_count(chars[n]);
        n += 1;
    }
    assert(chars@.subrange(0, n as int) =~= chars@.take(n as int));
    cat2(&slice_text(&chars, 0, n), "…")
}

/// A message never quotes more than the limit and the ellipsis, and what it
/// quotes is the front of the text.
pub proof fn lemma_snippet_is_bounded(text: Seq<char>)
    ensures
        byte_len(snippet_view(text)) <= SNIPPET_LIMIT + byte_len("…"@),
        byte_len(trimmed(text)) <= SNIPPET_LIMIT ==> snippet_view(text) == trimmed(text),
        exists|n: int|
            0 <= n <= trimmed(text).len() && (snippet_view(text) == #[trigger] trimmed(text).take(
                n,
            ) || snippet_view(text) == trimmed(text).take(n) + "…"@),
{
    let t = trimmed(text);
    let n = fitting(t, SNIPPET_LIMIT as int);
    lemma_fitting(t, SNIPPET_LIMIT as int);
    crate::text::lemma_encode_concat(t.take(n), "…"@);
    if byte_len(t) <= SNIPPET_LIMIT {
        assert(t.take(t.len() as int) =~= t);
    }
}

/// The name under which a backend's tool is advertised.
pub open spec fn prefixed(prefix: Option<Seq<char>>, name: Seq<char>) -> Seq<char> {
    match prefix {
        Some(p) => if p.len() > 0 && !starts_with(name, p) {
            p + name
        } else {
            name
        },
        None => name,
    }
}

/// The backend's own name of a tool that is advertised as `name`.
pub open spec fn unprefixed(prefix: Option<Seq<char>>, name: Seq<char>) -> Seq<char> {
    match prefix {
        Some(p) => match without_prefix(name, p) {
            Some(rest) => if p.len() > 0 {
                rest
            } else {
                name
            },
            None => name,
        },
        None => name,
    }
}

/// Applies a backend's namespace prefix to a tool name.
pub fn apply_prefix(prefix: Option<&str>, name: &str) -> (r: String)
    ensures
        r@ == prefixed(
            match prefix {
                Some(p) => Some(p@),
                None => None,
            },
            name@,
        ),
{
    match prefix {
        Some(p) => if !p.is_empty() && !begins(name, p) {
            cat2(p, name)
        } else {
            name.to_owned()
        },
        None => name.to_owned(),
    }
}

/// Removes a backend's namespace prefix to recover the backend-local name.
pub fn strip_prefix(prefix: Option<&str>, name: &str) -> (r: String)
    ensures
        r@ == unprefixed(
            match prefix {
                Some(p) => Some(p@),
                None => None,
            },
            name@,
        ),
{
    match prefix {
        Some(p) => if !p.is_empty() {
            match cut_prefix(name, p) {
                Some(rest) => rest,
                None => name.to_owned(),
            }
        } else {
            name.to_owned()
        },
        None => name.to_owned(),
    }
}

/// Removing a prefix gives back the name it was applied to, as long as the
/// name did not begin with the prefix on its own.
pub proof fn lemma_prefix_round_trip(prefix: Option<Seq<char>>, name: Seq<char>)
    requires
        prefix matches Some(p) ==> p.len() > 0 ==> !starts_with(name, p),
    ensures
        unprefixed(prefix, prefixed(prefix, name)) == name,
{
    if let Some(p) = prefix {
        if p.len() > 0 {
            let whole = p + name;
            assert(whole.subrange(0, p.len() as int) =~= p);
            assert(whole.subrange(p.len() as int, whole.len() as int) =~= name);
        }
    }
}

/// Applying a prefix twice is applying it once.
pub proof fn lemma_prefix_is_not_doubled(prefix: Option<Seq<char>>, name: Seq<char>)
    ensures
        prefixed(prefix, prefixed(prefix, name)) == prefixed(prefix, name),
        prefix matches Some(p) ==> starts_with(prefixed(prefix, name), p),
{
    if let Some(p) = prefix {
        assert((p + name).subrange(0, p.len() as int) =~= p);
        assert(name.subrange(0, 0) =~= seq![]);
        if p.len() == 0 {
            assert(p =~= seq![]);
        }
    }
}

/// With a prefix, two names that do not begin with it stay different.
pub proof fn lemma_prefix_is_injective(prefix: Option<Seq<char>>, a: Seq<char>, b: Seq<char>)
    requires
        prefix matches Some(p) ==> !starts_with(a, p) && !starts_with(b, p),
        prefixed(prefix, a) == prefixed(prefix, b),
    ensures
        a == b,
{
    lemma_prefix_round_trip(prefix, a);
    lemma_prefix_round_trip(prefix, b);
}

/// Every kind and every state has a word of its own; a failure says why.
pub proof fn lemma_labels(a: BackendKind, b: BackendKind, reason: Seq<char>)
    ensures
        a.spec_label() == b.spec_label() ==> a == b,
        BackendKind::Native.spec_label() == "native"@,
        BackendKind::Sidecar.spec_label() == "sidecar"@,
        BackendKind::Proxy.spec_label() == "proxy"@,
        BackendStatusView::Failed(reason).label() == reason,
        BackendStatusView::Ready.label() != BackendStatusView::Idle.label(),
        BackendStatusView::Ready.label() != BackendStatusView::Disabled.label(),
        BackendStatusView::Idle.label() != BackendStatusView::Disabled.label(),
{
    reveal_strlit("native");
    reveal_strlit("sidecar");
    reveal_strlit("proxy");
    reveal_strlit("ready");
    reveal_strlit("idle (lazy)");
    reveal_strlit("disabled");
    assert("native"@.len() == 6);
    assert("sidecar"@.len() == 7);
    assert("proxy"@.len() == 5);
    assert("ready"@.len() == 5);
    assert("idle (lazy)"@.len() == 11);
    assert("disabled"@.len() == 8);
    assert("proxy"@[0] == 'p');
    assert("ready"@[0] == 'r');
}

} // verus!
