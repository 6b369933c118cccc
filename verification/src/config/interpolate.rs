//! `${VAR}` expansion, so secrets never have to be written into the config file.
//!
//! ```toml
//! bearer = "${HOME_ASSISTANT_TOKEN}"
//! url    = "${OMNI_ROUTE_URL:-http://127.0.0.1:20128/api/mcp}"
//! ```

use vstd::prelude::*;

use super::toml_value::{
    lemma_toml_entries_view, lemma_toml_items_view, toml_entries_view, toml_items_view, toml_view,
    TomlValue, TomlView,
};
use crate::error::{config_result, ConfigError, ConfigErrorView};
use crate::text::{
    chars_of, find, find_from, lemma_find_from, occurs_at, same, slice_text, trim, trimmed,
};

verus! {

/// The variables that placeholders may refer to.
#[derive(Debug, PartialEq)]
pub struct Environment {
    pub vars: Vec<(String, String)>,
}

/// The value of the first variable called `name`.
pub open spec fn lookup_in(vars: Seq<(String, String)>, name: Seq<char>) -> Option<Seq<char>>
    decreases vars.len(),
{
    if vars.len() == 0 {
        None
    } else if vars[0].0@ == name {
        Some(vars[0].1@)
    } else {
        lookup_in(vars.drop_first(), name)
    }
}

impl Environment {
    /// The value of a variable, where it is set.
    pub open spec fn value(&self, name: Seq<char>) -> Option<Seq<char>> {
        lookup_in(self.vars@, name)
    }

    /// The value of a variable, where it is set.
    pub fn lookup(&self, name: &str) -> (r: Option<&String>)
        ensures
            match r {
                Some(v) => self.value(name@) == Some(v@),
                None => self.value(name@) is None,
            },
    {
        let mut i: usize = 0;
        assert(self.vars@.skip(0) =~= self.vars@);
        while i < self.vars.len()
            invariant
                0 <= i <= self.vars@.len(),
                lookup_in(self.vars@, name@) == lookup_in(self.vars@.skip(i as int), name@),
            decreases self.vars@.len() - i,
        {
            assert(self.vars@.skip(i as int).drop_first() =~= self.vars@.skip(i + 1));
            if same(&self.vars[i].0, name) {
                return Some(&self.vars[i].1);
            }
            i += 1;
        }
        None
    }
}

/// `front` in front of an outcome that is a text.
pub open spec fn prepend(front: Seq<char>, rest: Result<Seq<char>, Seq<char>>) -> Result<
    Seq<char>,
    Seq<char>,
> {
    match rest {
        Ok(text) => Ok(front + text),
        Err(var) => Err(var),
    }
}

/// What stands for a placeholder `NAME` or `NAME:-default`: the variable where
/// it is set, else the default where there is one, else the name is an error.
pub open spec fn placeholder_value(body: Seq<char>, env: Environment) -> Result<
    Seq<char>,
    Seq<char>,
> {
    match find_from(body, ":-"@, 0) {
        Some(k) => match env.value(trimmed(body.subrange(0, k))) {
            Some(value) => Ok(value),
            None => Ok(body.subrange(k + 2, body.len() as int)),
        },
        None => match env.value(trimmed(body)) {
            Some(value) => Ok(value),
            None => Err(trimmed(body)),
        },
    }
}

/// `s` with its placeholders expanded; the name of the first variable that has
/// neither a value nor a default is an error.
pub open spec fn expanded(s: Seq<char>, env: Environment) -> Result<Seq<char>, Seq<char>>
    decreases s.len(),
{
    if s.len() == 0 {
        Ok(s)
    } else if s[0] != '$' {
        prepend(seq![s[0]], expanded(s.skip(1), env))
    } else if s.len() > 1 && s[1] == '$' {
        prepend(seq!['$'], expanded(s.skip(2), env))
    } else if s.len() > 1 && s[1] == '{' {
        match find_from(s, seq!['}'], 2) {
            Some(e) if 2 <= e < s.len() => match placeholder_value(s.subrange(2, e), env) {
                Ok(value) => prepend(value, expanded(s.skip(e + 1), env)),
                Err(var) => Err(var),
            },
            _ => prepend(seq!['$', '{'], expanded(s.skip(2), env)),
        }
    } else {
        prepend(seq!['$'], expanded(s.skip(1), env))
    }
}

/// The outcome of an expansion as the caller sees it.
pub open spec fn expansion(s: Seq<char>, env: Environment) -> Result<
    Seq<char>,
    ConfigErrorView,
> {
    match expanded(s, env) {
        Ok(text) => Ok(text),
        Err(var) => Err(ConfigErrorView::MissingEnv { var }),
    }
}

fn resolve_placeholder(body: &Vec<char>, env: &Environment) -> (r: Result<String, String>)
    ensures
        match r {
            Ok(value) => placeholder_value(body@, *env) == Ok::<Seq<char>, Seq<char>>(value@),
            Err(var) => placeholder_value(body@, *env) == Err::<Seq<char>, Seq<char>>(var@),
        },
{
    let mark = chars_of(":-");
    proof {
        reveal_strlit(":-");
        lemma_find_from(body@, mark@, 0);
    }
    let n: usize = body.len();
    match find(body, &mark, 0) {
        Some(k) => match env.lookup(&trim(&slice_text(body, 0, k))) {
            Some(value) => Ok(value.clone()),
            None => Ok(slice_text(body, k + 2, n)),
        },
        None => {
            let name = trim(&slice_text(body, 0, body.len()));
            assert(body@.subrange(0, body@.len() as int) =~= body@);
            match env.lookup(&name) {
                Some(value) => Ok(value.clone()),
                None => Err(name),
            }
        },
    }
}

/// Expands `${VAR}` and `${VAR:-default}` against the variables of `env`.
///
/// `$$` is an escape for a literal `$`. An unset variable with no default is an
/// error rather than an empty string — silently sending an empty bearer token
/// produces a confusing 401 far from its cause.
pub fn expand(input: &str, env: &Environment) -> (r: Result<String, ConfigError>)
    ensures
        config_result(r) == expansion(input@, *env),
{
    let s = chars_of(input);
    let mut close: Vec<char> = Vec::new();
    close.push('}');
    assert(close@ =~= seq!['}']);
    let mut out = String::new();
    let mut i: usize = 0;
    assert(s@.skip(0) =~= s@);
    assert(prepend(out@, expanded(s@, *env)) == expanded(s@, *env)) by {
        if let Ok(t) = expanded(s@, *env) {
            assert(out@ + t =~= t);
        }
    }
    while i < s.len()
        invariant
            close@ == seq!['}'],
            0 <= i <= s.len(),
            s@ == input@,
            expanded(s@, *env) == prepend(out@, expanded(s@.skip(i as int), *env)),
        decreases s@.len() - i,
    {
        let ghost rest = s@.skip(i as int);
        let ghost before = out@;
        if s[i] != '$' {
            out.push(s[i]);
            proof {
                assert(out@ =~= before + seq![s@[i as int]]);
                lemma_step(rest, *env, before, seq![s@[i as int]], 1);
                assert(rest.skip(1) =~= s@.skip(i + 1));
            }
            i += 1;
            continue ;
        }
        if i + 1 < s.len() && s[i + 1] == '$' {
            out.push('$');
            proof {
                assert(out@ =~= before + seq!['$']);
                lemma_step(rest, *env, before, seq!['$'], 2);
                assert(rest.skip(2) =~= s@.skip(i + 2));
            }
            i += 2;
            continue ;
        }
        if i + 1 >= s.len() || s[i + 1] != '{' {
            // A bare `$` not introducing a placeholder is literal text.
            out.push('$');
            proof {
                assert(out@ =~= before + seq!['$']);
                lemma_step(rest, *env, before, seq!['$'], 1);
                assert(rest.skip(1) =~= s@.skip(i + 1));
            }
            i += 1;
            continue ;
        }
        proof {
            crate::text::lemma_find_shift(s@, close@, i as int, 2);
            assert(s@.subrange(i as int, s@.len() as int) =~= rest);
            lemma_find_from(s@, close@, i + 2);
        }
        match find(&s, &close, i + 2) {
            None => {
                out.push('$');
                out.push('{');
                proof {
                    assert(out@ =~= before + seq!['$', '{']);
                    lemma_step(rest, *env, before, seq!['$', '{'], 2);
                    assert(rest.skip(2) =~= s@.skip(i + 2));
                }
                i += 2;
            },
            Some(end) => {
                let body = chars_of(&slice_text(&s, i + 2, end));
                assert(body@ =~= rest.subrange(2, end - i));
                match resolve_placeholder(&body, env) {
                    Err(var) => {
                        return Err(ConfigError::MissingEnv { var });
                    },
                    Ok(value) => {
                        out.append(&value);
                        proof {
                            lemma_step(rest, *env, before, value@, end - i + 1);
                            assert(rest.skip(end - i + 1) =~= s@.skip(end + 1));
                        }
                        i = end + 1;
                    },
                }
            },
        }
    }
    proof {
        assert(s@.skip(i as int) =~= seq![]);
        assert(out@ + seq![] =~= out@);
    }
    Ok(out)
}

proof fn lemma_step(rest: Seq<char>, env: Environment, before: Seq<char>, front: Seq<char>, n: int)
    requires
        0 < n <= rest.len(),
        expanded(rest, env) == prepend(front, expanded(rest.skip(n), env)),
    ensures
        prepend(before, expanded(rest, env)) == prepend(
            before + front,
            expanded(rest.skip(n), env),
        ),
{
    if let Ok(t) = expanded(rest.skip(n), env) {
        assert(before + (front + t) =~= (before + front) + t);
    }
}

/// A text without a `$` is left as it is.
pub proof fn lemma_plain_text_unchanged(s: Seq<char>, env: Environment)
    requires
        forall|k: int| 0 <= k < s.len() ==> s[k] != '$',
    ensures
        expanded(s, env) == Ok::<Seq<char>, Seq<char>>(s),
    decreases s.len(),
{
    if s.len() > 0 {
        lemma_plain_text_unchanged(s.skip(1), env);
        assert(seq![s[0]] + s.skip(1) =~= s);
    }
}

/// `s` with every `$` written twice.
pub open spec fn escaped(s: Seq<char>) -> Seq<char>
    decreases s.len(),
{
    if s.len() == 0 {
        s
    } else if s[0] == '$' {
        seq!['$', '$'] + escaped(s.skip(1))
    } else {
        seq![s[0]] + escaped(s.skip(1))
    }
}

/// Writing every `$` twice protects any text from expansion.
pub proof fn lemma_double_dollar_escapes(s: Seq<char>, env: Environment)
    ensures
        expanded(escaped(s), env) == Ok::<Seq<char>, Seq<char>>(s),
    decreases s.len(),
{
    if s.len() > 0 {
        lemma_double_dollar_escapes(s.skip(1), env);
        if s[0] == '$' {
            assert(escaped(s).skip(2) =~= escaped(s.skip(1)));
        } else {
            assert(escaped(s).skip(1) =~= escaped(s.skip(1)));
        }
        assert(seq![s[0]] + s.skip(1) =~= s);
    }
}

/// A placeholder turns into the value of its variable as it is, whatever that
/// holds: a value is not expanded in turn. A variable that is not set is an
/// error that names it.
pub proof fn lemma_value_is_not_expanded(name: Seq<char>, env: Environment)
    requires
        forall|k: int| 0 <= k < name.len() ==> name[k] != '}',
        find_from(name, ":-"@, 0) is None,
        trimmed(name) == name,
    ensures
        expanded(seq!['$', '{'] + name + seq!['}'], env) == match env.value(name) {
            Some(value) => Ok::<Seq<char>, Seq<char>>(value),
            None => Err::<Seq<char>, Seq<char>>(name),
        },
{
    let s = seq!['$', '{'] + name + seq!['}'];
    let e: int = 2 + name.len() as int;
    lemma_find_from(s, seq!['}'], 2);
    assert(s.subrange(e, e + 1) =~= seq!['}']);
    assert(occurs_at(s, seq!['}'], e));
    assert forall|k: int| 2 <= k < e implies !occurs_at(s, seq!['}'], k) by {
        assert(s[k] == name[k - 2]);
        if s.subrange(k, k + 1) == seq!['}'] {
            assert(s.subrange(k, k + 1)[0] == '}');
        }
    }
    assert(s.subrange(2, e) =~= name);
    assert(find_from(s, seq!['}'], 2) == Some(e));
    assert(s[0] == '$' && s[1] == '{');
    assert(s.skip(e + 1) =~= seq![]);
    assert(expanded(s.skip(e + 1), env) == Ok::<Seq<char>, Seq<char>>(seq![]));
    if let Some(value) = env.value(name) {
        assert(value + seq![] =~= value);
    }
}

/// A TOML value with every string in it expanded.
pub open spec fn expanded_toml(value: TomlView, env: Environment) -> Result<TomlView, Seq<char>>
    decreases value,
{
    match value {
        TomlView::Text(text) => match expanded(text, env) {
            Ok(text) => Ok(TomlView::Text(text)),
            Err(var) => Err(var),
        },
        TomlView::Array(items) => match expanded_items(items, env) {
            Ok(items) => Ok(TomlView::Array(items)),
            Err(var) => Err(var),
        },
        TomlView::Table(entries) => match expanded_entries(entries, env) {
            Ok(entries) => Ok(TomlView::Table(entries)),
            Err(var) => Err(var),
        },
        other => Ok(other),
    }
}

/// The items of an array, expanded in order.
pub open spec fn expanded_items(items: Seq<TomlView>, env: Environment) -> Result<
    Seq<TomlView>,
    Seq<char>,
>
    decreases items,
{
    if items.len() == 0 {
        Ok(seq![])
    } else {
        match expanded_items(items.drop_last(), env) {
            Err(var) => Err(var),
            Ok(done) => match expanded_toml(items.last(), env) {
                Err(var) => Err(var),
                Ok(value) => Ok(done.push(value)),
            },
        }
    }
}

/// The values of a table, expanded in order; the keys are left alone.
pub open spec fn expanded_entries(
    entries: Seq<(Seq<char>, TomlView)>,
    env: Environment,
) -> Result<Seq<(Seq<char>, TomlView)>, Seq<char>>
    decreases entries,
{
    if entries.len() == 0 {
        Ok(seq![])
    } else {
        match expanded_entries(entries.drop_last(), env) {
            Err(var) => Err(var),
            Ok(done) => match expanded_toml(entries.last().1, env) {
                Err(var) => Err(var),
                Ok(value) => Ok(done.push((entries.last().0, value))),
            },
        }
    }
}

proof fn lemma_items_error(items: Seq<TomlView>, env: Environment, n: int, var: Seq<char>)
    requires
        0 <= n <= items.len(),
        expanded_items(items.take(n), env) == Err::<Seq<TomlView>, Seq<char>>(var),
    ensures
        expanded_items(items, env) == Err::<Seq<TomlView>, Seq<char>>(var),
    decreases items.len() - n,
{
    if n < items.len() {
        assert(items.take(n + 1).drop_last() =~= items.take(n));
        lemma_items_error(items, env, n + 1, var);
    } else {
        assert(items.take(n) =~= items);
    }
}

proof fn lemma_entries_error(
    entries: Seq<(Seq<char>, TomlView)>,
    env: Environment,
    n: int,
    var: Seq<char>,
)
    requires
        0 <= n <= entries.len(),
        expanded_entries(entries.take(n), env) == Err::<Seq<(Seq<char>, TomlView)>, Seq<char>>(var),
    ensures
        expanded_entries(entries, env) == Err::<Seq<(Seq<char>, TomlView)>, Seq<char>>(var),
    decreases entries.len() - n,
{
    if n < entries.len() {
        assert(entries.take(n + 1).drop_last() =~= entries.take(n));
        lemma_entries_error(entries, env, n + 1, var);
    } else {
        assert(entries.take(n) =~= entries);
    }
}

/// The outcome of expanding a document as the caller sees it.
pub open spec fn toml_expansion(value: TomlView, env: Environment) -> Result<
    TomlView,
    ConfigErrorView,
> {
    match expanded_toml(value, env) {
        Ok(value) => Ok(value),
        Err(var) => Err(ConfigErrorView::MissingEnv { var }),
    }
}

/// Expands every string value in a parsed TOML document.
///
/// Operating on values rather than raw text means comments, keys and non-string
/// values are left alone — a `${VAR}` written in a comment is documentation,
/// not a lookup.
pub fn expand_toml(value: &TomlValue, env: &Environment) -> (r: Result<TomlValue, ConfigError>)
    ensures
        config_result(r) == toml_expansion(value@, *env),
    decreases value,
{
    match value {
        TomlValue::Text(text) => match expand(text, env) {
            Ok(text) => Ok(TomlValue::Text(text)),
            Err(err) => Err(err),
        },
        TomlValue::Array(items) => {
            let mut out: Vec<TomlValue> = Vec::new();
            let mut i: usize = 0;
            let ghost all = toml_items_view(items@);
            proof {
                lemma_toml_items_view(items@);
            }
            while i < items.len()
                invariant
                    0 <= i <= items@.len(),
                    value == TomlValue::Array(*items),
                    all == toml_items_view(items@),
                    all.len() == items@.len(),
                    forall|k: int| 0 <= k < items@.len() ==> #[trigger] all[k] == items@[k]@,
                    expanded_items(all.take(i as int), *env) == Ok::<Seq<TomlView>, Seq<char>>(
                        toml_items_view(out@),
                    ),
                decreases items@.len() - i,
            {
                assert(all.take(i + 1).drop_last() =~= all.take(i as int));
                assert(all.take(i + 1).last() == items@[i as int]@);
                let ghost before = out@;
                assert(decreases_to!(value => items@[i as int]));
                match expand_toml(&items[i], env) {
                    Ok(item) => {
                        out.push(item);
                        assert(out@.drop_last() =~= before);
                    },
                    Err(err) => {
                        proof {
                            lemma_items_error(all, *env, i + 1, err@->var);
                        }
                        return Err(err);
                    },
                }
                i += 1;
            }
            assert(all.take(i as int) =~= all);
            Ok(TomlValue::Array(out))
        },
        TomlValue::Table(entries) => {
            let mut out: Vec<(String, TomlValue)> = Vec::new();
            let mut i: usize = 0;
            let ghost all = toml_entries_view(entries@);
            proof {
                lemma_toml_entries_view(entries@);
            }
            while i < entries.len()
                invariant
                    0 <= i <= entries@.len(),
                    value == TomlValue::Table(*entries),
                    all == toml_entries_view(entries@),
                    all.len() == entries@.len(),
                    forall|k: int|
                        0 <= k < entries@.len() ==> #[trigger] all[k] == (
                            entries@[k].0@,
                            toml_view(entries@[k].1),
                        ),
                    expanded_entries(all.take(i as int), *env) == Ok::<
                        Seq<(Seq<char>, TomlView)>,
                        Seq<char>,
                    >(toml_entries_view(out@)),
                decreases entries@.len() - i,
            {
                assert(all.take(i + 1).drop_last() =~= all.take(i as int));
                assert(all.take(i + 1).last() == all[i as int]);
                let ghost before = out@;
                assert(decreases_to!(value => entries@[i as int].1));
                match expand_toml(&entries[i].1, env) {
                    Ok(item) => {
                        out.push((entries[i].0.clone(), item));
                        assert(out@.drop_last() =~= before);
                    },
                    Err(err) => {
                        proof {
                            lemma_entries_error(all, *env, i + 1, err@->var);
                        }
                        return Err(err);
                    },
                }
                i += 1;
            }
            assert(all.take(i as int) =~= all);
            Ok(TomlValue::Table(out))
        },
        TomlValue::Integer(n) => Ok(TomlValue::Integer(*n)),
        TomlValue::Float(text) => Ok(TomlValue::Float(text.clone())),
        TomlValue::Boolean(b) => Ok(TomlValue::Boolean(*b)),
        TomlValue::Datetime(text) => Ok(TomlValue::Datetime(text.clone())),
    }
}

proof fn lemma_plain_front(front: Seq<char>, rest: Seq<char>, env: Environment)
    requires
        !front.contains('$'),
    ensures
        expanded(front + rest, env) == prepend(front, expanded(rest, env)),
    decreases front.len(),
{
    let s = front + rest;
    if front.len() == 0 {
        assert(s =~= rest);
        match expanded(rest, env) {
            Ok(text) => assert(front + text =~= text),
            Err(_) => {},
        }
    } else {
        assert(front[0] != '$') by {
            assert(front.contains(front[0]));
        }
        let less = front.skip(1);
        assert(!less.contains('$')) by {
            if less.contains('$') {
                let i = choose|i: int| 0 <= i < less.len() && less[i] == '$';
                assert(front[i + 1] == '$');
            }
        }
        lemma_plain_front(less, rest, env);
        assert(s.skip(1) =~= less + rest);
        match expanded(rest, env) {
            Ok(text) => assert(seq![front[0]] + (less + text) =~= front + text),
            Err(_) => {},
        }
    }
}

/// A placeholder gives way to the value of its variable, as it is, and what stands
/// before and behind it is kept and expanded on its own. Without such a variable the
/// default that it names takes its place, as it is; without a default that is the
/// error, by name.
pub proof fn lemma_placeholders(
    front: Seq<char>,
    body: Seq<char>,
    rest: Seq<char>,
    env: Environment,
)
    requires
        !front.contains('$'),
        !body.contains('}'),
    ensures
        expanded(front + (seq!['$', '{'] + body + seq!['}'] + rest), env) == match find_from(
            body,
            ":-"@,
            0,
        ) {
            Some(k) => prepend(
                front + match env.value(trimmed(body.subrange(0, k))) {
                    Some(value) => value,
                    None => body.skip(k + 2),
                },
                expanded(rest, env),
            ),
            None => match env.value(trimmed(body)) {
                Some(value) => prepend(front + value, expanded(rest, env)),
                None => Err(trimmed(body)),
            },
        },
{
    let s = seq!['$', '{'] + body + seq!['}'] + rest;
    let e: int = 2 + body.len() as int;
    lemma_plain_front(front, s, env);
    lemma_find_from(s, seq!['}'], 2);
    assert(s.subrange(e, e + 1) =~= seq!['}']);
    assert(occurs_at(s, seq!['}'], e));
    assert forall|k: int| 2 <= k < e implies !occurs_at(s, seq!['}'], k) by {
        assert(s[k] == body[k - 2]);
        assert(body.contains(body[k - 2]));
        if s.subrange(k, k + 1) == seq!['}'] {
            assert(s.subrange(k, k + 1)[0] == '}');
        }
    }
    assert(s.subrange(2, e) =~= body);
    assert(find_from(s, seq!['}'], 2) == Some(e));
    assert(s[0] == '$' && s[1] == '{');
    assert(s.skip(e + 1) =~= rest);
    match find_from(body, ":-"@, 0) {
        Some(k) => {
            reveal_strlit(":-");
            lemma_find_from(body, ":-"@, 0);
            assert(body.skip(k + 2) =~= body.subrange(k + 2, body.len() as int));
        },
        None => {},
    }
    match (placeholder_value(body, env), expanded(rest, env)) {
        (Ok(value), Ok(text)) => assert(front + (value + text) =~= (front + value) + text),
        _ => {},
    }
}

/// A variable has the first value that is given for its name, and none where the
/// name is not there.
pub proof fn lemma_variables(env: Environment, name: Seq<char>)
    ensures
        match env.value(name) {
            Some(value) => exists|i: int|
                0 <= i < env.vars@.len() && (#[trigger] env.vars@[i]).0@ == name
                    && env.vars@[i].1@ == value && forall|j: int|
                    0 <= j < i ==> (#[trigger] env.vars@[j]).0@ != name,
            None => forall|i: int|
                0 <= i < env.vars@.len() ==> (#[trigger] env.vars@[i]).0@ != name,
        },
{
    lemma_lookup_in(env.vars@, name);
}

proof fn lemma_lookup_in(vars: Seq<(String, String)>, name: Seq<char>)
    ensures
        match lookup_in(vars, name) {
            Some(value) => exists|i: int|
                0 <= i < vars.len() && (#[trigger] vars[i]).0@ == name && vars[i].1@ == value
                    && forall|j: int| 0 <= j < i ==> (#[trigger] vars[j]).0@ != name,
            None => forall|i: int| 0 <= i < vars.len() ==> (#[trigger] vars[i]).0@ != name,
        },
    decreases vars.len(),
{
    if vars.len() > 0 {
        if vars[0].0@ == name {
            assert(vars[0].1@ == lookup_in(vars, name)->0);
        } else {
            let rest = vars.drop_first();
            lemma_lookup_in(rest, name);
            match lookup_in(rest, name) {
                Some(value) => {
                    let i = choose|i: int|
                        0 <= i < rest.len() && (#[trigger] rest[i]).0@ == name && rest[i].1@ == value
                            && forall|j: int| 0 <= j < i ==> (#[trigger] rest[j]).0@ != name;
                    assert(vars[i + 1] == rest[i]);
                    assert forall|j: int| 0 <= j < i + 1 implies (#[trigger] vars[j]).0@
                        != name by {
                        if j > 0 {
                            assert(rest[j - 1] == vars[j]);
                        }
                    }
                },
                None => {
                    assert forall|i: int| 0 <= i < vars.len() implies (#[trigger] vars[i]).0@
                        != name by {
                        if i > 0 {
                            assert(rest[i - 1] == vars[i]);
                        }
                    }
                },
            }
        }
    }
}

/// In a document every text is expanded where it stands; keys, order and all other
/// values stay as they are.
pub proof fn lemma_documents_are_expanded(value: TomlView, env: Environment)
    ensures
        match value {
            TomlView::Text(text) => expanded_toml(value, env) == match expanded(text, env) {
                Ok(done) => Ok::<TomlView, Seq<char>>(TomlView::Text(done)),
                Err(var) => Err::<TomlView, Seq<char>>(var),
            },
            TomlView::Array(items) => match expanded_toml(value, env) {
                Ok(done) => done matches TomlView::Array(list) && list.len() == items.len()
                    && forall|i: int|
                    0 <= i < items.len() ==> expanded_toml(#[trigger] items[i], env) == Ok::<
                        TomlView,
                        Seq<char>,
                    >(list[i]),
                Err(var) => exists|i: int|
                    0 <= i < items.len() && expanded_toml(#[trigger] items[i], env) == Err::<
                        TomlView,
                        Seq<char>,
                    >(var),
            },
            TomlView::Table(entries) => match expanded_toml(value, env) {
                Ok(done) => done matches TomlView::Table(list) && list.len() == entries.len()
                    && forall|i: int|
                    0 <= i < entries.len() ==> list[i].0 == (#[trigger] entries[i]).0
                        && expanded_toml(entries[i].1, env) == Ok::<TomlView, Seq<char>>(
                        list[i].1,
                    ),
                Err(var) => exists|i: int|
                    0 <= i < entries.len() && expanded_toml((#[trigger] entries[i]).1, env)
                        == Err::<TomlView, Seq<char>>(var),
            },
            other => expanded_toml(value, env) == Ok::<TomlView, Seq<char>>(other),
        },
{
    match value {
        TomlView::Array(items) => lemma_items_are_expanded(items, env),
        TomlView::Table(entries) => lemma_entries_are_expanded(entries, env),
        _ => {},
    }
}

proof fn lemma_items_are_expanded(items: Seq<TomlView>, env: Environment)
    ensures
        match expanded_items(items, env) {
            Ok(list) => list.len() == items.len() && forall|i: int|
                0 <= i < items.len() ==> expanded_toml(#[trigger] items[i], env) == Ok::<
                    TomlView,
                    Seq<char>,
                >(list[i]),
            Err(var) => exists|i: int|
                0 <= i < items.len() && expanded_toml(#[trigger] items[i], env) == Err::<
                    TomlView,
                    Seq<char>,
                >(var),
        },
    decreases items.len(),
{
    if items.len() > 0 {
        let front = items.drop_last();
        lemma_items_are_expanded(front, env);
        match expanded_items(front, env) {
            Err(var) => {
                let i = choose|i: int|
                    0 <= i < front.len() && expanded_toml(#[trigger] front[i], env) == Err::<
                        TomlView,
                        Seq<char>,
                    >(var);
                assert(items[i] == front[i]);
            },
            Ok(done) => {
                assert(items[items.len() - 1] == items.last());
                if expanded_toml(items.last(), env) is Ok {
                    let list = expanded_items(items, env)->Ok_0;
                    assert forall|i: int| 0 <= i < items.len() implies expanded_toml(
                        #[trigger] items[i],
                        env,
                    ) == Ok::<TomlView, Seq<char>>(list[i]) by {
                        if i < front.len() {
                            assert(front[i] == items[i]);
                        }
                    }
                }
            },
        }
    }
}

proof fn lemma_entries_are_expanded(entries: Seq<(Seq<char>, TomlView)>, env: Environment)
    ensures
        match expanded_entries(entries, env) {
            Ok(list) => list.len() == entries.len() && forall|i: int|
                0 <= i < entries.len() ==> list[i].0 == (#[trigger] entries[i]).0 && expanded_toml(
                    entries[i].1,
                    env,
                ) == Ok::<TomlView, Seq<char>>(list[i].1),
            Err(var) => exists|i: int|
                0 <= i < entries.len() && expanded_toml((#[trigger] entries[i]).1, env) == Err::<
                    TomlView,
                    Seq<char>,
                >(var),
        },
    decreases entries.len(),
{
    if entries.len() > 0 {
        let front = entries.drop_last();
        lemma_entries_are_expanded(front, env);
        match expanded_entries(front, env) {
            Err(var) => {
                let i = choose|i: int|
                    0 <= i < front.len() && expanded_toml((#[trigger] front[i]).1, env) == Err::<
                        TomlView,
                        Seq<char>,
                    >(var);
                assert(entries[i] == front[i]);
            },
            Ok(done) => {
                assert(entries[entries.len() - 1] == entries.last());
                if expanded_toml(entries.last().1, env) is Ok {
                    let list = expanded_entries(entries, env)->Ok_0;
                    assert forall|i: int| 0 <= i < entries.len() implies list[i].0 == (
                    #[trigger] entries[i]).0 && expanded_toml(entries[i].1, env) == Ok::<
                        TomlView,
                        Seq<char>,
                    >(list[i].1) by {
                        if i < front.len() {
                            assert(front[i] == entries[i]);
                        }
                    }
                }
            },
        }
    }
}

/// A dollar sign that begins nothing stays, and so does a placeholder that is never
/// closed; what follows is expanded on its own.
pub proof fn lemma_lone_dollars(rest: Seq<char>, env: Environment)
    ensures
        rest.len() == 0 || (rest[0] != '$' && rest[0] != '{') ==> expanded(seq!['$'] + rest, env)
            == prepend(seq!['$'], expanded(rest, env)),
        !rest.contains('}') ==> expanded(seq!['$', '{'] + rest, env) == prepend(
            seq!['$', '{'],
            expanded(rest, env),
        ),
        expanded(seq!['$', '$'] + rest, env) == prepend(seq!['$'], expanded(rest, env)),
{
    let lone = seq!['$'] + rest;
    assert(lone.skip(1) =~= rest);
    assert(lone.len() > 1 ==> lone[1] == rest[0]);
    let twice = seq!['$', '$'] + rest;
    assert(twice.skip(2) =~= rest);
    if !rest.contains('}') {
        let open = seq!['$', '{'] + rest;
        assert(open.skip(2) =~= rest);
        lemma_find_from(open, seq!['}'], 2);
        match find_from(open, seq!['}'], 2) {
            Some(e) => {
                assert(open.subrange(e, e + 1)[0] == '}');
                assert(rest[e - 2] == '}');
            },
            None => {},
        }
    }
}

/// What cannot be expanded is an error that names the variable.
pub proof fn lemma_expansion_errors(s: Seq<char>, env: Environment)
    ensures
        match expanded(s, env) {
            Ok(text) => expansion(s, env) == Ok::<Seq<char>, ConfigErrorView>(text),
            Err(var) => expansion(s, env) matches Err(ConfigErrorView::MissingEnv { var: named })
                && named == var,
        },
{
}

} // verus!
