//! Reading a configuration out of a TOML document: which keys each section
//! has, what stands for one that is left out, and what is refused.

use vstd::prelude::*;

use super::duration::{parse, parsed_duration, HumanDuration};
use super::interpolate::{expand_toml, toml_expansion, Environment};
use super::model::{
    Config, ConfigView, Limits, LimitsView, ProxyConfig, ProxyConfigView, ServerConfig,
    ServerConfigView, SidecarConfig, SidecarConfigView, SshServerConfig, SshServerConfigView,
    ToolPolicy, ToolPolicyView,
};
use super::toml_value::{
    lemma_toml_entries_view, lemma_toml_items_view, parsed_toml, toml_entries_view,
    toml_items_view, TomlValue, TomlView,
};
use super::validate::validation_error;
use crate::decode::{missing_field, say_missing, say_wrong_type, wrong_type, WRONG_LENGTH};
use crate::error::{config_result, ConfigError, ConfigErrorView};
use crate::text::{cat3, opt_view, same, views};

verus! {

/// The entries of a table.
pub type Entries = Seq<(Seq<char>, TomlView)>;

/// What a table holds under `key`.
pub open spec fn entry(t: Entries, key: Seq<char>) -> Option<TomlView>
    decreases t.len(),
{
    if t.len() == 0 {
        None
    } else if t[0].0 == key {
        Some(t[0].1)
    } else {
        entry(t.drop_first(), key)
    }
}

/// The message for a key that no section has.
pub open spec fn unknown_key(key: Seq<char>) -> Seq<char> {
    "unknown field `"@ + key + "`"@
}

/// The first key that is not among the known ones.
pub open spec fn unknown_field(t: Entries, known: Seq<Seq<char>>) -> Option<Seq<char>>
    decreases t.len(),
{
    if t.len() == 0 {
        None
    } else if !known.contains(t[0].0) {
        Some(unknown_key(t[0].0))
    } else {
        unknown_field(t.drop_first(), known)
    }
}

/// The error of an outcome.
pub open spec fn error_of<T>(r: Result<T, Seq<char>>) -> Option<Seq<char>> {
    match r {
        Ok(_) => None,
        Err(e) => Some(e),
    }
}

/// The first of two errors.
pub open spec fn either(a: Option<Seq<char>>, b: Option<Seq<char>>) -> Option<Seq<char>> {
    match a {
        Some(e) => Some(e),
        None => b,
    }
}

/// The text that must stand under `key`.
pub open spec fn text_field(t: Entries, key: Seq<char>) -> Result<Seq<char>, Seq<char>> {
    match entry(t, key) {
        None => Err(missing_field(key)),
        Some(TomlView::Text(s)) => Ok(s),
        Some(_) => Err(wrong_type(key, "a string"@)),
    }
}

/// The text that may stand under `key`.
pub open spec fn opt_text_field(t: Entries, key: Seq<char>) -> Result<
    Option<Seq<char>>,
    Seq<char>,
> {
    match entry(t, key) {
        None => Ok(None),
        Some(TomlView::Text(s)) => Ok(Some(s)),
        Some(_) => Err(wrong_type(key, "a string"@)),
    }
}

/// The text under `key`, or `default`.
pub open spec fn text_or_field(t: Entries, key: Seq<char>, default: Seq<char>) -> Result<
    Seq<char>,
    Seq<char>,
> {
    match opt_text_field(t, key) {
        Ok(Some(s)) => Ok(s),
        Ok(None) => Ok(default),
        Err(e) => Err(e),
    }
}

/// The truth value under `key`, or `default`.
pub open spec fn flag_field(t: Entries, key: Seq<char>, default: bool) -> Result<
    bool,
    Seq<char>,
> {
    match entry(t, key) {
        None => Ok(default),
        Some(TomlView::Boolean(b)) => Ok(b),
        Some(_) => Err(wrong_type(key, "a boolean"@)),
    }
}

/// The integer from zero to `max` under `key`, or `default`.
pub open spec fn integer_field(t: Entries, key: Seq<char>, default: u64, max: u64) -> Result<
    u64,
    Seq<char>,
> {
    match entry(t, key) {
        None => Ok(default),
        Some(TomlView::Integer(n)) => if 0 <= n <= max {
            Ok(n as u64)
        } else {
            Err(wrong_type(key, "an integer in range"@))
        },
        Some(_) => Err(wrong_type(key, "an integer in range"@)),
    }
}

/// The span of time under `key` in milliseconds, or `default`.
pub open spec fn duration_field(t: Entries, key: Seq<char>, default: nat) -> Result<
    nat,
    Seq<char>,
> {
    match entry(t, key) {
        None => Ok(default),
        Some(TomlView::Text(s)) => match parsed_duration(s) {
            Some(millis) => Ok(millis),
            None => Err((ConfigErrorView::Duration { value: s }).message()),
        },
        Some(_) => Err(wrong_type(key, "a string"@)),
    }
}

/// The texts of an array.
pub open spec fn texts_of(items: Seq<TomlView>, key: Seq<char>) -> Result<
    Seq<Seq<char>>,
    Seq<char>,
>
    decreases items.len(),
{
    if items.len() == 0 {
        Ok(seq![])
    } else {
        match texts_of(items.drop_last(), key) {
            Err(e) => Err(e),
            Ok(done) => match items.last() {
                TomlView::Text(s) => Ok(done.push(s)),
                _ => Err(wrong_type(key, "an array of strings"@)),
            },
        }
    }
}

/// The list of texts that may stand under `key`.
pub open spec fn opt_texts_field(t: Entries, key: Seq<char>) -> Result<
    Option<Seq<Seq<char>>>,
    Seq<char>,
> {
    match entry(t, key) {
        None => Ok(None),
        Some(TomlView::Array(items)) => match texts_of(items, key) {
            Ok(list) => Ok(Some(list)),
            Err(e) => Err(e),
        },
        Some(_) => Err(wrong_type(key, "an array of strings"@)),
    }
}

/// The list of texts under `key`, or the empty one.
pub open spec fn texts_field(t: Entries, key: Seq<char>) -> Result<Seq<Seq<char>>, Seq<char>> {
    match opt_texts_field(t, key) {
        Ok(Some(list)) => Ok(list),
        Ok(None) => Ok(seq![]),
        Err(e) => Err(e),
    }
}

/// The texts of a table with their keys.
pub open spec fn pairs_of(entries: Entries, key: Seq<char>) -> Result<
    Seq<(Seq<char>, Seq<char>)>,
    Seq<char>,
>
    decreases entries.len(),
{
    if entries.len() == 0 {
        Ok(seq![])
    } else {
        match pairs_of(entries.drop_last(), key) {
            Err(e) => Err(e),
            Ok(done) => match entries.last().1 {
                TomlView::Text(s) => Ok(done.push((entries.last().0, s))),
                _ => Err(wrong_type(key, "a table of strings"@)),
            },
        }
    }
}

/// The texts with their keys under `key`, or none.
pub open spec fn pairs_field(t: Entries, key: Seq<char>) -> Result<
    Seq<(Seq<char>, Seq<char>)>,
    Seq<char>,
> {
    match entry(t, key) {
        None => Ok(seq![]),
        Some(TomlView::Table(entries)) => pairs_of(entries, key),
        Some(_) => Err(wrong_type(key, "a table of strings"@)),
    }
}

// ---------------------------------------------------------------------------
// Fields, executable

/// What a table holds under `key`.
pub fn find_entry<'a>(t: &'a Vec<(String, TomlValue)>, key: &str) -> (r: Option<&'a TomlValue>)
    ensures
        match r {
            Some(v) => entry(toml_entries_view(t@), key@) == Some(v@),
            None => entry(toml_entries_view(t@), key@) is None,
        },
{
    let ghost all = toml_entries_view(t@);
    proof {
        lemma_toml_entries_view(t@);
        assert(all.skip(0) =~= all);
    }
    let mut i: usize = 0;
    while i < t.len()
        invariant
            0 <= i <= t@.len(),
            all == toml_entries_view(t@),
            all.len() == t@.len(),
            forall|k: int| 0 <= k < t@.len() ==> #[trigger] all[k] == (t@[k].0@, t@[k].1@),
            entry(all, key@) == entry(all.skip(i as int), key@),
        decreases t@.len() - i,
    {
        assert(all.skip(i as int).drop_first() =~= all.skip(i + 1));
        assert(all.skip(i as int)[0] == all[i as int]);
        if same(&t[i].0, key) {
            return Some(&t[i].1);
        }
        i += 1;
    }
    None
}

/// Whether `key` is one of the known ones.
fn known_key(known: &Vec<String>, key: &str) -> (r: bool)
    ensures
        r == views(known@).contains(key@),
{
    let mut i: usize = 0;
    while i < known.len()
        invariant
            0 <= i <= known@.len(),
            forall|k: int| 0 <= k < i ==> (#[trigger] known@[k])@ != key@,
        decreases known@.len() - i,
    {
        if same(&known[i], key) {
            assert(views(known@)[i as int] == key@);
            return true;
        }
        i += 1;
    }
    proof {
        if views(known@).contains(key@) {
            let k = choose|k: int| 0 <= k < known@.len() && views(known@)[k] == key@;
            assert(known@[k]@ == key@);
        }
    }
    false
}

/// The first key that is not among the known ones.
pub fn refuse_unknown(t: &Vec<(String, TomlValue)>, known: &Vec<String>) -> (r: Option<String>)
    ensures
        opt_view(r) == unknown_field(toml_entries_view(t@), views(known@)),
{
    let ghost all = toml_entries_view(t@);
    proof {
        lemma_toml_entries_view(t@);
        assert(all.skip(0) =~= all);
    }
    let mut i: usize = 0;
    while i < t.len()
        invariant
            0 <= i <= t@.len(),
            all == toml_entries_view(t@),
            all.len() == t@.len(),
            forall|k: int| 0 <= k < t@.len() ==> #[trigger] all[k] == (t@[k].0@, t@[k].1@),
            unknown_field(all, views(known@)) == unknown_field(all.skip(i as int), views(known@)),
        decreases t@.len() - i,
    {
        assert(all.skip(i as int).drop_first() =~= all.skip(i + 1));
        assert(all.skip(i as int)[0] == all[i as int]);
        if !known_key(known, &t[i].0) {
            return Some(cat3("unknown field `", &t[i].0, "`"));
        }
        i += 1;
    }
    None
}

fn get_text(t: &Vec<(String, TomlValue)>, key: &str) -> (r: Result<String, String>)
    ensures
        match r {
            Ok(s) => text_field(toml_entries_view(t@), key@) == Ok::<Seq<char>, Seq<char>>(s@),
            Err(e) => text_field(toml_entries_view(t@), key@) == Err::<Seq<char>, Seq<char>>(e@),
        },
{
    match find_entry(t, key) {
        None => Err(say_missing(key)),
        Some(TomlValue::Text(s)) => Ok(s.clone()),
        Some(_) => Err(say_wrong_type(key, "a string")),
    }
}

fn get_opt_text(t: &Vec<(String, TomlValue)>, key: &str) -> (r: Result<Option<String>, String>)
    ensures
        match r {
            Ok(s) => opt_text_field(toml_entries_view(t@), key@) == Ok::<
                Option<Seq<char>>,
                Seq<char>,
            >(opt_view(s)),
            Err(e) => opt_text_field(toml_entries_view(t@), key@) == Err::<
                Option<Seq<char>>,
                Seq<char>,
            >(e@),
        },
{
    match find_entry(t, key) {
        None => Ok(None),
        Some(TomlValue::Text(s)) => Ok(Some(s.clone())),
        Some(_) => Err(say_wrong_type(key, "a string")),
    }
}

fn get_flag(t: &Vec<(String, TomlValue)>, key: &str, default: bool) -> (r: Result<bool, String>)
    ensures
        match r {
            Ok(b) => flag_field(toml_entries_view(t@), key@, default) == Ok::<bool, Seq<char>>(b),
            Err(e) => flag_field(toml_entries_view(t@), key@, default) == Err::<bool, Seq<char>>(
                e@,
            ),
        },
{
    match find_entry(t, key) {
        None => Ok(default),
        Some(TomlValue::Boolean(b)) => Ok(*b),
        Some(_) => Err(say_wrong_type(key, "a boolean")),
    }
}

fn get_integer(t: &Vec<(String, TomlValue)>, key: &str, default: u64, max: u64) -> (r: Result<
    u64,
    String,
>)
    requires
        default <= max,
    ensures
        match r {
            Ok(n) => n <= max && integer_field(toml_entries_view(t@), key@, default, max) == Ok::<
                u64,
                Seq<char>,
            >(n),
            Err(e) => integer_field(toml_entries_view(t@), key@, default, max) == Err::<
                u64,
                Seq<char>,
            >(e@),
        },
{
    match find_entry(t, key) {
        None => Ok(default),
        Some(TomlValue::Integer(n)) => if 0 <= *n && *n as u64 <= max {
            Ok(*n as u64)
        } else {
            Err(say_wrong_type(key, "an integer in range"))
        },
        Some(_) => Err(say_wrong_type(key, "an integer in range")),
    }
}

fn get_duration(t: &Vec<(String, TomlValue)>, key: &str, default: HumanDuration) -> (r: Result<
    HumanDuration,
    String,
>)
    ensures
        match r {
            Ok(d) => duration_field(toml_entries_view(t@), key@, default@) == Ok::<nat, Seq<char>>(
                d@,
            ),
            Err(e) => duration_field(toml_entries_view(t@), key@, default@) == Err::<
                nat,
                Seq<char>,
            >(e@),
        },
{
    match find_entry(t, key) {
        None => Ok(default),
        Some(TomlValue::Text(s)) => match parse(s) {
            Ok(d) => Ok(HumanDuration(d)),
            Err(err) => Err(err.message()),
        },
        Some(_) => Err(say_wrong_type(key, "a string")),
    }
}

proof fn lemma_texts_error(items: Seq<TomlView>, key: Seq<char>, n: int)
    requires
        0 <= n <= items.len(),
        texts_of(items.take(n), key) is Err,
    ensures
        texts_of(items, key) == texts_of(items.take(n), key),
    decreases items.len() - n,
{
    if n < items.len() {
        assert(items.take(n + 1).drop_last() =~= items.take(n));
        lemma_texts_error(items, key, n + 1);
    } else {
        assert(items.take(n) =~= items);
    }
}

fn get_opt_texts(t: &Vec<(String, TomlValue)>, key: &str) -> (r: Result<
    Option<Vec<String>>,
    String,
>)
    ensures
        match r {
            Ok(Some(list)) => opt_texts_field(toml_entries_view(t@), key@) == Ok::<
                Option<Seq<Seq<char>>>,
                Seq<char>,
            >(Some(views(list@))),
            Ok(None) => opt_texts_field(toml_entries_view(t@), key@) == Ok::<
                Option<Seq<Seq<char>>>,
                Seq<char>,
            >(None),
            Err(e) => opt_texts_field(toml_entries_view(t@), key@) == Err::<
                Option<Seq<Seq<char>>>,
                Seq<char>,
            >(e@),
        },
{
    match find_entry(t, key) {
        None => Ok(None),
        Some(TomlValue::Array(items)) => {
            let ghost all = toml_items_view(items@);
            let mut out: Vec<String> = Vec::new();
            let mut i: usize = 0;
            proof {
                lemma_toml_items_view(items@);
                assert(views(out@) =~= seq![]);
            }
            while i < items.len()
                invariant
                    0 <= i <= items@.len(),
                    entry(toml_entries_view(t@), key@) == Some(TomlView::Array(all)),
                    all == toml_items_view(items@),
                    all.len() == items@.len(),
                    forall|k: int| 0 <= k < items@.len() ==> #[trigger] all[k] == items@[k]@,
                    texts_of(all.take(i as int), key@) == Ok::<Seq<Seq<char>>, Seq<char>>(
                        views(out@),
                    ),
                decreases items@.len() - i,
            {
                let ghost before = out@;
                assert(all.take(i + 1).drop_last() =~= all.take(i as int));
                assert(all.take(i + 1).last() == items@[i as int]@);
                match &items[i] {
                    TomlValue::Text(s) => {
                        out.push(s.clone());
                        assert(views(out@) =~= views(before).push(s@));
                    },
                    _ => {
                        proof {
                            lemma_texts_error(all, key@, i + 1);
                        }
                        return Err(say_wrong_type(key, "an array of strings"));
                    },
                }
                i += 1;
            }
            assert(all.take(i as int) =~= all);
            Ok(Some(out))
        },
        Some(_) => Err(say_wrong_type(key, "an array of strings")),
    }
}

fn get_texts(t: &Vec<(String, TomlValue)>, key: &str) -> (r: Result<Vec<String>, String>)
    ensures
        match r {
            Ok(list) => texts_field(toml_entries_view(t@), key@) == Ok::<
                Seq<Seq<char>>,
                Seq<char>,
            >(views(list@)),
            Err(e) => texts_field(toml_entries_view(t@), key@) == Err::<
                Seq<Seq<char>>,
                Seq<char>,
            >(e@),
        },
{
    match get_opt_texts(t, key) {
        Ok(Some(list)) => Ok(list),
        Ok(None) => {
            let none: Vec<String> = Vec::new();
            assert(views(none@) =~= seq![]);
            Ok(none)
        },
        Err(e) => Err(e),
    }
}

proof fn lemma_pairs_error(entries: Entries, key: Seq<char>, n: int)
    requires
        0 <= n <= entries.len(),
        pairs_of(entries.take(n), key) is Err,
    ensures
        pairs_of(entries, key) == pairs_of(entries.take(n), key),
    decreases entries.len() - n,
{
    if n < entries.len() {
        assert(entries.take(n + 1).drop_last() =~= entries.take(n));
        lemma_pairs_error(entries, key, n + 1);
    } else {
        assert(entries.take(n) =~= entries);
    }
}

fn get_pairs(t: &Vec<(String, TomlValue)>, key: &str) -> (r: Result<Vec<(String, String)>, String>)
    ensures
        match r {
            Ok(list) => pairs_field(toml_entries_view(t@), key@) == Ok::<
                Seq<(Seq<char>, Seq<char>)>,
                Seq<char>,
            >(views(list@)),
            Err(e) => pairs_field(toml_entries_view(t@), key@) == Err::<
                Seq<(Seq<char>, Seq<char>)>,
                Seq<char>,
            >(e@),
        },
{
    let mut out: Vec<(String, String)> = Vec::new();
    assert(views(out@) =~= seq![]);
    match find_entry(t, key) {
        None => Ok(out),
        Some(TomlValue::Table(entries)) => {
            let ghost all = toml_entries_view(entries@);
            let mut i: usize = 0;
            proof {
                lemma_toml_entries_view(entries@);
            }
            while i < entries.len()
                invariant
                    0 <= i <= entries@.len(),
                    entry(toml_entries_view(t@), key@) == Some(TomlView::Table(all)),
                    all == toml_entries_view(entries@),
                    all.len() == entries@.len(),
                    forall|k: int|
                        0 <= k < entries@.len() ==> #[trigger] all[k] == (
                            entries@[k].0@,
                            entries@[k].1@,
                        ),
                    pairs_of(all.take(i as int), key@) == Ok::<
                        Seq<(Seq<char>, Seq<char>)>,
                        Seq<char>,
                    >(views(out@)),
                decreases entries@.len() - i,
            {
                let ghost before = out@;
                assert(all.take(i + 1).drop_last() =~= all.take(i as int));
                assert(all.take(i + 1).last() == all[i as int]);
                match &entries[i].1 {
                    TomlValue::Text(s) => {
                        out.push((entries[i].0.clone(), s.clone()));
                        assert(views(out@) =~= views(before).push(
                            (entries@[i as int].0@, s@),
                        ));
                    },
                    _ => {
                        proof {
                            lemma_pairs_error(all, key@, i + 1);
                        }
                        return Err(say_wrong_type(key, "a table of strings"));
                    },
                }
                i += 1;
            }
            assert(all.take(i as int) =~= all);
            Ok(out)
        },
        Some(_) => Err(say_wrong_type(key, "a table of strings")),
    }
}

fn get_text_or(t: &Vec<(String, TomlValue)>, key: &str, default: &str) -> (r: Result<
    String,
    String,
>)
    ensures
        match r {
            Ok(s) => text_or_field(toml_entries_view(t@), key@, default@) == Ok::<
                Seq<char>,
                Seq<char>,
            >(s@),
            Err(e) => text_or_field(toml_entries_view(t@), key@, default@) == Err::<
                Seq<char>,
                Seq<char>,
            >(e@),
        },
{
    match get_opt_text(t, key) {
        Ok(Some(s)) => Ok(s),
        Ok(None) => Ok(default.to_owned()),
        Err(e) => Err(e),
    }
}

/// The bearer token of a proxy, under either of its two names.
pub open spec fn bearer_field(t: Entries) -> Result<Option<Seq<char>>, Seq<char>> {
    match (opt_text_field(t, "bearer"@), opt_text_field(t, "token"@)) {
        (Err(e), _) => Err(e),
        (Ok(_), Err(e)) => Err(e),
        (Ok(Some(_)), Ok(Some(_))) => Err("duplicate field `bearer`"@),
        (Ok(Some(s)), Ok(None)) => Ok(Some(s)),
        (Ok(None), Ok(token)) => Ok(token),
    }
}

fn get_bearer(t: &Vec<(String, TomlValue)>) -> (r: Result<Option<String>, String>)
    ensures
        match r {
            Ok(s) => bearer_field(toml_entries_view(t@)) == Ok::<Option<Seq<char>>, Seq<char>>(
                opt_view(s),
            ),
            Err(e) => bearer_field(toml_entries_view(t@)) == Err::<Option<Seq<char>>, Seq<char>>(
                e@,
            ),
        },
{
    match get_opt_text(t, "bearer") {
        Err(e) => Err(e),
        Ok(bearer) => match get_opt_text(t, "token") {
            Err(e) => Err(e),
            Ok(token) => match (bearer, token) {
                (Some(_), Some(_)) => Err("duplicate field `bearer`".to_owned()),
                (Some(s), None) => Ok(Some(s)),
                (None, token) => Ok(token),
            },
        },
    }
}

// ---------------------------------------------------------------------------
// Sections

/// The entries of a section: those of a table, or the items of an array under
/// `names` in their order, of which at least the first `least` are there.
pub open spec fn section_entries(value: TomlView, names: Seq<Seq<char>>, least: nat) -> Result<
    Entries,
    Seq<char>,
> {
    match value {
        TomlView::Table(t) => Ok(t),
        TomlView::Array(items) => if least <= items.len() <= names.len() {
            Ok(Seq::new(items.len(), |k: int| (names[k], items[k])))
        } else {
            Err(WRONG_LENGTH@)
        },
        _ => Err("expected a table"@),
    }
}

/// The entries of a section that is written as an array, and none for a table.
fn place_items(value: &TomlValue, names: &Vec<String>, least: usize) -> (r: Result<
    Vec<(String, TomlValue)>,
    String,
>)
    ensures
        match r {
            Ok(placed) => section_entries(value@, views(names@), least as nat) == Ok::<
                Entries,
                Seq<char>,
            >(
                match value@ {
                    TomlView::Table(t) => t,
                    _ => toml_entries_view(placed@),
                },
            ),
            Err(e) => section_entries(value@, views(names@), least as nat) == Err::<
                Entries,
                Seq<char>,
            >(e@),
        },
{
    let items = match value {
        TomlValue::Table(_) => {
            return Ok(Vec::new());
        },
        TomlValue::Array(items) => items,
        _ => {
            return Err("expected a table".to_owned());
        },
    };
    proof {
        lemma_toml_items_view(items@);
    }
    if items.len() < least || items.len() > names.len() {
        return Err(WRONG_LENGTH.to_owned());
    }
    let mut out: Vec<(String, TomlValue)> = Vec::new();
    let mut i: usize = 0;
    while i < items.len()
        invariant
            0 <= i <= items@.len() <= names@.len(),
            out@.len() == i,
            forall|k: int|
                0 <= k < i ==> (#[trigger] out@[k]).0@ == names@[k]@ && out@[k].1@ == items@[k]@,
        decreases items@.len() - i,
    {
        out.push((names[i].clone(), items[i].dup()));
        i += 1;
    }
    proof {
        lemma_toml_entries_view(out@);
        let wanted = section_entries(value@, views(names@), least as nat)->Ok_0;
        assert forall|k: int| 0 <= k < out@.len() implies toml_entries_view(out@)[k]
            == wanted[k] by {
            assert(out@[k].0@ == names@[k]@);
        }
        assert(toml_entries_view(out@) =~= wanted);
    }
    Ok(out)
}

/// The keys of the `[server]` section.
pub open spec fn server_keys() -> Seq<Seq<char>> {
    seq!["host"@, "port"@, "auth_token"@, "allowed_origins"@, "max_body_bytes"@]
}

/// What the `[server]` section says.
pub open spec fn decoded_server(value: TomlView) -> Result<ServerConfigView, Seq<char>> {
    match section_entries(value, server_keys(), 0) {
        Ok(t) => {
            let host = text_or_field(t, "host"@, "127.0.0.1"@);
            let port = integer_field(t, "port"@, 8080, u16::MAX as u64);
            let auth_token = opt_text_field(t, "auth_token"@);
            let allowed_origins = texts_field(t, "allowed_origins"@);
            let max_body_bytes = integer_field(t, "max_body_bytes"@, 8_388_608, usize::MAX as u64);
            match either(
                unknown_field(t, server_keys()),
                either(error_of(host), either(error_of(port), either(error_of(auth_token),
                    either(error_of(allowed_origins), error_of(max_body_bytes))))),
            ) {
                Some(e) => Err(e),
                None => Ok(
                    ServerConfigView {
                        host: host->Ok_0,
                        port: port->Ok_0 as u16,
                        auth_token: auth_token->Ok_0,
                        allowed_origins: allowed_origins->Ok_0,
                        max_body_bytes: max_body_bytes->Ok_0 as usize,
                    },
                ),
            }
        },
        Err(e) => Err(e),
    }
}

/// Reads the `[server]` section.
pub fn decode_server(value: &TomlValue) -> (r: Result<ServerConfig, String>)
    ensures
        match r {
            Ok(section) => decoded_server(value@) == Ok::<ServerConfigView, Seq<char>>(section@),
            Err(e) => decoded_server(value@) == Err::<ServerConfigView, Seq<char>>(e@),
        },
{
    let known: Vec<String> = vec![
        "host".to_owned(),
        "port".to_owned(),
        "auth_token".to_owned(),
        "allowed_origins".to_owned(),
        "max_body_bytes".to_owned(),
    ];
    assert(views(known@) =~= server_keys());
    let placed = match place_items(value, &known, 0) {
        Ok(placed) => placed,
        Err(e) => {
            return Err(e);
        },
    };
    let t = match value {
        TomlValue::Table(t) => t,
        _ => &placed,
    };
    match refuse_unknown(t, &known) {
        Some(e) => {
            return Err(e);
        },
        None => {},
    }
    let host = match get_text_or(t, "host", "127.0.0.1") {
        Ok(v) => v,
        Err(e) => {
            return Err(e);
        },
    };
    let port: u16 = match get_integer(t, "port", 8080, u16::MAX as u64) {
        Ok(v) => v as u16,
        Err(e) => {
            return Err(e);
        },
    };
    let auth_token = match get_opt_text(t, "auth_token") {
        Ok(v) => v,
        Err(e) => {
            return Err(e);
        },
    };
    let allowed_origins = match get_texts(t, "allowed_origins") {
        Ok(v) => v,
        Err(e) => {
            return Err(e);
        },
    };
    let max_body_bytes: usize = match get_integer(
        t,
        "max_body_bytes",
        8_388_608,
        usize::MAX as u64,
    ) {
        Ok(v) => v as usize,
        Err(e) => {
            return Err(e);
        },
    };
    Ok(ServerConfig { host, port, auth_token, allowed_origins, max_body_bytes })
}


/// The keys of the `[limits]` section.
pub open spec fn limits_keys() -> Seq<Seq<char>> {
    seq![
        "default_tool_timeout"@,
        "max_tool_timeout"@,
        "discovery_timeout"@,
        "max_concurrent_calls"@,
        "max_concurrent_spawns"@,
        "discovery_ttl"@,
    ]
}

/// What the `[limits]` section says.
pub open spec fn decoded_limits(value: TomlView) -> Result<LimitsView, Seq<char>> {
    match section_entries(value, limits_keys(), 0) {
        Ok(t) => {
            let default_tool_timeout = duration_field(t, "default_tool_timeout"@, 30_000);
            let max_tool_timeout = duration_field(t, "max_tool_timeout"@, 300_000);
            let discovery_timeout = duration_field(t, "discovery_timeout"@, 2_500);
            let max_concurrent_calls = integer_field(
                t,
                "max_concurrent_calls"@,
                16,
                usize::MAX as u64,
            );
            let max_concurrent_spawns = integer_field(
                t,
                "max_concurrent_spawns"@,
                1,
                usize::MAX as u64,
            );
            let discovery_ttl = duration_field(t, "discovery_ttl"@, 60_000);
            match either(
                unknown_field(t, limits_keys()),
                either(error_of(default_tool_timeout), either(error_of(max_tool_timeout),
                    either(error_of(discovery_timeout), either(error_of(max_concurrent_calls),
                    either(error_of(max_concurrent_spawns), error_of(discovery_ttl)))))),
            ) {
                Some(e) => Err(e),
                None => Ok(
                    LimitsView {
                        default_tool_timeout: default_tool_timeout->Ok_0,
                        max_tool_timeout: max_tool_timeout->Ok_0,
                        discovery_timeout: discovery_timeout->Ok_0,
                        max_concurrent_calls: max_concurrent_calls->Ok_0 as usize,
                        max_concurrent_spawns: max_concurrent_spawns->Ok_0 as usize,
                        discovery_ttl: discovery_ttl->Ok_0,
                    },
                ),
            }
        },
        Err(e) => Err(e),
    }
}

/// Reads the `[limits]` section.
pub fn decode_limits(value: &TomlValue) -> (r: Result<Limits, String>)
    ensures
        match r {
            Ok(section) => decoded_limits(value@) == Ok::<LimitsView, Seq<char>>(section@),
            Err(e) => decoded_limits(value@) == Err::<LimitsView, Seq<char>>(e@),
        },
{
    let known: Vec<String> = vec![
        "default_tool_timeout".to_owned(),
        "max_tool_timeout".to_owned(),
        "discovery_timeout".to_owned(),
        "max_concurrent_calls".to_owned(),
        "max_concurrent_spawns".to_owned(),
        "discovery_ttl".to_owned(),
    ];
    assert(views(known@) =~= limits_keys());
    let placed = match place_items(value, &known, 0) {
        Ok(placed) => placed,
        Err(e) => {
            return Err(e);
        },
    };
    let t = match value {
        TomlValue::Table(t) => t,
        _ => &placed,
    };
    match refuse_unknown(t, &known) {
        Some(e) => {
            return Err(e);
        },
        None => {},
    }
    let default_tool_timeout = match get_duration(
        t,
        "default_tool_timeout",
        HumanDuration::secs(30),
    ) {
        Ok(v) => v,
        Err(e) => {
            return Err(e);
        },
    };
    let max_tool_timeout = match get_duration(t, "max_tool_timeout", HumanDuration::secs(300)) {
        Ok(v) => v,
        Err(e) => {
            return Err(e);
        },
    };
    let discovery_timeout = match get_duration(
        t,
        "discovery_timeout",
        HumanDuration::millis(2_500),
    ) {
        Ok(v) => v,
        Err(e) => {
            return Err(e);
        },
    };
    let max_concurrent_calls: usize = match get_integer(
        t,
        "max_concurrent_calls",
        16,
        usize::MAX as u64,
    ) {
        Ok(v) => v as usize,
        Err(e) => {
            return Err(e);
        },
    };
    let max_concurrent_spawns: usize = match get_integer(
        t,
        "max_concurrent_spawns",
        1,
        usize::MAX as u64,
    ) {
        Ok(v) => v as usize,
        Err(e) => {
            return Err(e);
        },
    };
    let discovery_ttl = match get_duration(t, "discovery_ttl", HumanDuration::secs(60)) {
        Ok(v) => v,
        Err(e) => {
            return Err(e);
        },
    };
    Ok(
        Limits {
            default_tool_timeout,
            max_tool_timeout,
            discovery_timeout,
            max_concurrent_calls,
            max_concurrent_spawns,
            discovery_ttl,
        },
    )
}


/// The keys of the `[tools]` section.
pub open spec fn tools_keys() -> Seq<Seq<char>> {
    seq![
        "allow_code_execution"@,
        "allow_ssh"@,
        "allow_file_mutation"@,
        "allowed_roots"@,
        "max_file_bytes"@,
    ]
}

/// What the `[tools]` section says.
pub open spec fn decoded_tools(value: TomlView) -> Result<ToolPolicyView, Seq<char>> {
    match section_entries(value, tools_keys(), 0) {
        Ok(t) => {
            let allow_code_execution = flag_field(t, "allow_code_execution"@, false);
            let allow_ssh = flag_field(t, "allow_ssh"@, false);
            let allow_file_mutation = flag_field(t, "allow_file_mutation"@, false);
            let allowed_roots = texts_field(t, "allowed_roots"@);
            let max_file_bytes = integer_field(t, "max_file_bytes"@, 67_108_864, u64::MAX);
            match either(
                unknown_field(t, tools_keys()),
                either(error_of(allow_code_execution), either(error_of(allow_ssh),
                    either(error_of(allow_file_mutation), either(error_of(allowed_roots),
                    error_of(max_file_bytes))))),
            ) {
                Some(e) => Err(e),
                None => Ok(
                    ToolPolicyView {
                        allow_code_execution: allow_code_execution->Ok_0,
                        allow_ssh: allow_ssh->Ok_0,
                        allow_file_mutation: allow_file_mutation->Ok_0,
                        allowed_roots: allowed_roots->Ok_0,
                        max_file_bytes: max_file_bytes->Ok_0,
                    },
                ),
            }
        },
        Err(e) => Err(e),
    }
}

/// Reads the `[tools]` section.
pub fn decode_tools(value: &TomlValue) -> (r: Result<ToolPolicy, String>)
    ensures
        match r {
            Ok(section) => decoded_tools(value@) == Ok::<ToolPolicyView, Seq<char>>(section@),
            Err(e) => decoded_tools(value@) == Err::<ToolPolicyView, Seq<char>>(e@),
        },
{
    let known: Vec<String> = vec![
        "allow_code_execution".to_owned(),
        "allow_ssh".to_owned(),
        "allow_file_mutation".to_owned(),
        "allowed_roots".to_owned(),
        "max_file_bytes".to_owned(),
    ];
    assert(views(known@) =~= tools_keys());
    let placed = match place_items(value, &known, 0) {
        Ok(placed) => placed,
        Err(e) => {
            return Err(e);
        },
    };
    let t = match value {
        TomlValue::Table(t) => t,
        _ => &placed,
    };
    match refuse_unknown(t, &known) {
        Some(e) => {
            return Err(e);
        },
        None => {},
    }
    let allow_code_execution: bool = match get_flag(t, "allow_code_execution", false) {
        Ok(v) => v,
        Err(e) => {
            return Err(e);
        },
    };
    let allow_ssh: bool = match get_flag(t, "allow_ssh", false) {
        Ok(v) => v,
        Err(e) => {
            return Err(e);
        },
    };
    let allow_file_mutation: bool = match get_flag(t, "allow_file_mutation", false) {
        Ok(v) => v,
        Err(e) => {
            return Err(e);
        },
    };
    let allowed_roots = match get_texts(t, "allowed_roots") {
        Ok(v) => v,
        Err(e) => {
            return Err(e);
        },
    };
    let max_file_bytes: u64 = match get_integer(t, "max_file_bytes", 67_108_864, u64::MAX) {
        Ok(v) => v,
        Err(e) => {
            return Err(e);
        },
    };
    Ok(
        ToolPolicy {
            allow_code_execution,
            allow_ssh,
            allow_file_mutation,
            allowed_roots,
            max_file_bytes,
        },
    )
}


/// The keys of one `[[ssh]]` table.
pub open spec fn ssh_server_keys() -> Seq<Seq<char>> {
    seq![
        "name"@,
        "host"@,
        "port"@,
        "user"@,
        "password"@,
        "private_key"@,
        "passphrase"@,
        "fingerprint"@,
        "socks_proxy"@,
        "whitelist"@,
        "blacklist"@,
        "bypass_allowed_roots"@,
        "enabled"@,
    ]
}

/// What one `[[ssh]]` table says.
pub open spec fn decoded_ssh_server(value: TomlView) -> Result<SshServerConfigView, Seq<char>> {
    match section_entries(value, ssh_server_keys(), 4) {
        Ok(t) => {
            let name = text_field(t, "name"@);
            let host = text_field(t, "host"@);
            let port = integer_field(t, "port"@, 22, u16::MAX as u64);
            let user = text_field(t, "user"@);
            let password = opt_text_field(t, "password"@);
            let private_key = opt_text_field(t, "private_key"@);
            let passphrase = opt_text_field(t, "passphrase"@);
            let fingerprint = opt_text_field(t, "fingerprint"@);
            let socks_proxy = opt_text_field(t, "socks_proxy"@);
            let whitelist = texts_field(t, "whitelist"@);
            let blacklist = texts_field(t, "blacklist"@);
            let bypass_allowed_roots = flag_field(t, "bypass_allowed_roots"@, false);
            let enabled = flag_field(t, "enabled"@, true);
            match either(
                unknown_field(t, ssh_server_keys()),
                either(error_of(name), either(error_of(host), either(error_of(port),
                    either(error_of(user), either(error_of(password),
                    either(error_of(private_key), either(error_of(passphrase),
                    either(error_of(fingerprint), either(error_of(socks_proxy),
                    either(error_of(whitelist), either(error_of(blacklist),
                    either(error_of(bypass_allowed_roots), error_of(enabled))))))))))))),
            ) {
                Some(e) => Err(e),
                None => Ok(
                    SshServerConfigView {
                        name: name->Ok_0,
                        host: host->Ok_0,
                        port: port->Ok_0 as u16,
                        user: user->Ok_0,
                        password: password->Ok_0,
                        private_key: private_key->Ok_0,
                        passphrase: passphrase->Ok_0,
                        fingerprint: fingerprint->Ok_0,
                        socks_proxy: socks_proxy->Ok_0,
                        whitelist: whitelist->Ok_0,
                        blacklist: blacklist->Ok_0,
                        bypass_allowed_roots: bypass_allowed_roots->Ok_0,
                        enabled: enabled->Ok_0,
                    },
                ),
            }
        },
        Err(e) => Err(e),
    }
}

/// Reads one `[[ssh]]` table.
pub fn decode_ssh_server(value: &TomlValue) -> (r: Result<SshServerConfig, String>)
    ensures
        match r {
            Ok(section) => decoded_ssh_server(value@) == Ok::<SshServerConfigView, Seq<char>>(
                section@,
            ),
            Err(e) => decoded_ssh_server(value@) == Err::<SshServerConfigView, Seq<char>>(e@),
        },
{
    let known: Vec<String> = vec![
        "name".to_owned(),
        "host".to_owned(),
        "port".to_owned(),
        "user".to_owned(),
        "password".to_owned(),
        "private_key".to_owned(),
        "passphrase".to_owned(),
        "fingerprint".to_owned(),
        "socks_proxy".to_owned(),
        "whitelist".to_owned(),
        "blacklist".to_owned(),
        "bypass_allowed_roots".to_owned(),
        "enabled".to_owned(),
    ];
    assert(views(known@) =~= ssh_server_keys());
    let placed = match place_items(value, &known, 4) {
        Ok(placed) => placed,
        Err(e) => {
            return Err(e);
        },
    };
    let t = match value {
        TomlValue::Table(t) => t,
        _ => &placed,
    };
    match refuse_unknown(t, &known) {
        Some(e) => {
            return Err(e);
        },
        None => {},
    }
    let name = match get_text(t, "name") {
        Ok(v) => v,
        Err(e) => {
            return Err(e);
        },
    };
    let host = match get_text(t, "host") {
        Ok(v) => v,
        Err(e) => {
            return Err(e);
        },
    };
    let port: u16 = match get_integer(t, "port", 22, u16::MAX as u64) {
        Ok(v) => v as u16,
        Err(e) => {
            return Err(e);
        },
    };
    let user = match get_text(t, "user") {
        Ok(v) => v,
        Err(e) => {
            return Err(e);
        },
    };
    let password = match get_opt_text(t, "password") {
        Ok(v) => v,
        Err(e) => {
            return Err(e);
        },
    };
    let private_key = match get_opt_text(t, "private_key") {
        Ok(v) => v,
        Err(e) => {
            return Err(e);
        },
    };
    let passphrase = match get_opt_text(t, "passphrase") {
        Ok(v) => v,
        Err(e) => {
            return Err(e);
        },
    };
    let fingerprint = match get_opt_text(t, "fingerprint") {
        Ok(v) => v,
        Err(e) => {
            return Err(e);
        },
    };
    let socks_proxy = match get_opt_text(t, "socks_proxy") {
        Ok(v) => v,
        Err(e) => {
            return Err(e);
        },
    };
    let whitelist = match get_texts(t, "whitelist") {
        Ok(v) => v,
        Err(e) => {
            return Err(e);
        },
    };
    let blacklist = match get_texts(t, "blacklist") {
        Ok(v) => v,
        Err(e) => {
            return Err(e);
        },
    };
    let bypass_allowed_roots: bool = match get_flag(t, "bypass_allowed_roots", false) {
        Ok(v) => v,
        Err(e) => {
            return Err(e);
        },
    };
    let enabled: bool = match get_flag(t, "enabled", true) {
        Ok(v) => v,
        Err(e) => {
            return Err(e);
        },
    };
    Ok(
        SshServerConfig {
            name,
            host,
            port,
            user,
            password,
            private_key,
            passphrase,
            fingerprint,
            socks_proxy,
            whitelist,
            blacklist,
            bypass_allowed_roots,
            enabled,
        },
    )
}


/// The keys of one `[[proxies]]` table.
pub open spec fn proxy_keys() -> Seq<Seq<char>> {
    seq!["name"@, "url"@, "bearer"@, "token"@, "headers"@, "timeout"@, "prefix"@, "enabled"@]
}

/// The fields of a proxy in their order.
pub open spec fn proxy_fields() -> Seq<Seq<char>> {
    seq!["name"@, "url"@, "bearer"@, "headers"@, "timeout"@, "prefix"@, "enabled"@]
}

/// What one `[[proxies]]` table says.
pub open spec fn decoded_proxy(value: TomlView) -> Result<ProxyConfigView, Seq<char>> {
    match section_entries(value, proxy_fields(), 2) {
        Ok(t) => {
            let name = text_field(t, "name"@);
            let url = text_field(t, "url"@);
            let bearer = bearer_field(t);
            let headers = pairs_field(t, "headers"@);
            let timeout = duration_field(t, "timeout"@, 30_000);
            let prefix = opt_text_field(t, "prefix"@);
            let enabled = flag_field(t, "enabled"@, true);
            match either(
                unknown_field(t, proxy_keys()),
                either(error_of(name), either(error_of(url), either(error_of(bearer),
                    either(error_of(headers), either(error_of(timeout), either(error_of(prefix),
                    error_of(enabled))))))),
            ) {
                Some(e) => Err(e),
                None => Ok(
                    ProxyConfigView {
                        name: name->Ok_0,
                        url: url->Ok_0,
                        bearer: bearer->Ok_0,
                        headers: headers->Ok_0,
                        timeout: timeout->Ok_0,
                        prefix: prefix->Ok_0,
                        enabled: enabled->Ok_0,
                    },
                ),
            }
        },
        Err(e) => Err(e),
    }
}

/// Reads one `[[proxies]]` table.
pub fn decode_proxy(value: &TomlValue) -> (r: Result<ProxyConfig, String>)
    ensures
        match r {
            Ok(section) => decoded_proxy(value@) == Ok::<ProxyConfigView, Seq<char>>(section@),
            Err(e) => decoded_proxy(value@) == Err::<ProxyConfigView, Seq<char>>(e@),
        },
{
    let known: Vec<String> = vec![
        "name".to_owned(),
        "url".to_owned(),
        "bearer".to_owned(),
        "token".to_owned(),
        "headers".to_owned(),
        "timeout".to_owned(),
        "prefix".to_owned(),
        "enabled".to_owned(),
    ];
    assert(views(known@) =~= proxy_keys());
    let fields: Vec<String> = vec![
        "name".to_owned(),
        "url".to_owned(),
        "bearer".to_owned(),
        "headers".to_owned(),
        "timeout".to_owned(),
        "prefix".to_owned(),
        "enabled".to_owned(),
    ];
    assert(views(fields@) =~= proxy_fields());
    let placed = match place_items(value, &fields, 2) {
        Ok(placed) => placed,
        Err(e) => {
            return Err(e);
        },
    };
    let t = match value {
        TomlValue::Table(t) => t,
        _ => &placed,
    };
    match refuse_unknown(t, &known) {
        Some(e) => {
            return Err(e);
        },
        None => {},
    }
    let name = match get_text(t, "name") {
        Ok(v) => v,
        Err(e) => {
            return Err(e);
        },
    };
    let url = match get_text(t, "url") {
        Ok(v) => v,
        Err(e) => {
            return Err(e);
        },
    };
    let bearer = match get_bearer(t) {
        Ok(v) => v,
        Err(e) => {
            return Err(e);
        },
    };
    let headers = match get_pairs(t, "headers") {
        Ok(v) => v,
        Err(e) => {
            return Err(e);
        },
    };
    let timeout = match get_duration(t, "timeout", HumanDuration::secs(30)) {
        Ok(v) => v,
        Err(e) => {
            return Err(e);
        },
    };
    let prefix = match get_opt_text(t, "prefix") {
        Ok(v) => v,
        Err(e) => {
            return Err(e);
        },
    };
    let enabled: bool = match get_flag(t, "enabled", true) {
        Ok(v) => v,
        Err(e) => {
            return Err(e);
        },
    };
    Ok(ProxyConfig { name, url, bearer, headers, timeout, prefix, enabled })
}


/// The keys of one `[[sidecars]]` table.
pub open spec fn sidecar_keys() -> Seq<Seq<char>> {
    seq![
        "name"@,
        "command"@,
        "args"@,
        "env"@,
        "inherit_env"@,
        "cwd"@,
        "lazy"@,
        "prefix"@,
        "startup_timeout"@,
        "restart_on_failure"@,
        "enabled"@,
    ]
}

/// What one `[[sidecars]]` table says.
pub open spec fn decoded_sidecar(value: TomlView) -> Result<SidecarConfigView, Seq<char>> {
    match section_entries(value, sidecar_keys(), 2) {
        Ok(t) => {
            let name = text_field(t, "name"@);
            let command = text_field(t, "command"@);
            let args = texts_field(t, "args"@);
            let env = pairs_field(t, "env"@);
            let inherit_env = opt_texts_field(t, "inherit_env"@);
            let cwd = opt_text_field(t, "cwd"@);
            let lazy = flag_field(t, "lazy"@, true);
            let prefix = opt_text_field(t, "prefix"@);
            let startup_timeout = duration_field(t, "startup_timeout"@, 20_000);
            let restart_on_failure = flag_field(t, "restart_on_failure"@, true);
            let enabled = flag_field(t, "enabled"@, true);
            match either(
                unknown_field(t, sidecar_keys()),
                either(error_of(name), either(error_of(command), either(error_of(args),
                    either(error_of(env), either(error_of(inherit_env), either(error_of(cwd),
                    either(error_of(lazy), either(error_of(prefix),
                    either(error_of(startup_timeout), either(error_of(restart_on_failure),
                    error_of(enabled))))))))))),
            ) {
                Some(e) => Err(e),
                None => Ok(
                    SidecarConfigView {
                        name: name->Ok_0,
                        command: command->Ok_0,
                        args: args->Ok_0,
                        env: env->Ok_0,
                        inherit_env: inherit_env->Ok_0,
                        cwd: cwd->Ok_0,
                        lazy: lazy->Ok_0,
                        prefix: prefix->Ok_0,
                        startup_timeout: startup_timeout->Ok_0,
                        restart_on_failure: restart_on_failure->Ok_0,
                        enabled: enabled->Ok_0,
                    },
                ),
            }
        },
        Err(e) => Err(e),
    }
}

/// Reads one `[[sidecars]]` table.
pub fn decode_sidecar(value: &TomlValue) -> (r: Result<SidecarConfig, String>)
    ensures
        match r {
            Ok(section) => decoded_sidecar(value@) == Ok::<SidecarConfigView, Seq<char>>(section@),
            Err(e) => decoded_sidecar(value@) == Err::<SidecarConfigView, Seq<char>>(e@),
        },
{
    let known: Vec<String> = vec![
        "name".to_owned(),
        "command".to_owned(),
        "args".to_owned(),
        "env".to_owned(),
        "inherit_env".to_owned(),
        "cwd".to_owned(),
        "lazy".to_owned(),
        "prefix".to_owned(),
        "startup_timeout".to_owned(),
        "restart_on_failure".to_owned(),
        "enabled".to_owned(),
    ];
    assert(views(known@) =~= sidecar_keys());
    let placed = match place_items(value, &known, 2) {
        Ok(placed) => placed,
        Err(e) => {
            return Err(e);
        },
    };
    let t = match value {
        TomlValue::Table(t) => t,
        _ => &placed,
    };
    match refuse_unknown(t, &known) {
        Some(e) => {
            return Err(e);
        },
        None => {},
    }
    let name = match get_text(t, "name") {
        Ok(v) => v,
        Err(e) => {
            return Err(e);
        },
    };
    let command = match get_text(t, "command") {
        Ok(v) => v,
        Err(e) => {
            return Err(e);
        },
    };
    let args = match get_texts(t, "args") {
        Ok(v) => v,
        Err(e) => {
            return Err(e);
        },
    };
    let env = match get_pairs(t, "env") {
        Ok(v) => v,
        Err(e) => {
            return Err(e);
        },
    };
    let inherit_env = match get_opt_texts(t, "inherit_env") {
        Ok(v) => v,
        Err(e) => {
            return Err(e);
        },
    };
    let cwd = match get_opt_text(t, "cwd") {
        Ok(v) => v,
        Err(e) => {
            return Err(e);
        },
    };
    let lazy: bool = match get_flag(t, "lazy", true) {
        Ok(v) => v,
        Err(e) => {
            return Err(e);
        },
    };
    let prefix = match get_opt_text(t, "prefix") {
        Ok(v) => v,
        Err(e) => {
            return Err(e);
        },
    };
    let startup_timeout = match get_duration(t, "startup_timeout", HumanDuration::secs(20)) {
        Ok(v) => v,
        Err(e) => {
            return Err(e);
        },
    };
    let restart_on_failure: bool = match get_flag(t, "restart_on_failure", true) {
        Ok(v) => v,
        Err(e) => {
            return Err(e);
        },
    };
    let enabled: bool = match get_flag(t, "enabled", true) {
        Ok(v) => v,
        Err(e) => {
            return Err(e);
        },
    };
    Ok(
        SidecarConfig {
            name,
            command,
            args,
            env,
            inherit_env,
            cwd,
            lazy,
            prefix,
            startup_timeout,
            restart_on_failure,
            enabled,
        },
    )
}

/// What a list of `[[proxies]]` tables says.
pub open spec fn decoded_proxy_list(items: Seq<TomlView>) -> Result<Seq<ProxyConfigView>, Seq<char>>
    decreases items.len(),
{
    if items.len() == 0 {
        Ok(seq![])
    } else {
        match decoded_proxy_list(items.drop_last()) {
            Err(e) => Err(e),
            Ok(done) => match decoded_proxy(items.last()) {
                Err(e) => Err(e),
                Ok(section) => Ok(done.push(section)),
            },
        }
    }
}

/// What the `[[proxies]]` tables of a document say; none where there are none.
pub open spec fn proxies_field(t: Entries) -> Result<Seq<ProxyConfigView>, Seq<char>> {
    match entry(t, "proxies"@) {
        None => Ok(seq![]),
        Some(TomlView::Array(items)) => decoded_proxy_list(items),
        Some(_) => Err(wrong_type("proxies"@, "an array of tables"@)),
    }
}

proof fn lemma_proxy_list_error(items: Seq<TomlView>, n: int)
    requires
        0 <= n <= items.len(),
        decoded_proxy_list(items.take(n)) is Err,
    ensures
        decoded_proxy_list(items) == decoded_proxy_list(items.take(n)),
    decreases items.len() - n,
{
    if n < items.len() {
        assert(items.take(n + 1).drop_last() =~= items.take(n));
        lemma_proxy_list_error(items, n + 1);
    } else {
        assert(items.take(n) =~= items);
    }
}

fn get_proxies(t: &Vec<(String, TomlValue)>) -> (r: Result<Vec<ProxyConfig>, String>)
    ensures
        match r {
            Ok(list) => proxies_field(toml_entries_view(t@))
                == Ok::<Seq<ProxyConfigView>, Seq<char>>(
                views(list@),
            ),
            Err(e) => proxies_field(toml_entries_view(t@))
                == Err::<Seq<ProxyConfigView>, Seq<char>>(
                e@,
            ),
        },
{
    let mut out: Vec<ProxyConfig> = Vec::new();
    assert(views(out@) =~= seq![]);
    match find_entry(t, "proxies") {
        None => Ok(out),
        Some(TomlValue::Array(items)) => {
            let ghost all = toml_items_view(items@);
            let mut i: usize = 0;
            proof {
                lemma_toml_items_view(items@);
            }
            while i < items.len()
                invariant
                    0 <= i <= items@.len(),
                    entry(toml_entries_view(t@), "proxies"@) == Some(TomlView::Array(all)),
                    all == toml_items_view(items@),
                    all.len() == items@.len(),
                    forall|k: int| 0 <= k < items@.len() ==> #[trigger] all[k] == items@[k]@,
                    decoded_proxy_list(all.take(i as int)) == Ok::<Seq<ProxyConfigView>, Seq<char>>(
                        views(out@),
                    ),
                decreases items@.len() - i,
            {
                let ghost before = out@;
                assert(all.take(i + 1).drop_last() =~= all.take(i as int));
                assert(all.take(i + 1).last() == items@[i as int]@);
                match decode_proxy(&items[i]) {
                    Ok(section) => {
                        out.push(section);
                        assert(views(out@) =~= views(before).push(section@));
                    },
                    Err(e) => {
                        proof {
                            lemma_proxy_list_error(all, i + 1);
                        }
                        return Err(e);
                    },
                }
                i += 1;
            }
            assert(all.take(i as int) =~= all);
            Ok(out)
        },
        Some(_) => Err(say_wrong_type("proxies", "an array of tables")),
    }
}


/// What a list of `[[sidecars]]` tables says.
pub open spec fn decoded_sidecar_list(items: Seq<TomlView>) -> Result<
    Seq<SidecarConfigView>,
    Seq<char>,
>
    decreases items.len(),
{
    if items.len() == 0 {
        Ok(seq![])
    } else {
        match decoded_sidecar_list(items.drop_last()) {
            Err(e) => Err(e),
            Ok(done) => match decoded_sidecar(items.last()) {
                Err(e) => Err(e),
                Ok(section) => Ok(done.push(section)),
            },
        }
    }
}

/// What the `[[sidecars]]` tables of a document say; none where there are none.
pub open spec fn sidecars_field(t: Entries) -> Result<Seq<SidecarConfigView>, Seq<char>> {
    match entry(t, "sidecars"@) {
        None => Ok(seq![]),
        Some(TomlView::Array(items)) => decoded_sidecar_list(items),
        Some(_) => Err(wrong_type("sidecars"@, "an array of tables"@)),
    }
}

proof fn lemma_sidecar_list_error(items: Seq<TomlView>, n: int)
    requires
        0 <= n <= items.len(),
        decoded_sidecar_list(items.take(n)) is Err,
    ensures
        decoded_sidecar_list(items) == decoded_sidecar_list(items.take(n)),
    decreases items.len() - n,
{
    if n < items.len() {
        assert(items.take(n + 1).drop_last() =~= items.take(n));
        lemma_sidecar_list_error(items, n + 1);
    } else {
        assert(items.take(n) =~= items);
    }
}

fn get_sidecars(t: &Vec<(String, TomlValue)>) -> (r: Result<Vec<SidecarConfig>, String>)
    ensures
        match r {
            Ok(list) => sidecars_field(toml_entries_view(t@))
                == Ok::<Seq<SidecarConfigView>, Seq<char>>(
                views(list@),
            ),
            Err(e) => sidecars_field(toml_entries_view(t@))
                == Err::<Seq<SidecarConfigView>, Seq<char>>(
                e@,
            ),
        },
{
    let mut out: Vec<SidecarConfig> = Vec::new();
    assert(views(out@) =~= seq![]);
    match find_entry(t, "sidecars") {
        None => Ok(out),
        Some(TomlValue::Array(items)) => {
            let ghost all = toml_items_view(items@);
            let mut i: usize = 0;
            proof {
                lemma_toml_items_view(items@);
            }
            while i < items.len()
                invariant
                    0 <= i <= items@.len(),
                    entry(toml_entries_view(t@), "sidecars"@) == Some(TomlView::Array(all)),
                    all == toml_items_view(items@),
                    all.len() == items@.len(),
                    forall|k: int| 0 <= k < items@.len() ==> #[trigger] all[k] == items@[k]@,
                    decoded_sidecar_list(all.take(i as int))
                        == Ok::<Seq<SidecarConfigView>, Seq<char>>(
                        views(out@),
                    ),
                decreases items@.len() - i,
            {
                let ghost before = out@;
                assert(all.take(i + 1).drop_last() =~= all.take(i as int));
                assert(all.take(i + 1).last() == items@[i as int]@);
                match decode_sidecar(&items[i]) {
                    Ok(section) => {
                        out.push(section);
                        assert(views(out@) =~= views(before).push(section@));
                    },
                    Err(e) => {
                        proof {
                            lemma_sidecar_list_error(all, i + 1);
                        }
                        return Err(e);
                    },
                }
                i += 1;
            }
            assert(all.take(i as int) =~= all);
            Ok(out)
        },
        Some(_) => Err(say_wrong_type("sidecars", "an array of tables")),
    }
}


/// What a list of `[[ssh]]` tables says.
pub open spec fn decoded_ssh_server_list(items: Seq<TomlView>) -> Result<
    Seq<SshServerConfigView>,
    Seq<char>,
>
    decreases items.len(),
{
    if items.len() == 0 {
        Ok(seq![])
    } else {
        match decoded_ssh_server_list(items.drop_last()) {
            Err(e) => Err(e),
            Ok(done) => match decoded_ssh_server(items.last()) {
                Err(e) => Err(e),
                Ok(section) => Ok(done.push(section)),
            },
        }
    }
}

/// What the `[[ssh]]` tables of a document say; none where there are none.
pub open spec fn ssh_field(t: Entries) -> Result<Seq<SshServerConfigView>, Seq<char>> {
    match entry(t, "ssh"@) {
        None => Ok(seq![]),
        Some(TomlView::Array(items)) => decoded_ssh_server_list(items),
        Some(_) => Err(wrong_type("ssh"@, "an array of tables"@)),
    }
}

proof fn lemma_ssh_server_list_error(items: Seq<TomlView>, n: int)
    requires
        0 <= n <= items.len(),
        decoded_ssh_server_list(items.take(n)) is Err,
    ensures
        decoded_ssh_server_list(items) == decoded_ssh_server_list(items.take(n)),
    decreases items.len() - n,
{
    if n < items.len() {
        assert(items.take(n + 1).drop_last() =~= items.take(n));
        lemma_ssh_server_list_error(items, n + 1);
    } else {
        assert(items.take(n) =~= items);
    }
}

fn get_ssh(t: &Vec<(String, TomlValue)>) -> (r: Result<Vec<SshServerConfig>, String>)
    ensures
        match r {
            Ok(list) => ssh_field(toml_entries_view(t@))
                == Ok::<Seq<SshServerConfigView>, Seq<char>>(
                views(list@),
            ),
            Err(e) => ssh_field(toml_entries_view(t@))
                == Err::<Seq<SshServerConfigView>, Seq<char>>(
                e@,
            ),
        },
{
    let mut out: Vec<SshServerConfig> = Vec::new();
    assert(views(out@) =~= seq![]);
    match find_entry(t, "ssh") {
        None => Ok(out),
        Some(TomlValue::Array(items)) => {
            let ghost all = toml_items_view(items@);
            let mut i: usize = 0;
            proof {
                lemma_toml_items_view(items@);
            }
            while i < items.len()
                invariant
                    0 <= i <= items@.len(),
                    entry(toml_entries_view(t@), "ssh"@) == Some(TomlView::Array(all)),
                    all == toml_items_view(items@),
                    all.len() == items@.len(),
                    forall|k: int| 0 <= k < items@.len() ==> #[trigger] all[k] == items@[k]@,
                    decoded_ssh_server_list(all.take(i as int))
                        == Ok::<Seq<SshServerConfigView>, Seq<char>>(
                        views(out@),
                    ),
                decreases items@.len() - i,
            {
                let ghost before = out@;
                assert(all.take(i + 1).drop_last() =~= all.take(i as int));
                assert(all.take(i + 1).last() == items@[i as int]@);
                match decode_ssh_server(&items[i]) {
                    Ok(section) => {
                        out.push(section);
                        assert(views(out@) =~= views(before).push(section@));
                    },
                    Err(e) => {
                        proof {
                            lemma_ssh_server_list_error(all, i + 1);
                        }
                        return Err(e);
                    },
                }
                i += 1;
            }
            assert(all.take(i as int) =~= all);
            Ok(out)
        },
        Some(_) => Err(say_wrong_type("ssh", "an array of tables")),
    }
}


/// What the `[server]` section of a document says; its defaults where there is none.
pub open spec fn server_section(t: Entries) -> Result<ServerConfigView, Seq<char>> {
    match entry(t, "server"@) {
        None => Ok(ServerConfigView::default_view()),
        Some(value) => decoded_server(value),
    }
}

fn get_server(t: &Vec<(String, TomlValue)>) -> (r: Result<ServerConfig, String>)
    ensures
        match r {
            Ok(section) => server_section(toml_entries_view(t@))
                == Ok::<ServerConfigView, Seq<char>>(
                section@,
            ),
            Err(e) => server_section(toml_entries_view(t@)) == Err::<ServerConfigView, Seq<char>>(
                e@,
            ),
        },
{
    match find_entry(t, "server") {
        None => Ok(ServerConfig::default()),
        Some(value) => decode_server(value),
    }
}


/// What the `[limits]` section of a document says; its defaults where there is none.
pub open spec fn limits_section(t: Entries) -> Result<LimitsView, Seq<char>> {
    match entry(t, "limits"@) {
        None => Ok(LimitsView::default_view()),
        Some(value) => decoded_limits(value),
    }
}

fn get_limits(t: &Vec<(String, TomlValue)>) -> (r: Result<Limits, String>)
    ensures
        match r {
            Ok(section) => limits_section(toml_entries_view(t@)) == Ok::<LimitsView, Seq<char>>(
                section@,
            ),
            Err(e) => limits_section(toml_entries_view(t@)) == Err::<LimitsView, Seq<char>>(e@),
        },
{
    match find_entry(t, "limits") {
        None => Ok(Limits::default()),
        Some(value) => decode_limits(value),
    }
}


/// What the `[tools]` section of a document says; its defaults where there is none.
pub open spec fn tools_section(t: Entries) -> Result<ToolPolicyView, Seq<char>> {
    match entry(t, "tools"@) {
        None => Ok(ToolPolicyView::default_view()),
        Some(value) => decoded_tools(value),
    }
}

fn get_tools(t: &Vec<(String, TomlValue)>) -> (r: Result<ToolPolicy, String>)
    ensures
        match r {
            Ok(section) => tools_section(toml_entries_view(t@)) == Ok::<ToolPolicyView, Seq<char>>(
                section@,
            ),
            Err(e) => tools_section(toml_entries_view(t@)) == Err::<ToolPolicyView, Seq<char>>(e@),
        },
{
    match find_entry(t, "tools") {
        None => Ok(ToolPolicy::default()),
        Some(value) => decode_tools(value),
    }
}


/// The sections of a document.
pub open spec fn config_keys() -> Seq<Seq<char>> {
    seq!["server"@, "limits"@, "tools"@, "proxies"@, "sidecars"@, "ssh"@]
}

/// What a whole document says.
pub open spec fn decoded_config(value: TomlView) -> Result<ConfigView, Seq<char>> {
    match value {
        TomlView::Table(t) => {
            let server = server_section(t);
            let limits = limits_section(t);
            let tools = tools_section(t);
            let proxies = proxies_field(t);
            let sidecars = sidecars_field(t);
            let ssh = ssh_field(t);
            match either(
                unknown_field(t, config_keys()),
                either(error_of(server), either(error_of(limits), either(error_of(tools),
                    either(error_of(proxies), either(error_of(sidecars), error_of(ssh)))))),
            ) {
                Some(e) => Err(e),
                None => Ok(
                    ConfigView {
                        server: server->Ok_0,
                        limits: limits->Ok_0,
                        tools: tools->Ok_0,
                        proxies: proxies->Ok_0,
                        sidecars: sidecars->Ok_0,
                        ssh: ssh->Ok_0,
                    },
                ),
            }
        },
        _ => Err("expected a table"@),
    }
}

/// The configuration that a text writes: read as TOML, its placeholders
/// expanded, its sections decoded, and the whole of it checked.
pub open spec fn loaded_config(path: Seq<char>, text: Seq<char>, env: Environment) -> Result<
    ConfigView,
    ConfigErrorView,
> {
    match parsed_toml(text) {
        Err(source) => Err(ConfigErrorView::Parse { path, source }),
        Ok(document) => match toml_expansion(document, env) {
            Err(err) => Err(err),
            Ok(document) => checked_config(path, document),
        },
    }
}

/// The configuration that an expanded document writes.
pub open spec fn checked_config(path: Seq<char>, document: TomlView) -> Result<
    ConfigView,
    ConfigErrorView,
> {
    match decoded_config(document) {
        Err(source) => Err(ConfigErrorView::Parse { path, source }),
        Ok(config) => match validation_error(config) {
            Some(message) => Err(ConfigErrorView::Invalid(message)),
            None => Ok(config),
        },
    }
}

impl Config {
    /// Reads a configuration out of a TOML document.
    pub fn from_toml(value: &TomlValue) -> (r: Result<Config, String>)
        ensures
            match r {
                Ok(config) => decoded_config(value@) == Ok::<ConfigView, Seq<char>>(config@),
                Err(e) => decoded_config(value@) == Err::<ConfigView, Seq<char>>(e@),
            },
    {
        let t = match value {
            TomlValue::Table(t) => t,
            _ => {
                return Err("expected a table".to_owned());
            },
        };
        let known: Vec<String> = vec![
            "server".to_owned(),
            "limits".to_owned(),
            "tools".to_owned(),
            "proxies".to_owned(),
            "sidecars".to_owned(),
            "ssh".to_owned(),
        ];
        assert(views(known@) =~= config_keys());
        match refuse_unknown(t, &known) {
            Some(e) => {
                return Err(e);
            },
            None => {},
        }

        let server = match get_server(t) {
            Ok(v) => v,
            Err(e) => {
                return Err(e);
            },
        };
        let limits = match get_limits(t) {
            Ok(v) => v,
            Err(e) => {
                return Err(e);
            },
        };
        let tools = match get_tools(t) {
            Ok(v) => v,
            Err(e) => {
                return Err(e);
            },
        };
        let proxies = match get_proxies(t) {
            Ok(v) => v,
            Err(e) => {
                return Err(e);
            },
        };
        let sidecars = match get_sidecars(t) {
            Ok(v) => v,
            Err(e) => {
                return Err(e);
            },
        };
        let ssh = match get_ssh(t) {
            Ok(v) => v,
            Err(e) => {
                return Err(e);
            },
        };
        Ok(Config { server, limits, tools, proxies, sidecars, ssh })
    }

    /// Decodes and checks an expanded document.
    pub fn from_document(path: &str, document: &TomlValue) -> (r: Result<Config, ConfigError>)
        ensures
            config_result(r) == checked_config(path@, document@),
    {
        match Config::from_toml(document) {
            Err(source) => Err(ConfigError::Parse { path: path.to_owned(), source }),
            Ok(config) => match config.validate() {
                Err(err) => Err(err),
                Ok(()) => Ok(config),
            },
        }
    }

    /// Expands `${VAR}` placeholders, parses and validates what was read from
    /// `path`.
    ///
    /// Expansion happens on parsed string *values*, not on the raw file text,
    /// so a `${VAR}` appearing in a comment is documentation rather than a
    /// lookup that fails at startup.
    pub fn load(path: &str, raw: Result<String, String>, env: &Environment) -> (r: Result<
        Config,
        ConfigError,
    >)
        ensures
            config_result(r) == match raw {
                Err(source) => Err::<ConfigView, ConfigErrorView>(
                    ConfigErrorView::Read { path: path@, source: source@ },
                ),
                Ok(text) => loaded_config(path@, text@, *env),
            },
    {
        let text = match raw {
            Err(source) => {
                return Err(ConfigError::Read { path: path.to_owned(), source });
            },
            Ok(text) => text,
        };
        match TomlValue::parse(&text) {
            Err(source) => Err(ConfigError::Parse { path: path.to_owned(), source }),
            Ok(document) => match expand_toml(&document, env) {
                Err(err) => Err(err),
                Ok(document) => Config::from_document(path, &document),
            },
        }
    }

    /// Loads what was read from `path` if the file exists, otherwise returns
    /// defaults.
    pub fn load_or_default(
        path: &str,
        raw: Option<Result<String, String>>,
        env: &Environment,
    ) -> (r: Result<Config, ConfigError>)
        ensures
            config_result(r) == match raw {
                None => Ok::<ConfigView, ConfigErrorView>(ConfigView::default_view()),
                Some(Err(source)) => Err::<ConfigView, ConfigErrorView>(
                    ConfigErrorView::Read { path: path@, source: source@ },
                ),
                Some(Ok(text)) => loaded_config(path@, text@, *env),
            },
    {
        match raw {
            None => Ok(Config::default()),
            Some(raw) => Config::load(path, raw, env),
        }
    }
}

/// A key that no section has is refused, never passed over.
pub proof fn lemma_typos_are_rejected(t: Entries, known: Seq<Seq<char>>, k: int)
    requires
        0 <= k < t.len(),
        !known.contains(t[k].0),
    ensures
        unknown_field(t, known) is Some,
    decreases t.len(),
{
    if k > 0 && known.contains(t[0].0) {
        assert(t.drop_first()[k - 1] == t[k]);
        lemma_typos_are_rejected(t.drop_first(), known, k - 1);
    }
}

/// A document with a key that its root does not have is not a configuration.
pub proof fn lemma_unknown_keys_fail(t: Entries, k: int)
    requires
        0 <= k < t.len(),
        !config_keys().contains(t[k].0),
    ensures
        decoded_config(TomlView::Table(t)) is Err,
{
    lemma_typos_are_rejected(t, config_keys(), k);
}

/// The empty document is the default configuration.
pub proof fn lemma_empty_document_is_default()
    ensures
        decoded_config(TomlView::Table(seq![])) == Ok::<ConfigView, Seq<char>>(
            ConfigView::default_view(),
        ),
{
}

/// Whatever loads has passed the checks.
pub proof fn lemma_loaded_config_is_valid(path: Seq<char>, text: Seq<char>, env: Environment)
    ensures
        loaded_config(path, text, env) matches Ok(config) ==> validation_error(config) is None,
{
}

} // verus!
