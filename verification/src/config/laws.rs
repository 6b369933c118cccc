//! What a configuration document says: every setting is the value of its own key,
//! or its default where the key is not there.

use vstd::prelude::*;

use super::decode::{
    bearer_field, config_keys, decoded_config, decoded_limits, decoded_proxy, decoded_proxy_list,
    decoded_server, decoded_sidecar, decoded_sidecar_list, decoded_ssh_server,
    decoded_ssh_server_list, decoded_tools, duration_field, entry, flag_field, integer_field,
    loaded_config,
    lemma_typos_are_rejected, limits_keys, opt_text_field, opt_texts_field, pairs_field, pairs_of,
    proxy_keys, server_keys, sidecar_keys, ssh_server_keys, text_field, text_or_field, texts_field,
    texts_of, tools_keys, unknown_field, Entries,
};
use super::duration::parsed_duration;
use super::interpolate::{expanded_toml, Environment};
use super::model::{
    ConfigView, LimitsView, ProxyConfigView, ServerConfigView, SidecarConfigView,
    SshServerConfigView, ToolPolicyView,
};
use super::toml_value::{parsed_toml, TomlView};
use super::validate::{is_sound, lemma_sound_configs_pass};
use crate::error::ConfigErrorView;

verus! {

/// Whether `value` is what a table holds under `key`: the first that is written there.
pub open spec fn holds(t: Entries, key: Seq<char>, value: TomlView) -> bool {
    exists|i: int|
        0 <= i < t.len() && #[trigger] t[i] == (key, value) && forall|j: int|
            0 <= j < i ==> (#[trigger] t[j]).0 != key
}

/// Whether a table has no `key`.
pub open spec fn lacks(t: Entries, key: Seq<char>) -> bool {
    forall|i: int| 0 <= i < t.len() ==> (#[trigger] t[i]).0 != key
}

/// Whether a table has no keys but the known ones.
pub open spec fn knows_all(t: Entries, known: Seq<Seq<char>>) -> bool {
    forall|i: int| 0 <= i < t.len() ==> known.contains((#[trigger] t[i]).0)
}

/// Whether the text under `key` is `value`.
pub open spec fn text_at(t: Entries, key: Seq<char>, value: Seq<char>) -> bool {
    holds(t, key, TomlView::Text(value))
}

/// Whether the text under `key` is `value`, or neither is there.
pub open spec fn opt_text_at(t: Entries, key: Seq<char>, value: Option<Seq<char>>) -> bool {
    match value {
        Some(text) => holds(t, key, TomlView::Text(text)),
        None => lacks(t, key),
    }
}

/// Whether the text under `key` is `value`, or `default` stands in for it.
pub open spec fn text_or_at(
    t: Entries,
    key: Seq<char>,
    default: Seq<char>,
    value: Seq<char>,
) -> bool {
    holds(t, key, TomlView::Text(value)) || (lacks(t, key) && value == default)
}

/// Whether the truth value under `key` is `value`, or `default` stands in for it.
pub open spec fn flag_at(t: Entries, key: Seq<char>, default: bool, value: bool) -> bool {
    holds(t, key, TomlView::Boolean(value)) || (lacks(t, key) && value == default)
}

/// Whether the integer under `key` is `value`, or `default` stands in for it.
pub open spec fn integer_at(t: Entries, key: Seq<char>, default: u64, value: u64) -> bool {
    (value <= i64::MAX && holds(t, key, TomlView::Integer(value as i64))) || (lacks(t, key)
        && value == default)
}

/// Whether the span of time under `key` is `value` milliseconds, or `default` stands
/// in for it.
pub open spec fn duration_at(t: Entries, key: Seq<char>, default: nat, value: nat) -> bool {
    (exists|text: Seq<char>| #[trigger]
        holds(t, key, TomlView::Text(text)) && parsed_duration(text) == Some(value)) || (lacks(
        t,
        key,
    ) && value == default)
}

/// The array of some texts.
pub open spec fn texts_value(list: Seq<Seq<char>>) -> TomlView {
    TomlView::Array(Seq::new(list.len(), |i: int| TomlView::Text(list[i])))
}

/// The table of some texts.
pub open spec fn pairs_value(list: Seq<(Seq<char>, Seq<char>)>) -> TomlView {
    TomlView::Table(Seq::new(list.len(), |i: int| (list[i].0, TomlView::Text(list[i].1))))
}

/// Whether the texts under `key` are `value`, which is empty where they are not there.
pub open spec fn texts_at(t: Entries, key: Seq<char>, value: Seq<Seq<char>>) -> bool {
    holds(t, key, texts_value(value)) || (lacks(t, key) && value.len() == 0)
}

/// Whether the texts under `key` are `value`, or neither is there.
pub open spec fn opt_texts_at(t: Entries, key: Seq<char>, value: Option<Seq<Seq<char>>>) -> bool {
    match value {
        Some(list) => holds(t, key, texts_value(list)),
        None => lacks(t, key),
    }
}

/// Whether the names and texts under `key` are `value`, which is empty where they are
/// not there.
pub open spec fn pairs_at(t: Entries, key: Seq<char>, value: Seq<(Seq<char>, Seq<char>)>) -> bool {
    holds(t, key, pairs_value(value)) || (lacks(t, key) && value.len() == 0)
}

proof fn lemma_entry(t: Entries, key: Seq<char>)
    ensures
        match entry(t, key) {
            Some(value) => holds(t, key, value) && !lacks(t, key),
            None => lacks(t, key),
        },
    decreases t.len(),
{
    if t.len() > 0 {
        if t[0].0 == key {
            assert(t[0] == (key, t[0].1));
        } else {
            let rest = t.drop_first();
            lemma_entry(rest, key);
            match entry(rest, key) {
                Some(value) => {
                    let i = choose|i: int|
                        0 <= i < rest.len() && #[trigger] rest[i] == (key, value) && forall|j: int|
                            0 <= j < i ==> (#[trigger] rest[j]).0 != key;
                    assert(t[i + 1] == (key, value));
                    assert forall|j: int| 0 <= j < i + 1 implies (#[trigger] t[j]).0 != key by {
                        if j > 0 {
                            assert(rest[j - 1] == t[j]);
                        }
                    }
                    assert(holds(t, key, value));
                },
                None => {
                    assert forall|i: int| 0 <= i < t.len() implies (#[trigger] t[i]).0 != key by {
                        if i > 0 {
                            assert(rest[i - 1] == t[i]);
                        }
                    }
                },
            }
        }
    }
}

proof fn lemma_held_once(t: Entries, key: Seq<char>, a: TomlView, b: TomlView)
    requires
        holds(t, key, a),
    ensures
        !lacks(t, key),
        holds(t, key, b) ==> a == b,
{
    let i = choose|i: int|
        0 <= i < t.len() && #[trigger] t[i] == (key, a) && forall|j: int|
            0 <= j < i ==> (#[trigger] t[j]).0 != key;
    assert(t[i].0 == key);
    if holds(t, key, b) {
        let k = choose|k: int|
            0 <= k < t.len() && #[trigger] t[k] == (key, b) && forall|j: int|
                0 <= j < k ==> (#[trigger] t[j]).0 != key;
        if i < k {
            assert(t[i].0 != key);
        } else if k < i {
            assert(t[k].0 != key);
        }
    }
}

/// Under a key stands one value or none.
pub proof fn lemma_lookup(t: Entries, key: Seq<char>, value: TomlView)
    ensures
        holds(t, key, value) <==> entry(t, key) == Some(value),
        lacks(t, key) <==> entry(t, key) is None,
{
    lemma_entry(t, key);
    match entry(t, key) {
        Some(found) => lemma_held_once(t, key, found, value),
        None => {
            if holds(t, key, value) {
                lemma_held_once(t, key, value, value);
            }
        },
    }
}

proof fn lemma_known(t: Entries, known: Seq<Seq<char>>)
    ensures
        unknown_field(t, known) is None <==> knows_all(t, known),
    decreases t.len(),
{
    if t.len() > 0 {
        let rest = t.drop_first();
        lemma_known(rest, known);
        if knows_all(t, known) {
            assert(known.contains(t[0].0));
            assert forall|i: int| 0 <= i < rest.len() implies known.contains(
                (#[trigger] rest[i]).0,
            ) by {
                assert(rest[i] == t[i + 1]);
            }
        } else {
            let k = choose|i: int| 0 <= i < t.len() && !known.contains((#[trigger] t[i]).0);
            lemma_typos_are_rejected(t, known, k);
        }
    }
}

proof fn lemma_text(t: Entries, key: Seq<char>, value: Seq<char>)
    ensures
        text_field(t, key) == Ok::<Seq<char>, Seq<char>>(value) <==> text_at(t, key, value),
{
    lemma_lookup(t, key, TomlView::Text(value));
}

proof fn lemma_opt_text(t: Entries, key: Seq<char>, value: Option<Seq<char>>)
    ensures
        opt_text_field(t, key) == Ok::<Option<Seq<char>>, Seq<char>>(value) <==> opt_text_at(
            t,
            key,
            value,
        ),
{
    lemma_lookup(
        t,
        key,
        TomlView::Text(
            match value {
                Some(text) => text,
                None => seq![],
            },
        ),
    );
}

proof fn lemma_text_or(t: Entries, key: Seq<char>, default: Seq<char>, value: Seq<char>)
    ensures
        text_or_field(t, key, default) == Ok::<Seq<char>, Seq<char>>(value) <==> text_or_at(
            t,
            key,
            default,
            value,
        ),
{
    lemma_lookup(t, key, TomlView::Text(value));
}

proof fn lemma_flag(t: Entries, key: Seq<char>, default: bool, value: bool)
    ensures
        flag_field(t, key, default) == Ok::<bool, Seq<char>>(value) <==> flag_at(
            t,
            key,
            default,
            value,
        ),
{
    lemma_lookup(t, key, TomlView::Boolean(value));
}

proof fn lemma_integer(t: Entries, key: Seq<char>, default: u64, max: u64, value: u64)
    requires
        default <= max,
        value <= max,
    ensures
        integer_field(t, key, default, max) == Ok::<u64, Seq<char>>(value) <==> integer_at(
            t,
            key,
            default,
            value,
        ),
{
    if value <= i64::MAX {
        lemma_lookup(t, key, TomlView::Integer(value as i64));
    } else {
        lemma_lookup(t, key, TomlView::Integer(0));
    }
}

proof fn lemma_duration(t: Entries, key: Seq<char>, default: nat, value: nat)
    ensures
        duration_field(t, key, default) == Ok::<nat, Seq<char>>(value) <==> duration_at(
            t,
            key,
            default,
            value,
        ),
{
    lemma_entry(t, key);
    if exists|text: Seq<char>| #[trigger]
        holds(t, key, TomlView::Text(text)) && parsed_duration(text) == Some(value) {
        let text = choose|text: Seq<char>| #[trigger]
            holds(t, key, TomlView::Text(text)) && parsed_duration(text) == Some(value);
        lemma_lookup(t, key, TomlView::Text(text));
    }
    match entry(t, key) {
        Some(found) => lemma_held_once(t, key, found, found),
        None => {},
    }
}

proof fn lemma_texts_of(items: Seq<TomlView>, key: Seq<char>, value: Seq<Seq<char>>)
    ensures
        texts_of(items, key) == Ok::<Seq<Seq<char>>, Seq<char>>(value) <==> TomlView::Array(items)
            == texts_value(value),
    decreases items.len(),
{
    let wanted = texts_value(value)->Array_0;
    if items.len() == 0 {
        if value.len() == 0 {
            assert(items =~= wanted);
            assert(value =~= seq![]);
        }
    } else if value.len() > 0 {
        let front = value.drop_last();
        lemma_texts_of(items.drop_last(), key, front);
        let less = texts_value(front)->Array_0;
        if items == wanted {
            assert(items.drop_last() =~= less);
            assert(items.last() == TomlView::Text(value.last()));
            assert(front.push(value.last()) =~= value);
        }
        if texts_of(items, key) == Ok::<Seq<Seq<char>>, Seq<char>>(value) {
            let done = texts_of(items.drop_last(), key)->Ok_0;
            lemma_texts_of(items.drop_last(), key, done);
            assert(done =~= front);
            assert(items.drop_last() == less);
            assert forall|i: int| 0 <= i < items.len() implies items[i] == wanted[i] by {
                if i < less.len() {
                    assert(items.drop_last()[i] == less[i]);
                }
            }
            assert(items =~= wanted);
        }
    } else {
        assert(wanted.len() == 0);
    }
}

proof fn lemma_pairs_of(
    items: Entries,
    key: Seq<char>,
    value: Seq<(Seq<char>, Seq<char>)>,
)
    ensures
        pairs_of(items, key) == Ok::<Seq<(Seq<char>, Seq<char>)>, Seq<char>>(value)
            <==> TomlView::Table(items) == pairs_value(value),
    decreases items.len(),
{
    let wanted = pairs_value(value)->Table_0;
    if items.len() == 0 {
        if value.len() == 0 {
            assert(items =~= wanted);
            assert(value =~= seq![]);
        }
    } else if value.len() > 0 {
        let front = value.drop_last();
        lemma_pairs_of(items.drop_last(), key, front);
        let less = pairs_value(front)->Table_0;
        if items == wanted {
            assert(items.drop_last() =~= less);
            assert(items.last() == (value.last().0, TomlView::Text(value.last().1)));
            assert(front.push(value.last()) =~= value);
        }
        if pairs_of(items, key) == Ok::<Seq<(Seq<char>, Seq<char>)>, Seq<char>>(value) {
            let done = pairs_of(items.drop_last(), key)->Ok_0;
            lemma_pairs_of(items.drop_last(), key, done);
            assert(done =~= front);
            assert(items.drop_last() == less);
            assert forall|i: int| 0 <= i < items.len() implies items[i] == wanted[i] by {
                if i < less.len() {
                    assert(items.drop_last()[i] == less[i]);
                }
            }
            assert(items =~= wanted);
        }
    } else {
        assert(wanted.len() == 0);
    }
}

proof fn lemma_opt_texts(t: Entries, key: Seq<char>, value: Option<Seq<Seq<char>>>)
    ensures
        opt_texts_field(t, key) == Ok::<Option<Seq<Seq<char>>>, Seq<char>>(value) <==> opt_texts_at(
            t,
            key,
            value,
        ),
{
    let list = match value {
        Some(list) => list,
        None => seq![],
    };
    lemma_lookup(t, key, texts_value(list));
    match entry(t, key) {
        Some(TomlView::Array(items)) => lemma_texts_of(items, key, list),
        _ => {},
    }
}

proof fn lemma_texts(t: Entries, key: Seq<char>, value: Seq<Seq<char>>)
    ensures
        texts_field(t, key) == Ok::<Seq<Seq<char>>, Seq<char>>(value) <==> texts_at(t, key, value),
{
    lemma_opt_texts(t, key, Some(value));
    lemma_lookup(t, key, texts_value(value));
    if value.len() == 0 {
        assert(value =~= seq![]);
    }
}

proof fn lemma_pairs(t: Entries, key: Seq<char>, value: Seq<(Seq<char>, Seq<char>)>)
    ensures
        pairs_field(t, key) == Ok::<Seq<(Seq<char>, Seq<char>)>, Seq<char>>(value) <==> pairs_at(
            t,
            key,
            value,
        ),
{
    lemma_lookup(t, key, pairs_value(value));
    match entry(t, key) {
        Some(TomlView::Table(items)) => lemma_pairs_of(items, key, value),
        _ => {},
    }
    if value.len() == 0 {
        assert(value =~= seq![]);
    }
}

/// Whether the token is the one under `bearer`, or under `token`, which stand for the
/// same; not both may be there.
pub open spec fn bearer_at(t: Entries, value: Option<Seq<char>>) -> bool {
    ||| opt_text_at(t, "bearer"@, value) && lacks(t, "token"@)
    ||| lacks(t, "bearer"@) && opt_text_at(t, "token"@, value)
}

proof fn lemma_bearer(t: Entries, value: Option<Seq<char>>)
    ensures
        bearer_field(t) == Ok::<Option<Seq<char>>, Seq<char>>(value) <==> bearer_at(t, value),
{
    lemma_opt_text(t, "bearer"@, value);
    lemma_opt_text(t, "token"@, value);
    lemma_opt_text(t, "bearer"@, None);
    lemma_opt_text(t, "token"@, None);
}

/// Whether one `[server]` section with these entries says `section`: each setting is the value
/// of its own key, or the default where the key is not there, and there are no other
/// keys.
pub open spec fn server_says(t: Entries, section: ServerConfigView) -> bool {
    &&& knows_all(t, server_keys())
    &&& text_or_at(t, "host"@, "127.0.0.1"@, section.host)
    &&& integer_at(t, "port"@, 8080, section.port as u64)
    &&& opt_text_at(t, "auth_token"@, section.auth_token)
    &&& texts_at(t, "allowed_origins"@, section.allowed_origins)
    &&& integer_at(t, "max_body_bytes"@, 8_388_608, section.max_body_bytes as u64)
}

/// One `[server]` section is read as what it says, and only where it says something.
pub proof fn lemma_server_is_read(t: Entries, section: ServerConfigView)
    ensures
        decoded_server(TomlView::Table(t)) == Ok::<ServerConfigView, Seq<char>>(section) <==> server_says(
            t,
            section,
        ),
{
    lemma_known(t, server_keys());
    lemma_text_or(t, "host"@, "127.0.0.1"@, section.host);
    lemma_integer(t, "port"@, 8080, u16::MAX as u64, section.port as u64);
    lemma_opt_text(t, "auth_token"@, section.auth_token);
    lemma_texts(t, "allowed_origins"@, section.allowed_origins);
    lemma_integer(t, "max_body_bytes"@, 8_388_608, usize::MAX as u64, section.max_body_bytes as u64);
}

/// One `[server]` section may be written as an array of its settings in their order.
pub proof fn lemma_server_by_position(items: Seq<TomlView>)
    requires
        0 <= items.len() <= 5,
    ensures
        decoded_server(TomlView::Array(items)) == decoded_server(
            TomlView::Table(
                Seq::new(
                    items.len(),
                    |i: int|
                        (
                            seq![
                                "host"@,
                                "port"@,
                                "auth_token"@,
                                "allowed_origins"@,
                                "max_body_bytes"@,
                            ][i],
                            items[i],
                        ),
                ),
            ),
        ),
{
    let t = Seq::new(
        items.len(),
        |i: int|
            (
                seq![
                    "host"@,
                    "port"@,
                    "auth_token"@,
                    "allowed_origins"@,
                    "max_body_bytes"@,
                ][i],
                items[i],
            ),
    );
    assert(super::decode::section_entries(
        TomlView::Array(items),
        server_keys(),
        0,
    )->Ok_0 =~= t);
}

/// Whether one `[limits]` section with these entries says `section`: each setting is the value
/// of its own key, or the default where the key is not there, and there are no other
/// keys.
pub open spec fn limits_says(t: Entries, section: LimitsView) -> bool {
    &&& knows_all(t, limits_keys())
    &&& duration_at(t, "default_tool_timeout"@, 30_000, section.default_tool_timeout)
    &&& duration_at(t, "max_tool_timeout"@, 300_000, section.max_tool_timeout)
    &&& duration_at(t, "discovery_timeout"@, 2_500, section.discovery_timeout)
    &&& integer_at(t, "max_concurrent_calls"@, 16, section.max_concurrent_calls as u64)
    &&& integer_at(t, "max_concurrent_spawns"@, 1, section.max_concurrent_spawns as u64)
    &&& duration_at(t, "discovery_ttl"@, 60_000, section.discovery_ttl)
}

/// One `[limits]` section is read as what it says, and only where it says something.
pub proof fn lemma_limits_is_read(t: Entries, section: LimitsView)
    ensures
        decoded_limits(TomlView::Table(t)) == Ok::<LimitsView, Seq<char>>(section) <==> limits_says(
            t,
            section,
        ),
{
    lemma_known(t, limits_keys());
    lemma_duration(t, "default_tool_timeout"@, 30_000, section.default_tool_timeout);
    lemma_duration(t, "max_tool_timeout"@, 300_000, section.max_tool_timeout);
    lemma_duration(t, "discovery_timeout"@, 2_500, section.discovery_timeout);
    lemma_integer(t, "max_concurrent_calls"@, 16, usize::MAX as u64, section.max_concurrent_calls as u64);
    lemma_integer(t, "max_concurrent_spawns"@, 1, usize::MAX as u64, section.max_concurrent_spawns as u64);
    lemma_duration(t, "discovery_ttl"@, 60_000, section.discovery_ttl);
}

/// One `[limits]` section may be written as an array of its settings in their order.
pub proof fn lemma_limits_by_position(items: Seq<TomlView>)
    requires
        0 <= items.len() <= 6,
    ensures
        decoded_limits(TomlView::Array(items)) == decoded_limits(
            TomlView::Table(
                Seq::new(
                    items.len(),
                    |i: int|
                        (
                            seq![
                                "default_tool_timeout"@,
                                "max_tool_timeout"@,
                                "discovery_timeout"@,
                                "max_concurrent_calls"@,
                                "max_concurrent_spawns"@,
                                "discovery_ttl"@,
                            ][i],
                            items[i],
                        ),
                ),
            ),
        ),
{
    let t = Seq::new(
        items.len(),
        |i: int|
            (
                seq![
                    "default_tool_timeout"@,
                    "max_tool_timeout"@,
                    "discovery_timeout"@,
                    "max_concurrent_calls"@,
                    "max_concurrent_spawns"@,
                    "discovery_ttl"@,
                ][i],
                items[i],
            ),
    );
    assert(super::decode::section_entries(
        TomlView::Array(items),
        limits_keys(),
        0,
    )->Ok_0 =~= t);
}

/// Whether one `[tools]` section with these entries says `section`: each setting is the value
/// of its own key, or the default where the key is not there, and there are no other
/// keys.
pub open spec fn tools_says(t: Entries, section: ToolPolicyView) -> bool {
    &&& knows_all(t, tools_keys())
    &&& flag_at(t, "allow_code_execution"@, false, section.allow_code_execution)
    &&& flag_at(t, "allow_ssh"@, false, section.allow_ssh)
    &&& flag_at(t, "allow_file_mutation"@, false, section.allow_file_mutation)
    &&& texts_at(t, "allowed_roots"@, section.allowed_roots)
    &&& integer_at(t, "max_file_bytes"@, 67_108_864, section.max_file_bytes as u64)
}

/// One `[tools]` section is read as what it says, and only where it says something.
pub proof fn lemma_tools_is_read(t: Entries, section: ToolPolicyView)
    ensures
        decoded_tools(TomlView::Table(t)) == Ok::<ToolPolicyView, Seq<char>>(section) <==> tools_says(
            t,
            section,
        ),
{
    lemma_known(t, tools_keys());
    lemma_flag(t, "allow_code_execution"@, false, section.allow_code_execution);
    lemma_flag(t, "allow_ssh"@, false, section.allow_ssh);
    lemma_flag(t, "allow_file_mutation"@, false, section.allow_file_mutation);
    lemma_texts(t, "allowed_roots"@, section.allowed_roots);
    lemma_integer(t, "max_file_bytes"@, 67_108_864, u64::MAX, section.max_file_bytes as u64);
}

/// One `[tools]` section may be written as an array of its settings in their order.
pub proof fn lemma_tools_by_position(items: Seq<TomlView>)
    requires
        0 <= items.len() <= 5,
    ensures
        decoded_tools(TomlView::Array(items)) == decoded_tools(
            TomlView::Table(
                Seq::new(
                    items.len(),
                    |i: int|
                        (
                            seq![
                                "allow_code_execution"@,
                                "allow_ssh"@,
                                "allow_file_mutation"@,
                                "allowed_roots"@,
                                "max_file_bytes"@,
                            ][i],
                            items[i],
                        ),
                ),
            ),
        ),
{
    let t = Seq::new(
        items.len(),
        |i: int|
            (
                seq![
                    "allow_code_execution"@,
                    "allow_ssh"@,
                    "allow_file_mutation"@,
                    "allowed_roots"@,
                    "max_file_bytes"@,
                ][i],
                items[i],
            ),
    );
    assert(super::decode::section_entries(
        TomlView::Array(items),
        tools_keys(),
        0,
    )->Ok_0 =~= t);
}

/// Whether one `[[ssh]]` table with these entries says `section`: each setting is the value
/// of its own key, or the default where the key is not there, and there are no other
/// keys.
pub open spec fn ssh_server_says(t: Entries, section: SshServerConfigView) -> bool {
    &&& knows_all(t, ssh_server_keys())
    &&& text_at(t, "name"@, section.name)
    &&& text_at(t, "host"@, section.host)
    &&& integer_at(t, "port"@, 22, section.port as u64)
    &&& text_at(t, "user"@, section.user)
    &&& opt_text_at(t, "password"@, section.password)
    &&& opt_text_at(t, "private_key"@, section.private_key)
    &&& opt_text_at(t, "passphrase"@, section.passphrase)
    &&& opt_text_at(t, "fingerprint"@, section.fingerprint)
    &&& opt_text_at(t, "socks_proxy"@, section.socks_proxy)
    &&& texts_at(t, "whitelist"@, section.whitelist)
    &&& texts_at(t, "blacklist"@, section.blacklist)
    &&& flag_at(t, "bypass_allowed_roots"@, false, section.bypass_allowed_roots)
    &&& flag_at(t, "enabled"@, true, section.enabled)
}

/// One `[[ssh]]` table is read as what it says, and only where it says something.
pub proof fn lemma_ssh_server_is_read(t: Entries, section: SshServerConfigView)
    ensures
        decoded_ssh_server(TomlView::Table(t)) == Ok::<SshServerConfigView, Seq<char>>(section) <==> ssh_server_says(
            t,
            section,
        ),
{
    lemma_known(t, ssh_server_keys());
    lemma_text(t, "name"@, section.name);
    lemma_text(t, "host"@, section.host);
    lemma_integer(t, "port"@, 22, u16::MAX as u64, section.port as u64);
    lemma_text(t, "user"@, section.user);
    lemma_opt_text(t, "password"@, section.password);
    lemma_opt_text(t, "private_key"@, section.private_key);
    lemma_opt_text(t, "passphrase"@, section.passphrase);
    lemma_opt_text(t, "fingerprint"@, section.fingerprint);
    lemma_opt_text(t, "socks_proxy"@, section.socks_proxy);
    lemma_texts(t, "whitelist"@, section.whitelist);
    lemma_texts(t, "blacklist"@, section.blacklist);
    lemma_flag(t, "bypass_allowed_roots"@, false, section.bypass_allowed_roots);
    lemma_flag(t, "enabled"@, true, section.enabled);
}

/// One `[[ssh]]` table may be written as an array of its settings in their order.
pub proof fn lemma_ssh_server_by_position(items: Seq<TomlView>)
    requires
        4 <= items.len() <= 13,
    ensures
        decoded_ssh_server(TomlView::Array(items)) == decoded_ssh_server(
            TomlView::Table(
                Seq::new(
                    items.len(),
                    |i: int|
                        (
                            seq![
                                "name"@,
                                "host"@,
                                "port"@,
                                "user"@,
                                "password"@,
                                "private_key"@,
                                "passphrase"@,
                                "fingerprint"@,
                                "socks_proxy"@,
                                "whitelist"@,
                                "blacklist"@,
                                "bypass_allowed_roots"@,
                                "enabled"@,
                            ][i],
                            items[i],
                        ),
                ),
            ),
        ),
{
    let t = Seq::new(
        items.len(),
        |i: int|
            (
                seq![
                    "name"@,
                    "host"@,
                    "port"@,
                    "user"@,
                    "password"@,
                    "private_key"@,
                    "passphrase"@,
                    "fingerprint"@,
                    "socks_proxy"@,
                    "whitelist"@,
                    "blacklist"@,
                    "bypass_allowed_roots"@,
                    "enabled"@,
                ][i],
                items[i],
            ),
    );
    assert(super::decode::section_entries(
        TomlView::Array(items),
        ssh_server_keys(),
        4,
    )->Ok_0 =~= t);
}

/// Whether one `[[proxies]]` table with these entries says `section`: each setting is the value
/// of its own key, or the default where the key is not there, and there are no other
/// keys.
pub open spec fn proxy_says(t: Entries, section: ProxyConfigView) -> bool {
    &&& knows_all(t, proxy_keys())
    &&& text_at(t, "name"@, section.name)
    &&& text_at(t, "url"@, section.url)
    &&& bearer_at(t, section.bearer)
    &&& pairs_at(t, "headers"@, section.headers)
    &&& duration_at(t, "timeout"@, 30_000, section.timeout)
    &&& opt_text_at(t, "prefix"@, section.prefix)
    &&& flag_at(t, "enabled"@, true, section.enabled)
}

/// One `[[proxies]]` table is read as what it says, and only where it says something.
pub proof fn lemma_proxy_is_read(t: Entries, section: ProxyConfigView)
    ensures
        decoded_proxy(TomlView::Table(t)) == Ok::<ProxyConfigView, Seq<char>>(section) <==> proxy_says(
            t,
            section,
        ),
{
    lemma_known(t, proxy_keys());
    lemma_text(t, "name"@, section.name);
    lemma_text(t, "url"@, section.url);
    lemma_bearer(t, section.bearer);
    lemma_pairs(t, "headers"@, section.headers);
    lemma_duration(t, "timeout"@, 30_000, section.timeout);
    lemma_opt_text(t, "prefix"@, section.prefix);
    lemma_flag(t, "enabled"@, true, section.enabled);
}

/// One `[[proxies]]` table may be written as an array of its settings in their order.
pub proof fn lemma_proxy_by_position(items: Seq<TomlView>)
    requires
        2 <= items.len() <= 7,
    ensures
        decoded_proxy(TomlView::Array(items)) == decoded_proxy(
            TomlView::Table(
                Seq::new(
                    items.len(),
                    |i: int|
                        (
                            seq![
                                "name"@,
                                "url"@,
                                "bearer"@,
                                "headers"@,
                                "timeout"@,
                                "prefix"@,
                                "enabled"@,
                            ][i],
                            items[i],
                        ),
                ),
            ),
        ),
{
    let t = Seq::new(
        items.len(),
        |i: int|
            (
                seq![
                    "name"@,
                    "url"@,
                    "bearer"@,
                    "headers"@,
                    "timeout"@,
                    "prefix"@,
                    "enabled"@,
                ][i],
                items[i],
            ),
    );
    assert(super::decode::section_entries(
        TomlView::Array(items),
        super::decode::proxy_fields(),
        2,
    )->Ok_0 =~= t);
}

/// Whether one `[[sidecars]]` table with these entries says `section`: each setting is the value
/// of its own key, or the default where the key is not there, and there are no other
/// keys.
pub open spec fn sidecar_says(t: Entries, section: SidecarConfigView) -> bool {
    &&& knows_all(t, sidecar_keys())
    &&& text_at(t, "name"@, section.name)
    &&& text_at(t, "command"@, section.command)
    &&& texts_at(t, "args"@, section.args)
    &&& pairs_at(t, "env"@, section.env)
    &&& opt_texts_at(t, "inherit_env"@, section.inherit_env)
    &&& opt_text_at(t, "cwd"@, section.cwd)
    &&& flag_at(t, "lazy"@, true, section.lazy)
    &&& opt_text_at(t, "prefix"@, section.prefix)
    &&& duration_at(t, "startup_timeout"@, 20_000, section.startup_timeout)
    &&& flag_at(t, "restart_on_failure"@, true, section.restart_on_failure)
    &&& flag_at(t, "enabled"@, true, section.enabled)
}

/// One `[[sidecars]]` table is read as what it says, and only where it says something.
pub proof fn lemma_sidecar_is_read(t: Entries, section: SidecarConfigView)
    ensures
        decoded_sidecar(TomlView::Table(t)) == Ok::<SidecarConfigView, Seq<char>>(section) <==> sidecar_says(
            t,
            section,
        ),
{
    lemma_known(t, sidecar_keys());
    lemma_text(t, "name"@, section.name);
    lemma_text(t, "command"@, section.command);
    lemma_texts(t, "args"@, section.args);
    lemma_pairs(t, "env"@, section.env);
    lemma_opt_texts(t, "inherit_env"@, section.inherit_env);
    lemma_opt_text(t, "cwd"@, section.cwd);
    lemma_flag(t, "lazy"@, true, section.lazy);
    lemma_opt_text(t, "prefix"@, section.prefix);
    lemma_duration(t, "startup_timeout"@, 20_000, section.startup_timeout);
    lemma_flag(t, "restart_on_failure"@, true, section.restart_on_failure);
    lemma_flag(t, "enabled"@, true, section.enabled);
}

/// One `[[sidecars]]` table may be written as an array of its settings in their order.
pub proof fn lemma_sidecar_by_position(items: Seq<TomlView>)
    requires
        2 <= items.len() <= 11,
    ensures
        decoded_sidecar(TomlView::Array(items)) == decoded_sidecar(
            TomlView::Table(
                Seq::new(
                    items.len(),
                    |i: int|
                        (
                            seq![
                                "name"@,
                                "command"@,
                                "args"@,
                                "env"@,
                                "inherit_env"@,
                                "cwd"@,
                                "lazy"@,
                                "prefix"@,
                                "startup_timeout"@,
                                "restart_on_failure"@,
                                "enabled"@,
                            ][i],
                            items[i],
                        ),
                ),
            ),
        ),
{
    let t = Seq::new(
        items.len(),
        |i: int|
            (
                seq![
                    "name"@,
                    "command"@,
                    "args"@,
                    "env"@,
                    "inherit_env"@,
                    "cwd"@,
                    "lazy"@,
                    "prefix"@,
                    "startup_timeout"@,
                    "restart_on_failure"@,
                    "enabled"@,
                ][i],
                items[i],
            ),
    );
    assert(super::decode::section_entries(
        TomlView::Array(items),
        sidecar_keys(),
        2,
    )->Ok_0 =~= t);
}

proof fn lemma_proxy_list(items: Seq<TomlView>, list: Seq<ProxyConfigView>)
    ensures
        decoded_proxy_list(items) == Ok::<Seq<ProxyConfigView>, Seq<char>>(list) <==> items.len()
            == list.len() && forall|i: int|
            0 <= i < items.len() ==> decoded_proxy(#[trigger] items[i]) == Ok::<
                ProxyConfigView,
                Seq<char>,
            >(list[i]),
    decreases items.len(),
{
    if items.len() == 0 {
        if list.len() == 0 {
            assert(list =~= seq![]);
        }
    } else if list.len() > 0 {
        let n = items.len() - 1;
        let front = items.drop_last();
        lemma_proxy_list(front, list.drop_last());
        if items.len() == list.len() && forall|i: int|
            0 <= i < items.len() ==> decoded_proxy(#[trigger] items[i]) == Ok::<
                ProxyConfigView,
                Seq<char>,
            >(list[i]) {
            assert forall|i: int| 0 <= i < front.len() implies decoded_proxy(#[trigger] front[i])
                == Ok::<ProxyConfigView, Seq<char>>(list.drop_last()[i]) by {
                assert(front[i] == items[i]);
            }
            assert(decoded_proxy(items[n]) == Ok::<ProxyConfigView, Seq<char>>(list[n]));
            assert(list.drop_last().push(list[n]) =~= list);
        }
        if decoded_proxy_list(items) == Ok::<Seq<ProxyConfigView>, Seq<char>>(list) {
            let done = decoded_proxy_list(front)->Ok_0;
            lemma_proxy_list(front, done);
            assert(done =~= list.drop_last());
            assert forall|i: int| 0 <= i < items.len() implies decoded_proxy(#[trigger] items[i])
                == Ok::<ProxyConfigView, Seq<char>>(list[i]) by {
                if i < front.len() {
                    assert(front[i] == items[i]);
                }
            }
        }
    }
}

proof fn lemma_sidecar_list(items: Seq<TomlView>, list: Seq<SidecarConfigView>)
    ensures
        decoded_sidecar_list(items) == Ok::<Seq<SidecarConfigView>, Seq<char>>(list) <==> items.len()
            == list.len() && forall|i: int|
            0 <= i < items.len() ==> decoded_sidecar(#[trigger] items[i]) == Ok::<
                SidecarConfigView,
                Seq<char>,
            >(list[i]),
    decreases items.len(),
{
    if items.len() == 0 {
        if list.len() == 0 {
            assert(list =~= seq![]);
        }
    } else if list.len() > 0 {
        let n = items.len() - 1;
        let front = items.drop_last();
        lemma_sidecar_list(front, list.drop_last());
        if items.len() == list.len() && forall|i: int|
            0 <= i < items.len() ==> decoded_sidecar(#[trigger] items[i]) == Ok::<
                SidecarConfigView,
                Seq<char>,
            >(list[i]) {
            assert forall|i: int| 0 <= i < front.len() implies decoded_sidecar(#[trigger] front[i])
                == Ok::<SidecarConfigView, Seq<char>>(list.drop_last()[i]) by {
                assert(front[i] == items[i]);
            }
            assert(decoded_sidecar(items[n]) == Ok::<SidecarConfigView, Seq<char>>(list[n]));
            assert(list.drop_last().push(list[n]) =~= list);
        }
        if decoded_sidecar_list(items) == Ok::<Seq<SidecarConfigView>, Seq<char>>(list) {
            let done = decoded_sidecar_list(front)->Ok_0;
            lemma_sidecar_list(front, done);
            assert(done =~= list.drop_last());
            assert forall|i: int| 0 <= i < items.len() implies decoded_sidecar(#[trigger] items[i])
                == Ok::<SidecarConfigView, Seq<char>>(list[i]) by {
                if i < front.len() {
                    assert(front[i] == items[i]);
                }
            }
        }
    }
}

proof fn lemma_ssh_server_list(items: Seq<TomlView>, list: Seq<SshServerConfigView>)
    ensures
        decoded_ssh_server_list(items) == Ok::<Seq<SshServerConfigView>, Seq<char>>(list) <==> items.len()
            == list.len() && forall|i: int|
            0 <= i < items.len() ==> decoded_ssh_server(#[trigger] items[i]) == Ok::<
                SshServerConfigView,
                Seq<char>,
            >(list[i]),
    decreases items.len(),
{
    if items.len() == 0 {
        if list.len() == 0 {
            assert(list =~= seq![]);
        }
    } else if list.len() > 0 {
        let n = items.len() - 1;
        let front = items.drop_last();
        lemma_ssh_server_list(front, list.drop_last());
        if items.len() == list.len() && forall|i: int|
            0 <= i < items.len() ==> decoded_ssh_server(#[trigger] items[i]) == Ok::<
                SshServerConfigView,
                Seq<char>,
            >(list[i]) {
            assert forall|i: int| 0 <= i < front.len() implies decoded_ssh_server(#[trigger] front[i])
                == Ok::<SshServerConfigView, Seq<char>>(list.drop_last()[i]) by {
                assert(front[i] == items[i]);
            }
            assert(decoded_ssh_server(items[n]) == Ok::<SshServerConfigView, Seq<char>>(list[n]));
            assert(list.drop_last().push(list[n]) =~= list);
        }
        if decoded_ssh_server_list(items) == Ok::<Seq<SshServerConfigView>, Seq<char>>(list) {
            let done = decoded_ssh_server_list(front)->Ok_0;
            lemma_ssh_server_list(front, done);
            assert(done =~= list.drop_last());
            assert forall|i: int| 0 <= i < items.len() implies decoded_ssh_server(#[trigger] items[i])
                == Ok::<SshServerConfigView, Seq<char>>(list[i]) by {
                if i < front.len() {
                    assert(front[i] == items[i]);
                }
            }
        }
    }
}

/// Whether the tables of a section, written in an array under `key`, say `list`, one
/// each and in order; nothing is said where the key is not there.
pub open spec fn proxies_say(t: Entries, list: Seq<ProxyConfigView>) -> bool {
    ||| lacks(t, "proxies"@) && list.len() == 0
    ||| exists|items: Seq<TomlView>| #[trigger]
        holds(t, "proxies"@, TomlView::Array(items)) && items.len() == list.len() && forall|i: int|
            0 <= i < items.len() ==> decoded_proxy(#[trigger] items[i]) == Ok::<
                ProxyConfigView,
                Seq<char>,
            >(list[i])
}

/// Whether the tables of a section, written in an array under `key`, say `list`, one
/// each and in order; nothing is said where the key is not there.
pub open spec fn sidecars_say(t: Entries, list: Seq<SidecarConfigView>) -> bool {
    ||| lacks(t, "sidecars"@) && list.len() == 0
    ||| exists|items: Seq<TomlView>| #[trigger]
        holds(t, "sidecars"@, TomlView::Array(items)) && items.len() == list.len() && forall|i: int|
            0 <= i < items.len() ==> decoded_sidecar(#[trigger] items[i]) == Ok::<
                SidecarConfigView,
                Seq<char>,
            >(list[i])
}

/// Whether the tables of a section, written in an array under `key`, say `list`, one
/// each and in order; nothing is said where the key is not there.
pub open spec fn ssh_says(t: Entries, list: Seq<SshServerConfigView>) -> bool {
    ||| lacks(t, "ssh"@) && list.len() == 0
    ||| exists|items: Seq<TomlView>| #[trigger]
        holds(t, "ssh"@, TomlView::Array(items)) && items.len() == list.len() && forall|i: int|
            0 <= i < items.len() ==> decoded_ssh_server(#[trigger] items[i]) == Ok::<
                SshServerConfigView,
                Seq<char>,
            >(list[i])
}

/// Every section of a document is read as what stands under its own name, in order
/// where there are several, and is at its defaults where it is not there; nothing
/// else may stand in a document.
pub proof fn lemma_config_is_read(t: Entries, config: ConfigView)
    requires
        decoded_config(TomlView::Table(t)) == Ok::<ConfigView, Seq<char>>(config),
    ensures
        knows_all(
            t,
            seq!["server"@, "limits"@, "tools"@, "proxies"@, "sidecars"@, "ssh"@],
        ),
        lacks(t, "server"@) ==> server_says(seq![], config.server),
        forall|v: TomlView| #[trigger]
            holds(t, "server"@, v) ==> decoded_server(v) == Ok::<ServerConfigView, Seq<char>>(
                config.server,
            ),
        lacks(t, "limits"@) ==> limits_says(seq![], config.limits),
        forall|v: TomlView| #[trigger]
            holds(t, "limits"@, v) ==> decoded_limits(v) == Ok::<LimitsView, Seq<char>>(
                config.limits,
            ),
        lacks(t, "tools"@) ==> tools_says(seq![], config.tools),
        forall|v: TomlView| #[trigger]
            holds(t, "tools"@, v) ==> decoded_tools(v) == Ok::<ToolPolicyView, Seq<char>>(
                config.tools,
            ),
        proxies_say(t, config.proxies),
        sidecars_say(t, config.sidecars),
        ssh_says(t, config.ssh),
{
    lemma_known(t, config_keys());
    let none = Seq::<(Seq<char>, TomlView)>::empty();
    lemma_server_is_read(none, config.server);
    lemma_limits_is_read(none, config.limits);
    lemma_tools_is_read(none, config.tools);
    lemma_entry(t, "server"@);
    lemma_entry(t, "limits"@);
    lemma_entry(t, "tools"@);
    lemma_entry(t, "proxies"@);
    lemma_entry(t, "sidecars"@);
    lemma_entry(t, "ssh"@);
    assert forall|v: TomlView| #[trigger] holds(t, "server"@, v) implies decoded_server(v) == Ok::<
        ServerConfigView,
        Seq<char>,
    >(config.server) by {
        lemma_lookup(t, "server"@, v);
    }
    assert forall|v: TomlView| #[trigger] holds(t, "limits"@, v) implies decoded_limits(v) == Ok::<
        LimitsView,
        Seq<char>,
    >(config.limits) by {
        lemma_lookup(t, "limits"@, v);
    }
    assert forall|v: TomlView| #[trigger] holds(t, "tools"@, v) implies decoded_tools(v) == Ok::<
        ToolPolicyView,
        Seq<char>,
    >(config.tools) by {
        lemma_lookup(t, "tools"@, v);
    }
    match entry(t, "proxies"@) {
        Some(TomlView::Array(items)) => {
            lemma_proxy_list(items, config.proxies);
            assert(holds(t, "proxies"@, TomlView::Array(items)));
        },
        _ => {},
    }
    match entry(t, "sidecars"@) {
        Some(TomlView::Array(items)) => {
            lemma_sidecar_list(items, config.sidecars);
            assert(holds(t, "sidecars"@, TomlView::Array(items)));
        },
        _ => {},
    }
    match entry(t, "ssh"@) {
        Some(TomlView::Array(items)) => {
            lemma_ssh_server_list(items, config.ssh);
            assert(holds(t, "ssh"@, TomlView::Array(items)));
        },
        _ => {},
    }
}

/// A document is read, then its placeholders are expanded, then its sections are
/// decoded, and what comes out is checked; each step can fail with an error of its
/// own, and a configuration comes out only where none does.
pub proof fn lemma_loading(path: Seq<char>, text: Seq<char>, env: Environment)
    ensures
        match loaded_config(path, text, env) {
            Ok(config) => exists|written: TomlView, meant: TomlView|
                #![trigger expanded_toml(written, env), decoded_config(meant)]
                parsed_toml(text) == Ok::<TomlView, Seq<char>>(written) && expanded_toml(
                    written,
                    env,
                ) == Ok::<TomlView, Seq<char>>(meant) && decoded_config(meant) == Ok::<
                    ConfigView,
                    Seq<char>,
                >(config) && is_sound(config),
            Err(ConfigErrorView::MissingEnv { var }) => parsed_toml(text) matches Ok(written)
                && expanded_toml(written, env) == Err::<TomlView, Seq<char>>(var),
            Err(ConfigErrorView::Invalid(_)) => exists|meant: TomlView| #[trigger]
                decoded_config(meant) matches Ok(config) && !is_sound(config),
            Err(ConfigErrorView::Parse { path: at, source }) => at == path,
            Err(_) => false,
        },
{
    match loaded_config(path, text, env) {
        Ok(config) => {
            lemma_sound_configs_pass(config);
            let written = parsed_toml(text)->Ok_0;
            let meant = expanded_toml(written, env)->Ok_0;
            assert(decoded_config(meant) == Ok::<ConfigView, Seq<char>>(config));
        },
        Err(ConfigErrorView::Invalid(_)) => {
            let written = parsed_toml(text)->Ok_0;
            let meant = expanded_toml(written, env)->Ok_0;
            assert(decoded_config(meant) is Ok);
            lemma_sound_configs_pass(decoded_config(meant)->Ok_0);
        },
        _ => {},
    }
}

} // verus!
