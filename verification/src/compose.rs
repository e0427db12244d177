//! Overlays of a service-stack document: every published host port shifted
//! by an offset, every container name suffixed with the instance it belongs
//! to, and all the rest as it was.

use vstd::prelude::*;
use vstd::string::*;
use serde_yaml::{Mapping, Value};
use crate::env::Env;
use crate::names::{sanitize_chars, sanitized};
use crate::ports::{
    env_number, lemma_short_port_shifts, lemma_short_port_zero, plain_number, plain_short,
    push_note, push_warning, resolve_env_number, rewrite_short_port, short_port, MAX_PORT,
};
use crate::text::{
    all_digits, chars_of, decimal_chars, decimal_text, decimal_value, ends_with, has_suffix,
    lemma_decimal_text_value, push_all, same_text, string_of, views,
};
use crate::yaml::{
    emitted_yaml, mapping_clone, mapping_entries, mapping_pairs, mapping_set_value, nodes,
    number_as_u64, pair_nodes, parsed_yaml, shape, value_clone, value_mapping, value_node,
    value_sequence, value_text, value_unsigned, yaml_error_text, yaml_from_str, yaml_to_string,
    Node, NumberNode, Shape,
};

verus! {

/// The index of the first entry whose key is the text `key`, or the number of
/// entries where there is none.
pub open spec fn entry_index(entries: Seq<(Node, Node)>, key: Seq<char>) -> int
    decreases entries.len(),
{
    if entries.len() == 0 {
        0
    } else if entries[0].0 == Node::Text(key) {
        0
    } else {
        1 + entry_index(entries.drop_first(), key)
    }
}

/// The value under the text key `key`, if the entries have that key.
pub open spec fn entry_value(entries: Seq<(Node, Node)>, key: Seq<char>) -> Option<Node> {
    let i = entry_index(entries, key);
    if 0 <= i < entries.len() {
        Some(entries[i].1)
    } else {
        None
    }
}

/// The entries with `value` in place of the value of entry `i`.
pub open spec fn with_value(entries: Seq<(Node, Node)>, i: int, value: Node) -> Seq<
    (Node, Node),
> {
    entries.update(i, (entries[i].0, value))
}

/// `entry_index` is the least index whose key is the text `key`.
pub proof fn lemma_entry_index(entries: Seq<(Node, Node)>, key: Seq<char>)
    ensures
        0 <= entry_index(entries, key) <= entries.len(),
        forall|j: int|
            0 <= j < entry_index(entries, key) ==> (#[trigger] entries[j]).0 != Node::Text(key),
        entry_index(entries, key) < entries.len() ==> entries[entry_index(entries, key)].0
            == Node::Text(key),
    decreases entries.len(),
{
    if entries.len() > 0 && entries[0].0 != Node::Text(key) {
        let rest = entries.drop_first();
        lemma_entry_index(rest, key);
        assert forall|j: int| 0 <= j < entry_index(entries, key) implies (#[trigger] entries[j]).0
            != Node::Text(key) by {
            if j > 0 {
                assert(entries[j] == rest[j - 1]);
            }
        }
    }
}

/// An index that holds the first entry under `key` is `entry_index`.
pub proof fn lemma_entry_index_is(entries: Seq<(Node, Node)>, key: Seq<char>, k: int)
    requires
        0 <= k <= entries.len(),
        forall|j: int| 0 <= j < k ==> (#[trigger] entries[j]).0 != Node::Text(key),
        k < entries.len() ==> entries[k].0 == Node::Text(key),
    ensures
        entry_index(entries, key) == k,
{
    lemma_entry_index(entries, key);
}

/// Replacing values leaves every key where it is.
pub proof fn lemma_entry_index_with_value(
    entries: Seq<(Node, Node)>,
    i: int,
    value: Node,
    key: Seq<char>,
)
    requires
        0 <= i < entries.len(),
    ensures
        entry_index(with_value(entries, i, value), key) == entry_index(entries, key),
{
    lemma_entry_index(entries, key);
    let k = entry_index(entries, key);
    let changed = with_value(entries, i, value);
    assert forall|j: int| 0 <= j < k implies (#[trigger] changed[j]).0 != Node::Text(key) by {
        assert(changed[j].0 == entries[j].0);
    }
    lemma_entry_index_is(changed, key, k);
}

/// A long-form entry after its published port is shifted by `offset`: the new
/// entries, whether the port was shifted, and the warnings raised.
///
/// Without `published` the entry stays. A number that is a port is shifted
/// and stays a number; a text is resolved as a host port is, shifted, and
/// stays a text. What cannot be resolved, would pass 65535 or is of another
/// kind leaves the entry as it is, with a warning.
pub open spec fn long_port(
    entries: Seq<(Node, Node)>,
    offset: u16,
    env: Map<Seq<char>, Seq<char>>,
) -> (Seq<(Node, Node)>, bool, Seq<Seq<char>>) {
    let i = entry_index(entries, "published"@);
    match entry_value(entries, "published"@) {
        None => (entries, false, Seq::empty()),
        Some(Node::Number(NumberNode::Unsigned(p))) => if p + offset > MAX_PORT {
            (entries, false, seq!["Published port overflow"@])
        } else {
            (
                with_value(entries, i, Node::Number(NumberNode::Unsigned((p + offset) as u64))),
                true,
                Seq::empty(),
            )
        },
        Some(Node::Number(_)) => (entries, false, seq!["Non-integer published port; skipping"@]),
        Some(Node::Text(text)) => {
            let (number, warnings) = env_number(text, env);
            match number {
                None => (
                    entries,
                    false,
                    if warnings.len() == 0 {
                        seq!["Non-numeric published port: "@ + text]
                    } else {
                        warnings
                    },
                ),
                Some(p) => if p + offset > MAX_PORT {
                    (entries, false, warnings.push("Published port overflow"@))
                } else {
                    (
                        with_value(entries, i, Node::Text(decimal_text((p + offset) as nat))),
                        true,
                        warnings,
                    )
                },
            }
        },
        Some(_) => (entries, false, seq!["Unsupported published port type"@]),
    }
}

/// One entry of a `ports` list after rewriting: the new entry, whether its
/// port was shifted, and the warnings raised. An entry that is neither a text
/// nor a mapping stays, with a warning.
pub open spec fn port_item(item: Node, offset: u16, env: Map<Seq<char>, Seq<char>>) -> (
    Node,
    bool,
    Seq<Seq<char>>,
) {
    match item {
        Node::Text(value) => {
            let (text, changed, warnings) = short_port(value, offset, env);
            (Node::Text(text), changed, warnings)
        },
        Node::Mapping(entries) => {
            let (shifted, changed, warnings) = long_port(entries, offset, env);
            (Node::Mapping(shifted), changed, warnings)
        },
        _ => (item, false, seq!["ports entry has unsupported type; skipping"@]),
    }
}

/// The entries of a `ports` list after rewriting, each in its place.
pub open spec fn port_items(items: Seq<Node>, offset: u16, env: Map<Seq<char>, Seq<char>>) -> Seq<
    Node,
> {
    Seq::new(items.len(), |i: int| port_item(items[i], offset, env).0)
}

/// Whether rewriting shifts the port of any entry of a `ports` list.
pub open spec fn port_items_changed(
    items: Seq<Node>,
    offset: u16,
    env: Map<Seq<char>, Seq<char>>,
) -> bool {
    exists|i: int| 0 <= i < items.len() && #[trigger] port_item(items[i], offset, env).1
}

/// The warnings that rewriting a `ports` list raises, entry by entry.
pub open spec fn port_items_warnings(
    items: Seq<Node>,
    offset: u16,
    env: Map<Seq<char>, Seq<char>>,
) -> Seq<Seq<char>>
    decreases items.len(),
{
    if items.len() == 0 {
        Seq::empty()
    } else {
        port_items_warnings(items.drop_last(), offset, env) + port_item(
            items.last(),
            offset,
            env,
        ).2
    }
}

/// The value of `ports` after rewriting: the new list and whether any port in
/// it was shifted, where the value is a list; and the warnings raised. A
/// value that is no list raises one.
pub open spec fn ports_field(ports: Node, offset: u16, env: Map<Seq<char>, Seq<char>>) -> (
    Option<(Seq<Node>, bool)>,
    Seq<Seq<char>>,
) {
    match ports {
        Node::Sequence(items) => (
            Some((port_items(items, offset, env), port_items_changed(items, offset, env))),
            port_items_warnings(items, offset, env),
        ),
        _ => (None, seq!["ports is not a list; skipping"@]),
    }
}

/// The container name `base` with the suffix of the instance `instance`,
/// where it gets one: both the name and the sanitized instance name are not
/// empty, and the name does not end with the suffix yet.
pub open spec fn suffixed_name(base: Seq<char>, instance: Seq<char>) -> Option<Seq<char>> {
    let suffix = seq!['-'] + sanitized(instance);
    if base.len() == 0 || sanitized(instance).len() == 0 || ends_with(base, suffix) {
        None
    } else {
        Some(base + suffix)
    }
}

/// The value of `container_name` after rewriting, where it changes, and the
/// warnings raised. A value that is no text raises one.
pub open spec fn name_field(name: Node, instance: Seq<char>) -> (Option<Node>, Seq<Seq<char>>) {
    match name {
        Node::Text(base) => (
            match suffixed_name(base, instance) {
                Some(text) => Some(Node::Text(text)),
                None => None,
            },
            Seq::empty(),
        ),
        _ => (None, seq!["container_name is not a string; skipping"@]),
    }
}

/// The place of the first entry whose key is the text `key`.
pub fn find_entry(pairs: &Vec<(&Value, &Value)>, key: &str) -> (r: Option<usize>)
    ensures
        match r {
            Some(i) => i == entry_index(pair_nodes(pairs@), key@) && i < pairs.len(),
            None => entry_index(pair_nodes(pairs@), key@) == pairs.len(),
        },
{
    let mut i: usize = 0;
    while i < pairs.len()
        invariant
            0 <= i <= pairs.len(),
            forall|j: int| 0 <= j < i ==> (#[trigger] pair_nodes(pairs@)[j]).0 != Node::Text(key@),
        decreases pairs.len() - i,
    {
        assert(pair_nodes(pairs@)[i as int].0 == value_node(*pairs@[i as int].0));
        match shape(pairs[i].0) {
            Shape::Text(name) => {
                if same_text(name.as_str(), key) {
                    proof {
                        lemma_entry_index_is(pair_nodes(pairs@), key@, i as int);
                    }
                    return Some(i);
                }
            },
            _ => {},
        }
        i += 1;
    }
    proof {
        lemma_entry_index_is(pair_nodes(pairs@), key@, i as int);
    }
    None
}

/// Shifts the published port of the long-form entry `map` by `port_offset`.
///
/// Returns the entry to write and whether its port was shifted. The kind of
/// `published`, number or text, is kept. An entry without `published`, or
/// whose port cannot be shifted, is returned as it came; the reasons are
/// added to `warnings`.
pub fn rewrite_long_port(
    map: &Mapping,
    port_offset: u16,
    env: &Env,
    warnings: &mut Vec<String>,
) -> (r: (Mapping, bool))
    ensures
        mapping_entries(r.0) == long_port(mapping_entries(*map), port_offset, env@).0,
        r.1 == long_port(mapping_entries(*map), port_offset, env@).1,
        views(final(warnings)@) == views(old(warnings)@) + long_port(
            mapping_entries(*map),
            port_offset,
            env@,
        ).2,
{
    proof {
        assert(views(warnings@) + Seq::<Seq<char>>::empty() =~= views(warnings@));
    }
    let ghost entries = mapping_entries(*map);
    let mut new_map = mapping_clone(map);
    let pairs = mapping_pairs(map);
    let place = match find_entry(&pairs, "published") {
        Some(place) => place,
        None => {
            return (new_map, false);
        },
    };
    assert(entries[place as int].1 == value_node(*pairs@[place as int].1));
    let (published, is_text) = match shape(pairs[place].1) {
        Shape::Number(number) => match number_as_u64(number) {
            Some(p) => (p, false),
            None => {
                push_note(warnings, "Non-integer published port; skipping");
                proof {
                    assert(views(warnings@) =~= views(old(warnings)@) + seq![
                        "Non-integer published port; skipping"@,
                    ]);
                }
                return (new_map, false);
            },
        },
        Shape::Text(text) => {
            let before = warnings.len();
            let ghost found = env_number(text@, env@);
            match resolve_env_number(text.as_str(), env, warnings) {
                Some(p) => (p, true),
                None => {
                    assert(views(warnings@).len() == views(old(warnings)@).len() + found.1.len());
                    if warnings.len() == before {
                        let subject = chars_of(text.as_str());
                        push_warning(warnings, "Non-numeric published port: ", subject.as_slice());
                        proof {
                            assert(views(warnings@) =~= views(old(warnings)@) + seq![
                                "Non-numeric published port: "@ + text@,
                            ]);
                        }
                    }
                    return (new_map, false);
                },
            }
        },
        _ => {
            push_note(warnings, "Unsupported published port type");
            proof {
                assert(views(warnings@) =~= views(old(warnings)@) + seq![
                    "Unsupported published port type"@,
                ]);
            }
            return (new_map, false);
        },
    };
    if published > MAX_PORT - port_offset as u64 {
        let ghost sofar = views(warnings@);
        push_note(warnings, "Published port overflow");
        proof {
            if is_text {
                let found = env_number(entries[place as int].1->Text_0, env@);
                assert(views(warnings@) =~= views(old(warnings)@) + found.1.push(
                    "Published port overflow"@,
                ));
            } else {
                assert(views(warnings@) =~= views(old(warnings)@) + seq![
                    "Published port overflow"@,
                ]);
            }
        }
        return (new_map, false);
    }
    let shifted: u64 = published + port_offset as u64;
    let new_value = if is_text {
        let digits = decimal_chars(shifted);
        value_text(string_of(digits.as_slice()))
    } else {
        value_unsigned(shifted)
    };
    mapping_set_value(&mut new_map, place, new_value);
    (new_map, true)
}

/// Shifts every published host port of a `ports` value by `port_offset`.
///
/// Returns the entries to write and whether any port was shifted, or nothing
/// where the value is no list. Entries that cannot be shifted are kept as
/// they came; the reasons are added to `warnings`.
pub fn rewrite_ports(
    ports_value: &Value,
    port_offset: u16,
    env: &Env,
    warnings: &mut Vec<String>,
) -> (r: Option<(Vec<Value>, bool)>)
    ensures
        match r {
            Some(pair) => ports_field(value_node(*ports_value), port_offset, env@).0 == Some(
                (nodes(pair.0@), pair.1),
            ),
            None => ports_field(value_node(*ports_value), port_offset, env@).0 is None,
        },
        views(final(warnings)@) == views(old(warnings)@) + ports_field(
            value_node(*ports_value),
            port_offset,
            env@,
        ).1,
{
    let items = match shape(ports_value) {
        Shape::Sequence(items) => items,
        _ => {
            push_note(warnings, "ports is not a list; skipping");
            proof {
                assert(views(warnings@) =~= views(old(warnings)@) + seq![
                    "ports is not a list; skipping"@,
                ]);
            }
            return None;
        },
    };
    let ghost all = nodes(items@);
    let mut changed = false;
    let mut new_ports: Vec<Value> = Vec::new();
    let mut i: usize = 0;
    proof {
        assert(views(warnings@) + Seq::<Seq<char>>::empty() =~= views(warnings@));
        assert(nodes(new_ports@) =~= port_items(all.take(0), port_offset, env@));
    }
    while i < items.len()
        invariant
            0 <= i <= items.len(),
            all == nodes(items@),
            nodes(new_ports@) == port_items(all.take(i as int), port_offset, env@),
            changed == port_items_changed(all.take(i as int), port_offset, env@),
            views(warnings@) == views(old(warnings)@) + port_items_warnings(
                all.take(i as int),
                port_offset,
                env@,
            ),
        decreases items.len() - i,
    {
        let ghost before = views(warnings@);
        let ghost done = all.take(i as int);
        let ghost next = all.take(i + 1);
        let ghost item = port_item(all[i as int], port_offset, env@);
        let ghost written = nodes(new_ports@);
        assert(all[i as int] == value_node(items@[i as int]));
        match shape(&items[i]) {
            Shape::Text(value) => {
                let (text, did_change) = rewrite_short_port(
                    value.as_str(),
                    port_offset,
                    env,
                    warnings,
                );
                new_ports.push(value_text(text));
                if did_change {
                    changed = true;
                }
            },
            Shape::Mapping(map) => {
                let (new_map, did_change) = rewrite_long_port(map, port_offset, env, warnings);
                new_ports.push(value_mapping(new_map));
                if did_change {
                    changed = true;
                }
            },
            _ => {
                push_note(warnings, "ports entry has unsupported type; skipping");
                new_ports.push(value_clone(&items[i]));
                proof {
                    assert(views(warnings@) =~= before + seq![
                        "ports entry has unsupported type; skipping"@,
                    ]);
                }
            },
        }
        proof {
            assert(next.drop_last() =~= done);
            assert(next.last() == all[i as int]);
            assert(views(warnings@) =~= views(old(warnings)@) + port_items_warnings(
                next,
                port_offset,
                env@,
            ));
            assert(nodes(new_ports@) =~= written.push(item.0));
            assert(nodes(new_ports@) =~= port_items(next, port_offset, env@)) by {
                assert forall|j: int| 0 <= j < next.len() implies nodes(new_ports@)[j]
                    == port_items(next, port_offset, env@)[j] by {
                    if j < i {
                        assert(written[j] == port_items(done, port_offset, env@)[j]);
                        assert(done[j] == next[j]);
                    }
                }
            }
            if port_items_changed(done, port_offset, env@) {
                let k = choose|k: int|
                    0 <= k < done.len() && #[trigger] port_item(done[k], port_offset, env@).1;
                assert(next[k] == done[k]);
            }
            if item.1 {
                assert(port_item(next[i as int], port_offset, env@).1);
            }
            if port_items_changed(next, port_offset, env@) {
                let k = choose|k: int|
                    0 <= k < next.len() && #[trigger] port_item(next[k], port_offset, env@).1;
                if k < i {
                    assert(done[k] == next[k]);
                }
            }
        }
        i += 1;
    }
    proof {
        assert(all.take(items.len() as int) =~= all);
    }
    Some((new_ports, changed))
}

/// The sanitized form of an instance name, as it is appended to container
/// names.
pub fn sanitize_container_name(name: &str) -> (r: String)
    ensures
        r@ == sanitized(name@),
{
    crate::names::sanitize_name(name)
}

/// Appends the suffix of the instance `worktree_name` to a `container_name`
/// value.
///
/// Returns the value to write, or nothing where the name stays: it is empty,
/// the instance has no name left after sanitizing, or the suffix is there
/// already. A value that is no text stays too, and adds a warning.
pub fn rewrite_container_name(value: &Value, worktree_name: &str, warnings: &mut Vec<String>) -> (r:
    Option<Value>)
    ensures
        match r {
            Some(v) => name_field(value_node(*value), worktree_name@).0 == Some(value_node(v)),
            None => name_field(value_node(*value), worktree_name@).0 is None,
        },
        views(final(warnings)@) == views(old(warnings)@) + name_field(
            value_node(*value),
            worktree_name@,
        ).1,
{
    let base = match shape(value) {
        Shape::Text(base) => base,
        _ => {
            push_note(warnings, "container_name is not a string; skipping");
            proof {
                assert(views(warnings@) =~= views(old(warnings)@) + seq![
                    "container_name is not a string; skipping"@,
                ]);
            }
            return None;
        },
    };
    proof {
        assert(views(warnings@) + Seq::<Seq<char>>::empty() =~= views(warnings@));
    }
    let name = chars_of(base.as_str());
    let instance = chars_of(worktree_name);
    let clean = sanitize_chars(instance.as_slice());
    if name.len() == 0 || clean.len() == 0 {
        return None;
    }
    let mut suffix: Vec<char> = Vec::new();
    suffix.push('-');
    push_all(&mut suffix, clean.as_slice());
    assert(suffix@ =~= seq!['-'] + sanitized(worktree_name@));
    if has_suffix(name.as_slice(), suffix.as_slice()) {
        return None;
    }
    let mut full = name;
    push_all(&mut full, suffix.as_slice());
    Some(value_text(string_of(full.as_slice())))
}

/// A service definition after rewriting, and the warnings raised: its
/// `ports` with every host port shifted, where any was, and its
/// `container_name` with the suffix of the instance, where it gets one. A
/// definition that is no mapping stays as it is.
pub open spec fn service_rewritten(
    service: Node,
    offset: u16,
    instance: Seq<char>,
    env: Map<Seq<char>, Seq<char>>,
) -> (Node, Seq<Seq<char>>) {
    match service {
        Node::Mapping(entries) => {
            let (ports, port_warnings) = match entry_value(entries, "ports"@) {
                Some(value) => ports_field(value, offset, env),
                None => (None, Seq::empty()),
            };
            let shifted = match ports {
                Some((items, true)) => with_value(
                    entries,
                    entry_index(entries, "ports"@),
                    Node::Sequence(items),
                ),
                _ => entries,
            };
            let (name, name_warnings) = match entry_value(entries, "container_name"@) {
                Some(value) => name_field(value, instance),
                None => (None, Seq::empty()),
            };
            let named = match name {
                Some(value) => with_value(
                    shifted,
                    entry_index(entries, "container_name"@),
                    value,
                ),
                None => shifted,
            };
            (Node::Mapping(named), port_warnings + name_warnings)
        },
        _ => (service, Seq::empty()),
    }
}

/// The entries of `services` after rewriting: every key with its rewritten
/// definition, each in its place.
pub open spec fn services_rewritten(
    services: Seq<(Node, Node)>,
    offset: u16,
    instance: Seq<char>,
    env: Map<Seq<char>, Seq<char>>,
) -> Seq<(Node, Node)> {
    Seq::new(
        services.len(),
        |i: int| (services[i].0, service_rewritten(services[i].1, offset, instance, env).0),
    )
}

/// The warnings that rewriting the services raises, service by service.
pub open spec fn services_warnings(
    services: Seq<(Node, Node)>,
    offset: u16,
    instance: Seq<char>,
    env: Map<Seq<char>, Seq<char>>,
) -> Seq<Seq<char>>
    decreases services.len(),
{
    if services.len() == 0 {
        Seq::empty()
    } else {
        services_warnings(services.drop_last(), offset, instance, env) + service_rewritten(
            services.last().1,
            offset,
            instance,
            env,
        ).1
    }
}

/// The overlay of a document, and the warnings raised; nothing where the
/// document is no mapping. Where the document has no mapping under
/// `services`, it stays as it is, with a warning.
pub open spec fn document_rewritten(
    document: Node,
    offset: u16,
    instance: Seq<char>,
    env: Map<Seq<char>, Seq<char>>,
) -> Option<(Node, Seq<Seq<char>>)> {
    match document {
        Node::Mapping(top) => match entry_value(top, "services"@) {
            Some(Node::Mapping(services)) => Some(
                (
                    Node::Mapping(
                        with_value(
                            top,
                            entry_index(top, "services"@),
                            Node::Mapping(services_rewritten(services, offset, instance, env)),
                        ),
                    ),
                    services_warnings(services, offset, instance, env),
                ),
            ),
            _ => Some((document, seq!["No services found in compose base"@])),
        },
        _ => None,
    }
}

/// Rewrites one service definition for the instance `instance`.
pub fn rewrite_service(
    service: &Value,
    port_offset: u16,
    instance: &str,
    env: &Env,
    warnings: &mut Vec<String>,
) -> (r: Value)
    ensures
        value_node(r) == service_rewritten(value_node(*service), port_offset, instance@, env@).0,
        views(final(warnings)@) == views(old(warnings)@) + service_rewritten(
            value_node(*service),
            port_offset,
            instance@,
            env@,
        ).1,
{
    proof {
        assert(views(warnings@) + Seq::<Seq<char>>::empty() =~= views(warnings@));
    }
    let map = match shape(service) {
        Shape::Mapping(map) => map,
        _ => {
            return value_clone(service);
        },
    };
    let ghost entries = mapping_entries(*map);
    let pairs = mapping_pairs(map);
    let mut new_map = mapping_clone(map);
    let ghost start = views(warnings@);
    match find_entry(&pairs, "ports") {
        Some(place) => {
            assert(entries[place as int].1 == value_node(*pairs@[place as int].1));
            match rewrite_ports(pairs[place].1, port_offset, env, warnings) {
                Some((new_ports, changed)) => {
                    if changed {
                        mapping_set_value(&mut new_map, place, value_sequence(new_ports));
                    }
                },
                None => {},
            }
        },
        None => {},
    }
    let ghost middle = views(warnings@);
    match find_entry(&pairs, "container_name") {
        Some(place) => {
            assert(entries[place as int].1 == value_node(*pairs@[place as int].1));
            match rewrite_container_name(pairs[place].1, instance, warnings) {
                Some(new_name) => {
                    mapping_set_value(&mut new_map, place, new_name);
                },
                None => {},
            }
        },
        None => {},
    }
    proof {
        let result = service_rewritten(value_node(*service), port_offset, instance@, env@);
        assert(views(warnings@) =~= views(old(warnings)@) + result.1);
    }
    value_mapping(new_map)
}

/// What went wrong while an overlay was made or read.
#[derive(Debug)]
pub enum ComposeError {
    /// The text is not YAML; the parser's message.
    Parse(String),
    /// The document is YAML, but no mapping.
    NotAMapping,
    /// The overlay could not be written as YAML; the writer's message.
    Serialize(String),
}

impl ComposeError {
    /// A sentence that says what went wrong.
    pub fn message(&self) -> (r: String)
        ensures
            r@ == match self {
                ComposeError::Parse(detail) => "Failed to parse compose document: "@ + detail@,
                ComposeError::NotAMapping => "Compose document is not a mapping"@,
                ComposeError::Serialize(detail) => "Failed to serialize compose: "@ + detail@,
            },
    {
        match self {
            ComposeError::Parse(detail) => {
                let mut text = String::from_str("Failed to parse compose document: ");
                text.append(detail.as_str());
                text
            },
            ComposeError::NotAMapping => String::from_str("Compose document is not a mapping"),
            ComposeError::Serialize(detail) => {
                let mut text = String::from_str("Failed to serialize compose: ");
                text.append(detail.as_str());
                text
            },
        }
    }
}

/// Rewrites a parsed document into the overlay of one instance: every
/// published host port shifted by `port_offset`, every container name
/// suffixed with `instance`, everything else untouched.
///
/// Fails only where the document is no mapping. What could not be rewritten
/// stays as it was and is reported in the warnings.
pub fn rewrite(document: &Value, port_offset: u16, instance: &str, env: &Env) -> (r: Result<
    (Value, Vec<String>),
    ComposeError,
>)
    ensures
        match r {
            Ok(done) => document_rewritten(value_node(*document), port_offset, instance@, env@)
                == Some((value_node(done.0), views(done.1@))),
            Err(e) => e is NotAMapping && document_rewritten(
                value_node(*document),
                port_offset,
                instance@,
                env@,
            ) is None,
        },
{
    let mut warnings: Vec<String> = Vec::new();
    let top = match shape(document) {
        Shape::Mapping(top) => top,
        _ => {
            return Err(ComposeError::NotAMapping);
        },
    };
    let top_pairs = mapping_pairs(top);
    let ghost top_entries = mapping_entries(*top);
    let found = match find_entry(&top_pairs, "services") {
        Some(place) => {
            assert(top_entries[place as int].1 == value_node(*top_pairs@[place as int].1));
            match shape(top_pairs[place].1) {
                Shape::Mapping(services) => Some((place, services)),
                _ => None,
            }
        },
        None => None,
    };
    let (place, services) = match found {
        Some(found) => found,
        None => {
            push_note(&mut warnings, "No services found in compose base");
            assert(views(warnings@) =~= seq!["No services found in compose base"@]);
            return Ok((value_clone(document), warnings));
        },
    };
    let ghost entries = mapping_entries(*services);
    let pairs = mapping_pairs(services);
    let mut new_services = mapping_clone(services);
    let mut i: usize = 0;
    proof {
        assert(views(warnings@) =~= Seq::<Seq<char>>::empty());
    }
    while i < pairs.len()
        invariant
            0 <= i <= pairs.len(),
            pair_nodes(pairs@) == entries,
            mapping_entries(new_services).len() == entries.len(),
            forall|j: int|
                0 <= j < entries.len() ==> #[trigger] mapping_entries(new_services)[j] == (if j
                    < i {
                    services_rewritten(entries, port_offset, instance@, env@)[j]
                } else {
                    entries[j]
                }),
            views(warnings@) == services_warnings(
                entries.take(i as int),
                port_offset,
                instance@,
                env@,
            ),
        decreases pairs.len() - i,
    {
        let ghost before = views(warnings@);
        assert(entries[i as int].1 == value_node(*pairs@[i as int].1));
        let new_service = rewrite_service(pairs[i].1, port_offset, instance, env, &mut warnings);
        mapping_set_value(&mut new_services, i, new_service);
        proof {
            assert(entries.take(i + 1).drop_last() =~= entries.take(i as int));
            assert(entries.take(i + 1).last() == entries[i as int]);
        }
        i += 1;
    }
    proof {
        assert(entries.take(pairs.len() as int) =~= entries);
        assert(mapping_entries(new_services) =~= services_rewritten(
            entries,
            port_offset,
            instance@,
            env@,
        ));
    }
    let mut new_top = mapping_clone(top);
    mapping_set_value(&mut new_top, place, value_mapping(new_services));
    Ok((value_mapping(new_top), warnings))
}

/// An overlay as text, with the warnings raised while it was made.
pub struct ComposeResult {
    pub yaml: String,
    pub warnings: Vec<String>,
}

/// Makes the overlay of the base document `content` for the instance
/// `worktree_name`: parses it, rewrites it and writes it out again.
///
/// Fails where `content` is not YAML, where the document is no mapping, and
/// where the overlay cannot be written; in every other case an overlay is
/// returned, with a warning for each entry that had to stay as it was.
pub fn generate_compose(content: &str, port_offset: u16, worktree_name: &str, env: &Env) -> (r:
    Result<ComposeResult, ComposeError>)
    ensures
        match parsed_yaml(content@) {
            None => r is Err && r->Err_0 is Parse,
            Some(document) => match document_rewritten(
                document,
                port_offset,
                worktree_name@,
                env@,
            ) {
                None => r is Err && r->Err_0 is NotAMapping,
                Some(rewritten) => match emitted_yaml(rewritten.0) {
                    None => r is Err && r->Err_0 is Serialize,
                    Some(text) => r is Ok && r->Ok_0.yaml@ == text && views(r->Ok_0.warnings@)
                        == rewritten.1,
                },
            },
        },
{
    let base = match yaml_from_str(content) {
        Ok(base) => base,
        Err(e) => {
            return Err(ComposeError::Parse(yaml_error_text(&e)));
        },
    };
    let (document, warnings) = match rewrite(&base, port_offset, worktree_name, env) {
        Ok(done) => done,
        Err(e) => {
            return Err(ComposeError::NotAMapping);
        },
    };
    match yaml_to_string(&document) {
        Ok(yaml) => Ok(ComposeResult { yaml, warnings }),
        Err(e) => Err(ComposeError::Serialize(yaml_error_text(&e))),
    }
}

/// The value under a key after a value was put at the place of that key.
pub proof fn lemma_entry_value_replaced(entries: Seq<(Node, Node)>, key: Seq<char>, value: Node)
    requires
        entry_value(entries, key) is Some,
    ensures
        entry_value(with_value(entries, entry_index(entries, key), value), key) == Some(value),
{
    lemma_entry_index(entries, key);
    lemma_entry_index_with_value(entries, entry_index(entries, key), value, key);
}

/// A container name that has its suffix gets no second one: suffixing for
/// the same instance a name that was suffixed, or that needed no suffix,
/// changes nothing.
pub proof fn lemma_suffixed_name_once(base: Seq<char>, instance: Seq<char>)
    ensures
        suffixed_name(
            match suffixed_name(base, instance) {
                Some(text) => text,
                None => base,
            },
            instance,
        ) is None,
{
    let suffix = seq!['-'] + sanitized(instance);
    if suffixed_name(base, instance) is Some {
        let once = base + suffix;
        assert(once.skip(once.len() - suffix.len()) =~= suffix);
    }
}

/// Rewriting a `container_name` twice for the same instance gives what
/// rewriting it once gives: the second time nothing changes.
pub proof fn lemma_container_name_idempotent(name: Node, instance: Seq<char>)
    ensures
        name_field(
            match name_field(name, instance).0 {
                Some(renamed) => renamed,
                None => name,
            },
            instance,
        ).0 is None,
{
    match name {
        Node::Text(base) => {
            lemma_suffixed_name_once(base, instance);
        },
        _ => {},
    }
}

/// A long-form entry whose `published` is the number `published` is shifted
/// exactly where the short-form entry `published:target` is, and to the same
/// port; where it is not shifted, both stay as they are. This holds for
/// every container side `target` that the short form can carry: one that
/// holds neither a colon nor a slash.
pub proof fn lemma_long_port_as_short(
    entries: Seq<(Node, Node)>,
    published: u64,
    target: Seq<char>,
    offset: u16,
    env: Map<Seq<char>, Seq<char>>,
)
    requires
        entry_value(entries, "published"@) == Some(
            Node::Number(NumberNode::Unsigned(published)),
        ),
        !target.contains(':'),
        !target.contains('/'),
    ensures
        ({
            let value = decimal_text(published as nat) + seq![':'] + target;
            let (long, long_changed, long_warnings) = long_port(entries, offset, env);
            let (short, short_changed, short_warnings) = short_port(value, offset, env);
            &&& long_changed == short_changed
            &&& long_changed == (published + offset <= MAX_PORT)
            &&& long_changed ==> entry_value(long, "published"@) == Some(
                Node::Number(NumberNode::Unsigned((published + offset) as u64)),
            ) && short == decimal_text((published + offset) as nat) + seq![':'] + target
            &&& !long_changed ==> long == entries && short == value
                && long_warnings.len() == 1 && short_warnings.len() == 1
        }),
{
    lemma_decimal_text_value(published as nat);
    lemma_short_port_shifts(decimal_text(published as nat), target, offset, env);
    if published + offset <= MAX_PORT {
        lemma_entry_value_replaced(
            entries,
            "published"@,
            Node::Number(NumberNode::Unsigned((published + offset) as u64)),
        );
    }
}

/// A long-form entry whose `published` is a number written as the text
/// `published` is shifted exactly where the short-form entry
/// `published:target` is, and to the same port, which stays a text; where it
/// is not shifted, both stay as they are.
///
/// The number must fit 64 bits to be read at all, and the short form is read
/// that way only where `target` holds neither a colon nor a slash.
pub proof fn lemma_long_text_port_as_short(
    entries: Seq<(Node, Node)>,
    published: Seq<char>,
    target: Seq<char>,
    offset: u16,
    env: Map<Seq<char>, Seq<char>>,
)
    requires
        entry_value(entries, "published"@) == Some(Node::Text(published)),
        published.len() > 0,
        all_digits(published),
        decimal_value(published) <= u64::MAX,
        !target.contains(':'),
        !target.contains('/'),
    ensures
        ({
            let value = published + seq![':'] + target;
            let shifted = decimal_value(published) + offset;
            let (long, long_changed, long_warnings) = long_port(entries, offset, env);
            let (short, short_changed, short_warnings) = short_port(value, offset, env);
            &&& long_changed == short_changed
            &&& long_changed == (shifted <= MAX_PORT)
            &&& long_changed ==> entry_value(long, "published"@) == Some(
                Node::Text(decimal_text(shifted as nat)),
            ) && short == decimal_text(shifted as nat) + seq![':'] + target
            &&& !long_changed ==> long == entries && short == value
                && long_warnings.len() == 1 && short_warnings.len() == 1
        }),
{
    lemma_short_port_shifts(published, target, offset, env);
    let shifted = decimal_value(published) + offset;
    if shifted <= MAX_PORT {
        lemma_entry_value_replaced(
            entries,
            "published"@,
            Node::Text(decimal_text(shifted as nat)),
        );
    }
}

/// The `published` of a long-form entry, where it is a text, is a plain
/// number.
pub open spec fn plain_long(entries: Seq<(Node, Node)>, env: Map<Seq<char>, Seq<char>>) -> bool {
    match entry_value(entries, "published"@) {
        Some(Node::Text(text)) => plain_number(text, env),
        _ => true,
    }
}

/// The port that an entry of a `ports` list publishes is a plain number:
/// one that reads the same after it is resolved and written out again.
pub open spec fn plain_item(item: Node, env: Map<Seq<char>, Seq<char>>) -> bool {
    match item {
        Node::Text(value) => plain_short(value, env),
        Node::Mapping(entries) => plain_long(entries, env),
        _ => true,
    }
}

/// A shift by zero leaves an entry of a `ports` list as it is, where its
/// port is a plain number.
pub proof fn lemma_port_item_zero(item: Node, env: Map<Seq<char>, Seq<char>>)
    requires
        plain_item(item, env),
    ensures
        port_item(item, 0, env).0 == item,
{
    match item {
        Node::Text(value) => {
            lemma_short_port_zero(value, env);
        },
        Node::Mapping(entries) => {
            lemma_entry_index(entries, "published"@);
            let i = entry_index(entries, "published"@);
            match entry_value(entries, "published"@) {
                Some(Node::Number(NumberNode::Unsigned(p))) => {
                    assert(with_value(entries, i, Node::Number(NumberNode::Unsigned(p)))
                        =~= entries);
                },
                Some(Node::Text(text)) => {
                    match env_number(text, env).0 {
                        Some(p) => {
                            assert(with_value(entries, i, Node::Text(text)) =~= entries);
                        },
                        None => {},
                    }
                },
                _ => {},
            }
        },
        _ => {},
    }
}

} // verus!
