//! The published ports of a service-stack document, as a list and as a table.

use vstd::prelude::*;
use vstd::string::*;
use serde_yaml::{Mapping, Value};
use crate::compose::{
    document_rewritten, entry_index, entry_value, find_entry, lemma_entry_index,
    lemma_entry_index_with_value, lemma_port_item_zero, name_field, plain_item, port_items,
    ports_field, service_rewritten, services_rewritten, with_value, ComposeError,
};
use crate::ports::{host_link, host_to_link, parse_short_port_entry, short_entry};
use crate::text::{
    chars_of, decimal_chars, decimal_text, push_all, string_of, trim_end, trim_end_chars,
};
use crate::yaml::{
    mapping_entries, mapping_pairs, nodes, number_as_u64, pair_nodes, parsed_yaml, shape,
    value_node, yaml_error_text, yaml_from_str, Node, NumberNode, Shape,
};

verus! {

/// One published port of a service.
pub struct PortEntry {
    pub service: String,
    /// The host side, with the bind address where there is one.
    pub host: String,
    /// The container side, with the protocol where there is one.
    pub target: String,
    /// An address to open in a browser, where one can be told.
    pub link: Option<String>,
}

/// What a `PortEntry` holds, as mathematical text.
pub struct PortEntryView {
    pub service: Seq<char>,
    pub host: Seq<char>,
    pub target: Seq<char>,
    pub link: Option<Seq<char>>,
}

impl View for PortEntry {
    type V = PortEntryView;

    open spec fn view(&self) -> PortEntryView {
        PortEntryView {
            service: self.service@,
            host: self.host@,
            target: self.target@,
            link: match self.link {
                Some(link) => Some(link@),
                None => None,
            },
        }
    }
}

/// The views of a vector of port entries.
pub open spec fn entry_views(entries: Seq<PortEntry>) -> Seq<PortEntryView> {
    Seq::new(entries.len(), |i: int| entries[i]@)
}

/// A port or protocol scalar as text: a text as it stands, an integer that
/// is not negative in base ten.
pub open spec fn scalar_text(node: Node) -> Option<Seq<char>> {
    match node {
        Node::Text(text) => Some(text),
        Node::Number(NumberNode::Unsigned(n)) => Some(decimal_text(n as nat)),
        _ => None,
    }
}

/// What follows the container port of a long-form entry: a slash and the
/// protocol, where `protocol` is a text that is not empty.
pub open spec fn protocol_tail(entries: Seq<(Node, Node)>) -> Seq<char> {
    match entry_value(entries, "protocol"@) {
        Some(Node::Text(protocol)) => if protocol.len() > 0 {
            seq!['/'] + protocol
        } else {
            Seq::empty()
        },
        _ => Seq::empty(),
    }
}

/// The host side and the container side of a long-form entry that has both
/// `published` and `target` as scalars.
pub open spec fn long_entry(entries: Seq<(Node, Node)>) -> Option<(Seq<char>, Seq<char>)> {
    match (entry_value(entries, "published"@), entry_value(entries, "target"@)) {
        (Some(published), Some(target)) => match (scalar_text(published), scalar_text(target)) {
            (Some(host), Some(container)) => Some((host, container + protocol_tail(entries))),
            _ => None,
        },
        _ => None,
    }
}

/// The host side and the container side of an entry of a `ports` list.
pub open spec fn item_sides(item: Node) -> Option<(Seq<char>, Seq<char>)> {
    match item {
        Node::Text(value) => short_entry(value),
        Node::Mapping(entries) => long_entry(entries),
        _ => None,
    }
}

/// The published ports of a `ports` list, in order.
pub open spec fn list_ports(service: Seq<char>, items: Seq<Node>) -> Seq<PortEntryView>
    decreases items.len(),
{
    if items.len() == 0 {
        Seq::empty()
    } else {
        let rest = list_ports(service, items.drop_last());
        match item_sides(items.last()) {
            Some(sides) => rest.push(
                PortEntryView {
                    service: service,
                    host: sides.0,
                    target: sides.1,
                    link: host_link(sides.0),
                },
            ),
            None => rest,
        }
    }
}

/// The name under which a service is listed: its key, or `unknown` where
/// the key is no text.
pub open spec fn service_name(key: Node) -> Seq<char> {
    match key {
        Node::Text(name) => name,
        _ => "unknown"@,
    }
}

/// The published ports of one service: those of its `ports` list, where the
/// definition is a mapping that has one.
pub open spec fn service_ports(key: Node, service: Node) -> Seq<PortEntryView> {
    match service {
        Node::Mapping(entries) => match entry_value(entries, "ports"@) {
            Some(Node::Sequence(items)) => list_ports(service_name(key), items),
            _ => Seq::empty(),
        },
        _ => Seq::empty(),
    }
}

/// The published ports of all services, service by service.
pub open spec fn services_ports(services: Seq<(Node, Node)>) -> Seq<PortEntryView>
    decreases services.len(),
{
    if services.len() == 0 {
        Seq::empty()
    } else {
        services_ports(services.drop_last()) + service_ports(
            services.last().0,
            services.last().1,
        )
    }
}

/// The published ports of a document: those of the services under
/// `services`, where the document is a mapping that has them.
pub open spec fn document_ports(document: Node) -> Seq<PortEntryView> {
    match document {
        Node::Mapping(top) => match entry_value(top, "services"@) {
            Some(Node::Mapping(services)) => services_ports(services),
            _ => Seq::empty(),
        },
        _ => Seq::empty(),
    }
}

/// A port or protocol scalar as text.
pub fn scalar_string(value: &Value) -> (r: Option<String>)
    ensures
        match r {
            Some(text) => scalar_text(value_node(*value)) == Some(text@),
            None => scalar_text(value_node(*value)) is None,
        },
{
    match shape(value) {
        Shape::Text(text) => Some(text.clone()),
        Shape::Number(number) => match number_as_u64(number) {
            Some(n) => {
                let digits = decimal_chars(n);
                Some(string_of(digits.as_slice()))
            },
            None => None,
        },
        _ => None,
    }
}

/// The host side and the container side of a long-form entry.
pub fn parse_long_port_entry(map: &Mapping) -> (r: Option<(String, String)>)
    ensures
        match r {
            Some(pair) => long_entry(mapping_entries(*map)) == Some((pair.0@, pair.1@)),
            None => long_entry(mapping_entries(*map)) is None,
        },
{
    let pairs = mapping_pairs(map);
    let ghost entries = mapping_entries(*map);
    let published = match find_entry(&pairs, "published") {
        Some(place) => {
            assert(entries[place as int].1 == value_node(*pairs@[place as int].1));
            pairs[place].1
        },
        None => {
            return None;
        },
    };
    let target = match find_entry(&pairs, "target") {
        Some(place) => {
            assert(entries[place as int].1 == value_node(*pairs@[place as int].1));
            pairs[place].1
        },
        None => {
            return None;
        },
    };
    let host = match scalar_string(published) {
        Some(host) => host,
        None => {
            return None;
        },
    };
    let mut container = match scalar_string(target) {
        Some(container) => container,
        None => {
            return None;
        },
    };
    let ghost bare = container@;
    proof {
        assert(bare + Seq::<char>::empty() =~= bare);
    }
    match find_entry(&pairs, "protocol") {
        Some(place) => {
            assert(entries[place as int].1 == value_node(*pairs@[place as int].1));
            match shape(pairs[place].1) {
                Shape::Text(protocol) => {
                    if protocol.as_str().unicode_len() > 0 {
                        container.append("/");
                        container.append(protocol.as_str());
                        proof {
                            reveal_strlit("/");
                            assert("/"@ =~= seq!['/']);
                            assert(container@ =~= bare + (seq!['/'] + protocol@));
                        }
                    }
                },
                _ => {},
            }
        },
        None => {},
    }
    Some((host, container))
}

/// Lists the published ports of a `ports` list, under the service name
/// `service`.
pub fn collect_ports(service: &str, items: &Vec<Value>, entries: &mut Vec<PortEntry>)
    ensures
        entry_views(final(entries)@) == entry_views(old(entries)@) + list_ports(
            service@,
            nodes(items@),
        ),
{
    let ghost all = nodes(items@);
    let mut i: usize = 0;
    proof {
        assert(entry_views(entries@) + Seq::<PortEntryView>::empty() =~= entry_views(entries@));
    }
    while i < items.len()
        invariant
            0 <= i <= items.len(),
            all == nodes(items@),
            entry_views(entries@) == entry_views(old(entries)@) + list_ports(
                service@,
                all.take(i as int),
            ),
        decreases items.len() - i,
    {
        let ghost before = entry_views(entries@);
        proof {
            assert(all.take(i + 1).drop_last() =~= all.take(i as int));
            assert(all.take(i + 1).last() == value_node(items@[i as int]));
        }
        let parsed = match shape(&items[i]) {
            Shape::Text(value) => parse_short_port_entry(value.as_str()),
            Shape::Mapping(map) => parse_long_port_entry(map),
            _ => None,
        };
        match parsed {
            Some((host, target)) => {
                let link = host_to_link(host.as_str());
                let entry = PortEntry { service: String::from_str(service), host, target, link };
                let ghost added = entry@;
                entries.push(entry);
                proof {
                    assert(entry_views(entries@) =~= before.push(added));
                    assert(entry_views(entries@) =~= entry_views(old(entries)@) + list_ports(
                        service@,
                        all.take(i + 1),
                    ));
                }
            },
            None => {},
        }
        i += 1;
    }
    proof {
        assert(all.take(items.len() as int) =~= all);
    }
}

/// Lists the published ports of a parsed document, service by service and
/// in document order, for both forms of a port entry.
pub fn published_ports(document: &Value) -> (r: Vec<PortEntry>)
    ensures
        entry_views(r@) == document_ports(value_node(*document)),
{
    let mut entries: Vec<PortEntry> = Vec::new();
    proof {
        assert(entry_views(entries@) =~= Seq::<PortEntryView>::empty());
    }
    let top = match shape(document) {
        Shape::Mapping(top) => top,
        _ => {
            return entries;
        },
    };
    let top_pairs = mapping_pairs(top);
    let services = match find_entry(&top_pairs, "services") {
        Some(place) => {
            assert(mapping_entries(*top)[place as int].1 == value_node(
                *top_pairs@[place as int].1,
            ));
            match shape(top_pairs[place].1) {
                Shape::Mapping(services) => services,
                _ => {
                    return entries;
                },
            }
        },
        None => {
            return entries;
        },
    };
    let pairs = mapping_pairs(services);
    let ghost all = mapping_entries(*services);
    let mut i: usize = 0;
    while i < pairs.len()
        invariant
            0 <= i <= pairs.len(),
            pair_nodes(pairs@) == all,
            entry_views(entries@) == services_ports(all.take(i as int)),
        decreases pairs.len() - i,
    {
        let ghost before = entry_views(entries@);
        proof {
            assert(all.take(i + 1).drop_last() =~= all.take(i as int));
            assert(all.take(i + 1).last() == all[i as int]);
            assert(all[i as int].0 == value_node(*pairs@[i as int].0));
            assert(all[i as int].1 == value_node(*pairs@[i as int].1));
            assert(before + Seq::<PortEntryView>::empty() =~= before);
        }
        let name = match shape(pairs[i].0) {
            Shape::Text(name) => name.clone(),
            _ => String::from_str("unknown"),
        };
        match shape(pairs[i].1) {
            Shape::Mapping(service) => {
                let service_pairs = mapping_pairs(service);
                match find_entry(&service_pairs, "ports") {
                    Some(place) => {
                        assert(mapping_entries(*service)[place as int].1 == value_node(
                            *service_pairs@[place as int].1,
                        ));
                        match shape(service_pairs[place].1) {
                            Shape::Sequence(items) => {
                                collect_ports(name.as_str(), items, &mut entries);
                            },
                            _ => {},
                        }
                    },
                    None => {},
                }
            },
            _ => {},
        }
        i += 1;
    }
    proof {
        assert(all.take(pairs.len() as int) =~= all);
    }
    entries
}

/// Lists the published ports of the document that `content` writes.
///
/// Fails only where `content` is not YAML. A document without services has
/// no published ports.
pub fn extract_ports(content: &str) -> (r: Result<Vec<PortEntry>, ComposeError>)
    ensures
        match parsed_yaml(content@) {
            Some(document) => r is Ok && entry_views(r->Ok_0@) == document_ports(document),
            None => r is Err && r->Err_0 is Parse,
        },
{
    match yaml_from_str(content) {
        Ok(document) => Ok(published_ports(&document)),
        Err(e) => Err(ComposeError::Parse(yaml_error_text(&e))),
    }
}

/// `n` spaces.
pub open spec fn spaces(n: nat) -> Seq<char> {
    Seq::new(n, |i: int| ' ')
}

/// `s` filled up with spaces on the right to `width` characters; a longer
/// text stays as it is.
pub open spec fn padded(s: Seq<char>, width: nat) -> Seq<char> {
    if s.len() < width {
        s + spaces((width - s.len()) as nat)
    } else {
        s
    }
}

/// One line of the table: three padded columns and the link, each after a
/// space, and a line feed.
pub open spec fn table_row(
    service: Seq<char>,
    host: Seq<char>,
    target: Seq<char>,
    link: Seq<char>,
) -> Seq<char> {
    padded(service, 22) + seq![' '] + padded(host, 18) + seq![' '] + padded(target, 18) + seq![
        ' ',
    ] + link + seq!['\n']
}

/// The line of an entry; an entry without a link has an empty last column.
pub open spec fn entry_row(entry: PortEntryView) -> Seq<char> {
    table_row(
        entry.service,
        entry.host,
        entry.target,
        match entry.link {
            Some(link) => link,
            None => Seq::empty(),
        },
    )
}

/// The lines of the entries, in order.
pub open spec fn table_rows(entries: Seq<PortEntryView>) -> Seq<char>
    decreases entries.len(),
{
    if entries.len() == 0 {
        Seq::empty()
    } else {
        table_rows(entries.drop_last()) + entry_row(entries.last())
    }
}

/// The table of the entries: a heading, a rule of eighty hyphens and a line
/// for each entry, without white space at its end.
pub open spec fn ports_table(entries: Seq<PortEntryView>) -> Seq<char> {
    trim_end(
        table_row("SERVICE"@, "HOST"@, "TARGET"@, "LINK"@) + Seq::new(80, |i: int| '-') + seq![
            '\n',
        ] + table_rows(entries),
    )
}

/// Appends `s`, padded to `width`, to `out`.
pub fn push_padded(out: &mut Vec<char>, s: &str, width: usize)
    ensures
        final(out)@ == old(out)@ + padded(s@, width as nat),
{
    let chars = chars_of(s);
    push_all(out, chars.as_slice());
    let mut n: usize = chars.len();
    while n < width
        invariant
            chars@ == s@,
            chars.len() <= n,
            n <= width || n == chars.len(),
            out@ =~= old(out)@ + s@ + spaces((n - chars.len()) as nat),
        decreases width - n,
    {
        let ghost before = out@;
        out.push(' ');
        n += 1;
        proof {
            assert(spaces((n - chars.len()) as nat) =~= spaces((n - 1 - chars.len()) as nat).push(
                ' ',
            ));
        }
    }
    proof {
        if chars.len() < width {
            assert(out@ =~= old(out)@ + padded(s@, width as nat));
        } else {
            assert(spaces(0) =~= Seq::<char>::empty());
            assert(out@ =~= old(out)@ + padded(s@, width as nat));
        }
    }
}

/// Appends one line of the table to `out`.
pub fn push_row(out: &mut Vec<char>, service: &str, host: &str, target: &str, link: &str)
    ensures
        final(out)@ == old(out)@ + table_row(service@, host@, target@, link@),
{
    push_padded(out, service, 22);
    out.push(' ');
    push_padded(out, host, 18);
    out.push(' ');
    push_padded(out, target, 18);
    out.push(' ');
    let tail = chars_of(link);
    push_all(out, tail.as_slice());
    out.push('\n');
    proof {
        assert(out@ =~= old(out)@ + table_row(service@, host@, target@, link@));
    }
}

/// Lays the entries out as a table with the columns SERVICE, HOST, TARGET
/// and LINK.
pub fn format_ports_table(entries: &[PortEntry]) -> (r: String)
    ensures
        r@ == ports_table(entry_views(entries@)),
{
    let mut out: Vec<char> = Vec::new();
    push_row(&mut out, "SERVICE", "HOST", "TARGET", "LINK");
    let mut d: usize = 0;
    let ghost head = out@;
    while d < 80
        invariant
            0 <= d <= 80,
            out@ =~= head + Seq::new(d as nat, |i: int| '-'),
        decreases 80 - d,
    {
        out.push('-');
        d += 1;
    }
    out.push('\n');
    let ghost top = out@;
    let ghost all = entry_views(entries@);
    let mut i: usize = 0;
    proof {
        assert(top + Seq::<char>::empty() =~= top);
    }
    while i < entries.len()
        invariant
            0 <= i <= entries.len(),
            all == entry_views(entries@),
            out@ == top + table_rows(all.take(i as int)),
        decreases entries.len() - i,
    {
        let entry = &entries[i];
        proof {
            assert(all.take(i + 1).drop_last() =~= all.take(i as int));
            assert(all.take(i + 1).last() == entry@);
        }
        let ghost before = out@;
        match &entry.link {
            Some(link) => {
                push_row(
                    &mut out,
                    entry.service.as_str(),
                    entry.host.as_str(),
                    entry.target.as_str(),
                    link.as_str(),
                );
            },
            None => {
                push_row(
                    &mut out,
                    entry.service.as_str(),
                    entry.host.as_str(),
                    entry.target.as_str(),
                    "",
                );
                proof {
                    reveal_strlit("");
                    assert(""@ =~= Seq::<char>::empty());
                }
            },
        }
        proof {
            assert(out@ =~= top + table_rows(all.take(i + 1)));
        }
        i += 1;
    }
    proof {
        assert(all.take(entries.len() as int) =~= all);
        assert(Seq::new(0nat, |i: int| '-') =~= Seq::<char>::empty());
        assert(out@ =~= table_row("SERVICE"@, "HOST"@, "TARGET"@, "LINK"@) + Seq::new(
            80,
            |i: int| '-',
        ) + seq!['\n'] + table_rows(all));
    }
    let trimmed = trim_end_chars(out.as_slice());
    string_of(trimmed.as_slice())
}

/// Every port that the `ports` list of a service publishes is a plain
/// number.
pub open spec fn plain_service(service: Node, env: Map<Seq<char>, Seq<char>>) -> bool {
    match service {
        Node::Mapping(entries) => match entry_value(entries, "ports"@) {
            Some(Node::Sequence(items)) => forall|i: int|
                0 <= i < items.len() ==> plain_item(#[trigger] items[i], env),
            _ => true,
        },
        _ => true,
    }
}

/// Every port that a document publishes is a plain number: written in
/// digits without leading zeros, and not through a variable.
pub open spec fn plain_document(document: Node, env: Map<Seq<char>, Seq<char>>) -> bool {
    match document {
        Node::Mapping(top) => match entry_value(top, "services"@) {
            Some(Node::Mapping(services)) => forall|i: int|
                0 <= i < services.len() ==> plain_service((#[trigger] services[i]).1, env),
            _ => true,
        },
        _ => true,
    }
}

/// An overlay with offset zero publishes the ports of its service as they
/// were, where they are plain numbers.
pub proof fn lemma_service_ports_zero(
    key: Node,
    service: Node,
    instance: Seq<char>,
    env: Map<Seq<char>, Seq<char>>,
)
    requires
        plain_service(service, env),
    ensures
        service_ports(key, service_rewritten(service, 0, instance, env).0) == service_ports(
            key,
            service,
        ),
{
    match service {
        Node::Mapping(entries) => {
            let ports_at = entry_index(entries, "ports"@);
            let name_at = entry_index(entries, "container_name"@);
            lemma_entry_index(entries, "ports"@);
            lemma_entry_index(entries, "container_name"@);
            let ports = match entry_value(entries, "ports"@) {
                Some(value) => ports_field(value, 0, env).0,
                None => None,
            };
            let shifted = match ports {
                Some((items, true)) => with_value(entries, ports_at, Node::Sequence(items)),
                _ => entries,
            };
            assert(shifted =~= entries) by {
                match entry_value(entries, "ports"@) {
                    Some(Node::Sequence(items)) => {
                        assert forall|i: int| 0 <= i < items.len() implies port_items(
                            items,
                            0,
                            env,
                        )[i] == items[i] by {
                            lemma_port_item_zero(items[i], env);
                        }
                        assert(port_items(items, 0, env) =~= items);
                    },
                    _ => {},
                }
            }
            let name = match entry_value(entries, "container_name"@) {
                Some(value) => name_field(value, instance).0,
                None => None,
            };
            match name {
                Some(value) => {
                    let named = with_value(shifted, name_at, value);
                    lemma_entry_index_with_value(entries, name_at, value, "ports"@);
                    if ports_at < entries.len() {
                        assert(ports_at != name_at) by {
                            reveal_strlit("ports");
                            reveal_strlit("container_name");
                            if ports_at == name_at {
                                assert("ports"@.len() == "container_name"@.len());
                            }
                        }
                        assert(named[ports_at].1 == entries[ports_at].1);
                    }
                    assert(entry_value(named, "ports"@) == entry_value(entries, "ports"@));
                },
                None => {},
            }
        },
        _ => {},
    }
}

/// An overlay with offset zero publishes the ports of its services as they
/// were, where they are plain numbers.
pub proof fn lemma_services_ports_zero(
    services: Seq<(Node, Node)>,
    instance: Seq<char>,
    env: Map<Seq<char>, Seq<char>>,
)
    requires
        forall|i: int| 0 <= i < services.len() ==> plain_service((#[trigger] services[i]).1, env),
    ensures
        services_ports(services_rewritten(services, 0, instance, env)) == services_ports(services),
    decreases services.len(),
{
    if services.len() > 0 {
        let front = services.drop_last();
        let rewritten = services_rewritten(services, 0, instance, env);
        assert forall|i: int| 0 <= i < front.len() implies plain_service(
            (#[trigger] front[i]).1,
            env,
        ) by {
            assert(front[i] == services[i]);
        }
        lemma_services_ports_zero(front, instance, env);
        assert(rewritten.drop_last() =~= services_rewritten(front, 0, instance, env));
        assert(plain_service(services[services.len() - 1].1, env));
        lemma_service_ports_zero(services.last().0, services.last().1, instance, env);
    }
}

/// Listing the ports of an overlay made with offset zero gives what listing
/// the ports of the base document gives, where every published port of the
/// document is a plain number.
///
/// A port written through a variable, or with leading zeros, is listed as
/// the number it resolved to, no longer as it was written.
pub proof fn lemma_zero_offset_keeps_ports(
    document: Node,
    instance: Seq<char>,
    env: Map<Seq<char>, Seq<char>>,
)
    requires
        plain_document(document, env),
        document_rewritten(document, 0, instance, env) is Some,
    ensures
        document_ports(document_rewritten(document, 0, instance, env)->Some_0.0) == document_ports(
            document,
        ),
{
    match document {
        Node::Mapping(top) => {
            match entry_value(top, "services"@) {
                Some(Node::Mapping(services)) => {
                    let at = entry_index(top, "services"@);
                    let rewritten = Node::Mapping(services_rewritten(services, 0, instance, env));
                    lemma_entry_index(top, "services"@);
                    lemma_entry_index_with_value(top, at, rewritten, "services"@);
                    lemma_services_ports_zero(services, instance, env);
                },
                _ => {},
            }
        },
        _ => {},
    }
}

} // verus!
