//! Published ports in their short form,
//! `[bindIP:]hostPort:containerPort[/protocol]`, and the numbers behind them.

use vstd::prelude::*;
use vstd::string::*;
use crate::env::{env_expr, parse_env_chars, resolve_env_expr, resolved, Env};
use crate::text::{
    all_digit_chars, all_digits, chars_of, copy_range, decimal_chars, decimal_parse,
    decimal_text, decimal_value, find_last_char, is_digit, join, last_index, lemma_join_split,
    lemma_last_index, lemma_last_index_absent, lemma_split_first, lemma_split_whole,
    parse_decimal, push_all, same_chars, split, split_chars, string_of, texts, views,
};

verus! {

/// The highest port there is.
pub const MAX_PORT: u64 = 65535;

/// Appends to `warnings` the message made of `prefix` and `subject`.
pub fn push_warning(warnings: &mut Vec<String>, prefix: &str, subject: &[char])
    ensures
        views(final(warnings)@) == views(old(warnings)@).push(prefix@ + subject@),
{
    let mut message = String::from_str(prefix);
    let tail = string_of(subject);
    message.append(tail.as_str());
    warnings.push(message);
    assert(views(warnings@) =~= views(old(warnings)@).push(prefix@ + subject@));
}

/// Appends the message `text` to `warnings`.
pub fn push_note(warnings: &mut Vec<String>, text: &str)
    ensures
        views(final(warnings)@) == views(old(warnings)@).push(text@),
{
    warnings.push(String::from_str(text));
    assert(views(warnings@) =~= views(old(warnings)@).push(text@));
}

/// The number that `value` stands for in `env`, and the warnings that finding
/// it raises. A run of digits is read as it stands. Anything else must be a
/// reference to a variable whose resolved text is a run of digits; a
/// reference that resolves to nothing, or to something else, raises a
/// warning. A number that does not fit 64 bits is no number.
pub open spec fn env_number(value: Seq<char>, env: Map<Seq<char>, Seq<char>>) -> (
    Option<u64>,
    Seq<Seq<char>>,
) {
    if all_digits(value) {
        (decimal_parse(value), Seq::empty())
    } else {
        match env_expr(value) {
            None => (None, Seq::empty()),
            Some(expr) => match resolved(expr, env) {
                None => (None, seq!["Unresolved env port: "@ + value]),
                Some(text) => if all_digits(text) {
                    (decimal_parse(text), Seq::empty())
                } else {
                    (None, seq!["Non-numeric env port: "@ + value])
                },
            },
        }
    }
}

/// `value` is a range of ports, `first-last`: two non-empty runs of digits
/// around a single hyphen.
pub open spec fn port_range(value: Seq<char>) -> bool {
    let parts = split(value, '-');
    parts.len() == 2 && parts[0].len() > 0 && parts[1].len() > 0 && all_digits(parts[0])
        && all_digits(parts[1])
}

/// The host port that `host` stands for in `env`, and the warnings that
/// finding it raises. Every failure raises a warning of its own, after those
/// of `env_number`: a number above 65535, a range of ports, or something that
/// is no number.
pub open spec fn host_port(host: Seq<char>, env: Map<Seq<char>, Seq<char>>) -> (
    Option<u32>,
    Seq<Seq<char>>,
) {
    let (number, warnings) = env_number(host, env);
    match number {
        Some(n) => if n > MAX_PORT {
            (None, warnings.push("Host port overflow: "@ + host))
        } else {
            (Some(n as u32), warnings)
        },
        None => if port_range(host) {
            (None, warnings.push("Port range not supported: "@ + host))
        } else {
            (None, warnings.push("Non-numeric host port: "@ + host))
        },
    }
}

/// A short-form entry without its protocol: what stands before the last `/`,
/// or all of it where it has none.
pub open spec fn short_main(value: Seq<char>) -> Seq<char> {
    let k = last_index(value, '/');
    if k >= 0 {
        value.take(k)
    } else {
        value
    }
}

/// The protocol of a short-form entry: what stands after the last `/`.
pub open spec fn short_protocol(value: Seq<char>) -> Option<Seq<char>> {
    let k = last_index(value, '/');
    if k >= 0 {
        Some(value.skip(k + 1))
    } else {
        None
    }
}

/// The segments of a short-form entry, between the colons before the protocol.
pub open spec fn short_parts(value: Seq<char>) -> Seq<Seq<char>> {
    split(short_main(value), ':')
}

/// The entry made of the segments `parts`, with `host` in place of the host
/// port, and of the protocol, if any.
pub open spec fn short_rebuilt(
    parts: Seq<Seq<char>>,
    host: Seq<char>,
    protocol: Option<Seq<char>>,
) -> Seq<char> {
    let address = if parts.len() == 3 {
        parts[0] + seq![':']
    } else {
        Seq::<char>::empty()
    };
    let tail = match protocol {
        Some(p) => seq!['/'] + p,
        None => Seq::<char>::empty(),
    };
    address + host + seq![':'] + parts.last() + tail
}

/// A short-form entry after its host port is shifted by `offset`: the new
/// text, whether it differs in meaning from the old, and the warnings raised.
///
/// One segment publishes nothing and stays. Two segments are host and
/// container port, three are bind address, host and container port; any
/// other number is not supported, which is a warning. A host port that
/// cannot be resolved leaves the entry as it is, and so does one that would
/// pass 65535, with a warning.
pub open spec fn short_port(value: Seq<char>, offset: u16, env: Map<Seq<char>, Seq<char>>) -> (
    Seq<char>,
    bool,
    Seq<Seq<char>>,
) {
    let parts = short_parts(value);
    if parts.len() == 1 {
        (value, false, Seq::empty())
    } else if parts.len() == 2 || parts.len() == 3 {
        let (port, warnings) = host_port(parts[parts.len() - 2], env);
        match port {
            None => (value, false, warnings),
            Some(p) => if p + offset > MAX_PORT {
                (value, false, warnings.push("Port overflow: "@ + value))
            } else {
                (
                    short_rebuilt(parts, decimal_text((p + offset) as nat), short_protocol(value)),
                    true,
                    warnings,
                )
            },
        }
    } else {
        (value, false, seq!["Unsupported port format: "@ + value])
    }
}

/// The host side and the container side of a short-form entry that publishes
/// a port: the host side with its bind address, the container side with its
/// protocol.
pub open spec fn short_entry(value: Seq<char>) -> Option<(Seq<char>, Seq<char>)> {
    let parts = short_parts(value);
    let tail = match short_protocol(value) {
        Some(p) => seq!['/'] + p,
        None => Seq::<char>::empty(),
    };
    if parts.len() == 2 {
        Some((parts[0], parts[1] + tail))
    } else if parts.len() == 3 {
        Some((parts[0] + seq![':'] + parts[1], parts[2] + tail))
    } else {
        None
    }
}

/// The address to open for a host side: `localhost` for a bare port, the
/// bind address for `ip:port`, and `localhost` again where the bind address
/// is `0.0.0.0`. A host side whose port is not a run of digits has none.
pub open spec fn host_link(host: Seq<char>) -> Option<Seq<char>> {
    let k = last_index(host, ':');
    if all_digits(host) {
        Some("http://localhost:"@ + host)
    } else if k >= 0 && all_digits(host.skip(k + 1)) {
        let ip = if host.take(k) == "0.0.0.0"@ {
            "localhost"@
        } else {
            host.take(k)
        };
        Some("http://"@ + ip + seq![':'] + host.skip(k + 1))
    } else {
        None
    }
}

/// The number that `value` stands for in `env`.
pub fn resolve_env_chars(value: &[char], env: &Env, warnings: &mut Vec<String>) -> (r: Option<
    u64,
>)
    ensures
        r == env_number(value@, env@).0,
        views(final(warnings)@) == views(old(warnings)@) + env_number(value@, env@).1,
{
    proof {
        assert(views(warnings@) + Seq::<Seq<char>>::empty() =~= views(warnings@));
    }
    if all_digit_chars(value) {
        return parse_decimal(value);
    }
    let expr = match parse_env_chars(value) {
        Some(expr) => expr,
        None => {
            return None;
        },
    };
    let text = match resolve_env_expr(&expr, env) {
        Some(text) => text,
        None => {
            push_warning(warnings, "Unresolved env port: ", value);
            proof {
                assert(views(warnings@) =~= views(old(warnings)@) + seq![
                    "Unresolved env port: "@ + value@,
                ]);
            }
            return None;
        },
    };
    let digits = chars_of(text.as_str());
    if !all_digit_chars(digits.as_slice()) {
        push_warning(warnings, "Non-numeric env port: ", value);
        proof {
            assert(views(warnings@) =~= views(old(warnings)@) + seq![
                "Non-numeric env port: "@ + value@,
            ]);
        }
        return None;
    }
    parse_decimal(digits.as_slice())
}

/// Resolves `value` to a number: a run of digits, or a reference to a
/// variable of `env` that holds one. Failures that concern a variable are
/// added to `warnings`.
pub fn resolve_env_number(value: &str, env: &Env, warnings: &mut Vec<String>) -> (r: Option<u64>)
    ensures
        r == env_number(value@, env@).0,
        views(final(warnings)@) == views(old(warnings)@) + env_number(value@, env@).1,
{
    let chars = chars_of(value);
    resolve_env_chars(chars.as_slice(), env, warnings)
}

/// Whether `value` is a range of ports.
pub fn is_port_range_chars(value: &[char]) -> (r: bool)
    ensures
        r == port_range(value@),
{
    let parts = split_chars(value, '-');
    if parts.len() != 2 {
        return false;
    }
    assert(texts(parts@)[0] == parts@[0]@);
    assert(texts(parts@)[1] == parts@[1]@);
    parts[0].len() > 0 && parts[1].len() > 0 && all_digit_chars(parts[0].as_slice())
        && all_digit_chars(parts[1].as_slice())
}

/// Whether `value` is a range of ports, `first-last`.
pub fn is_port_range(value: &str) -> (r: bool)
    ensures
        r == port_range(value@),
{
    let chars = chars_of(value);
    is_port_range_chars(chars.as_slice())
}

/// The host port that `host` stands for in `env`.
pub fn resolve_host_chars(host: &[char], env: &Env, warnings: &mut Vec<String>) -> (r: Option<
    u32,
>)
    ensures
        r == host_port(host@, env@).0,
        views(final(warnings)@) == views(old(warnings)@) + host_port(host@, env@).1,
{
    let number = resolve_env_chars(host, env, warnings);
    let ghost inner = env_number(host@, env@).1;
    match number {
        Some(n) => {
            if n > MAX_PORT {
                push_warning(warnings, "Host port overflow: ", host);
                proof {
                    assert(views(warnings@) =~= views(old(warnings)@) + inner.push(
                        "Host port overflow: "@ + host@,
                    ));
                }
                return None;
            }
            Some(n as u32)
        },
        None => {
            if is_port_range_chars(host) {
                push_warning(warnings, "Port range not supported: ", host);
                proof {
                    assert(views(warnings@) =~= views(old(warnings)@) + inner.push(
                        "Port range not supported: "@ + host@,
                    ));
                }
            } else {
                push_warning(warnings, "Non-numeric host port: ", host);
                proof {
                    assert(views(warnings@) =~= views(old(warnings)@) + inner.push(
                        "Non-numeric host port: "@ + host@,
                    ));
                }
            }
            None
        },
    }
}

/// Resolves the host port of a short-form entry: a number up to 65535,
/// written out or held by a variable of `env`. Every failure adds a warning
/// to `warnings`.
pub fn resolve_host_port(host: &str, env: &Env, warnings: &mut Vec<String>) -> (r: Option<u32>)
    ensures
        r == host_port(host@, env@).0,
        views(final(warnings)@) == views(old(warnings)@) + host_port(host@, env@).1,
{
    let chars = chars_of(host);
    resolve_host_chars(chars.as_slice(), env, warnings)
}

/// The segments and the protocol of a short-form entry.
pub fn short_pieces(value: &[char]) -> (r: (Vec<Vec<char>>, Option<Vec<char>>))
    ensures
        texts(r.0@) == short_parts(value@),
        match r.1 {
            Some(p) => short_protocol(value@) == Some(p@),
            None => short_protocol(value@) is None,
        },
{
    proof {
        lemma_last_index(value@, '/');
    }
    match find_last_char(value, '/') {
        Some(k) => {
            let main = copy_range(value, 0, k);
            let protocol = copy_range(value, k + 1, value.len());
            proof {
                assert(main@ =~= value@.take(k as int));
                assert(protocol@ =~= value@.skip(k + 1));
            }
            (split_chars(main.as_slice(), ':'), Some(protocol))
        },
        None => (split_chars(value, ':'), None),
    }
}

/// The text that `short_rebuilt` describes.
fn rebuild_short(parts: &Vec<Vec<char>>, host: &[char], protocol: &Option<Vec<char>>) -> (r:
    Vec<char>)
    requires
        parts.len() == 2 || parts.len() == 3,
    ensures
        r@ == short_rebuilt(
            texts(parts@),
            host@,
            match protocol {
                Some(p) => Some(p@),
                None => None,
            },
        ),
{
    let mut out: Vec<char> = Vec::new();
    let last = parts.len() - 1;
    assert(texts(parts@)[0] == parts@[0]@);
    assert(texts(parts@).last() == parts@[last as int]@);
    if parts.len() == 3 {
        push_all(&mut out, parts[0].as_slice());
        out.push(':');
    }
    push_all(&mut out, host);
    out.push(':');
    push_all(&mut out, parts[last].as_slice());
    match protocol {
        Some(p) => {
            out.push('/');
            push_all(&mut out, p.as_slice());
        },
        None => {},
    }
    proof {
        let address = if parts.len() == 3 {
            parts@[0]@ + seq![':']
        } else {
            Seq::<char>::empty()
        };
        let tail = match protocol {
            Some(p) => seq!['/'] + p@,
            None => Seq::<char>::empty(),
        };
        assert(out@ =~= address + host@ + seq![':'] + parts@[last as int]@ + tail);
    }
    out
}

/// Shifts the host port of the short-form entry `value` by `port_offset`.
pub fn rewrite_short_chars(
    value: &[char],
    port_offset: u16,
    env: &Env,
    warnings: &mut Vec<String>,
) -> (r: (Vec<char>, bool))
    ensures
        r.0@ == short_port(value@, port_offset, env@).0,
        r.1 == short_port(value@, port_offset, env@).1,
        views(final(warnings)@) == views(old(warnings)@) + short_port(
            value@,
            port_offset,
            env@,
        ).2,
{
    proof {
        assert(views(warnings@) + Seq::<Seq<char>>::empty() =~= views(warnings@));
        assert(value@.subrange(0, value@.len() as int) =~= value@);
    }
    let (parts, protocol) = short_pieces(value);
    if parts.len() == 1 {
        return (copy_range(value, 0, value.len()), false);
    }
    if parts.len() != 2 && parts.len() != 3 {
        push_warning(warnings, "Unsupported port format: ", value);
        proof {
            assert(views(warnings@) =~= views(old(warnings)@) + seq![
                "Unsupported port format: "@ + value@,
            ]);
        }
        return (copy_range(value, 0, value.len()), false);
    }
    let host = &parts[parts.len() - 2];
    assert(texts(parts@)[parts.len() - 2] == host@);
    let ghost found = host_port(host@, env@);
    let port = match resolve_host_chars(host.as_slice(), env, warnings) {
        Some(port) => port,
        None => {
            return (copy_range(value, 0, value.len()), false);
        },
    };
    let shifted: u64 = port as u64 + port_offset as u64;
    if shifted > MAX_PORT {
        push_warning(warnings, "Port overflow: ", value);
        proof {
            assert(views(warnings@) =~= views(old(warnings)@) + found.1.push(
                "Port overflow: "@ + value@,
            ));
        }
        return (copy_range(value, 0, value.len()), false);
    }
    let digits = decimal_chars(shifted);
    (rebuild_short(&parts, digits.as_slice(), &protocol), true)
}

/// Shifts the host port of the short-form entry `value` by `port_offset`.
///
/// Returns the entry to write and whether its host port was shifted. An
/// entry that publishes nothing, or whose host port cannot be shifted, is
/// returned as it came; the reasons are added to `warnings`.
pub fn rewrite_short_port(
    value: &str,
    port_offset: u16,
    env: &Env,
    warnings: &mut Vec<String>,
) -> (r: (String, bool))
    ensures
        r.0@ == short_port(value@, port_offset, env@).0,
        r.1 == short_port(value@, port_offset, env@).1,
        views(final(warnings)@) == views(old(warnings)@) + short_port(
            value@,
            port_offset,
            env@,
        ).2,
{
    let chars = chars_of(value);
    let (text, changed) = rewrite_short_chars(chars.as_slice(), port_offset, env, warnings);
    (string_of(text.as_slice()), changed)
}

/// The host side and the container side of a short-form entry.
pub fn parse_short_port_entry(value: &str) -> (r: Option<(String, String)>)
    ensures
        match r {
            Some(pair) => short_entry(value@) == Some((pair.0@, pair.1@)),
            None => short_entry(value@) is None,
        },
{
    let chars = chars_of(value);
    let (parts, protocol) = short_pieces(chars.as_slice());
    if parts.len() != 2 && parts.len() != 3 {
        return None;
    }
    let last = parts.len() - 1;
    assert(texts(parts@)[0] == parts@[0]@);
    assert(texts(parts@)[1] == parts@[1]@);
    assert(texts(parts@)[last as int] == parts@[last as int]@);
    let mut host: Vec<char> = Vec::new();
    push_all(&mut host, parts[0].as_slice());
    if parts.len() == 3 {
        host.push(':');
        push_all(&mut host, parts[1].as_slice());
    }
    let mut target: Vec<char> = Vec::new();
    push_all(&mut target, parts[last].as_slice());
    match &protocol {
        Some(p) => {
            target.push('/');
            push_all(&mut target, p.as_slice());
        },
        None => {},
    }
    proof {
        let tail = match protocol {
            Some(p) => seq!['/'] + p@,
            None => Seq::<char>::empty(),
        };
        assert(target@ =~= parts@[last as int]@ + tail);
        if parts.len() == 2 {
            assert(host@ =~= parts@[0]@);
        } else {
            assert(host@ =~= parts@[0]@ + seq![':'] + parts@[1]@);
        }
    }
    Some((string_of(host.as_slice()), string_of(target.as_slice())))
}

/// The address to open in a browser for the host side of a published port.
pub fn host_to_link(host: &str) -> (r: Option<String>)
    ensures
        match r {
            Some(link) => host_link(host@) == Some(link@),
            None => host_link(host@) is None,
        },
{
    let chars = chars_of(host);
    if all_digit_chars(chars.as_slice()) {
        let mut link = String::from_str("http://localhost:");
        link.append(host);
        return Some(link);
    }
    proof {
        lemma_last_index(chars@, ':');
    }
    match find_last_char(chars.as_slice(), ':') {
        Some(k) => {
            let ip = copy_range(chars.as_slice(), 0, k);
            let port = copy_range(chars.as_slice(), k + 1, chars.len());
            proof {
                assert(ip@ =~= chars@.take(k as int));
                assert(port@ =~= chars@.skip(k + 1));
            }
            if !all_digit_chars(port.as_slice()) {
                return None;
            }
            let wildcard = chars_of("0.0.0.0");
            let mut link = String::from_str("http://");
            if same_chars(ip.as_slice(), wildcard.as_slice()) {
                link.append("localhost");
            } else {
                link.append(string_of(ip.as_slice()).as_str());
            }
            link.append(":");
            link.append(string_of(port.as_slice()).as_str());
            proof {
                reveal_strlit(":");
                assert(":"@ =~= seq![':']);
            }
            Some(link)
        },
        None => None,
    }
}

/// The short-form entry `host:container`, where the host port is a run of
/// digits and the container side holds neither a colon nor a slash, has
/// these two segments and no protocol.
pub proof fn lemma_short_parts_pair(host: Seq<char>, container: Seq<char>)
    requires
        all_digits(host),
        !container.contains(':'),
        !container.contains('/'),
    ensures
        short_parts(host + seq![':'] + container) == seq![host, container],
        short_protocol(host + seq![':'] + container) is None,
{
    let value = host + seq![':'] + container;
    assert(!host.contains(':')) by {
        if host.contains(':') {
            let i = choose|i: int| 0 <= i < host.len() && host[i] == ':';
            assert(is_digit(host[i]));
        }
    }
    assert(!value.contains('/')) by {
        if value.contains('/') {
            let i = choose|i: int| 0 <= i < value.len() && value[i] == '/';
            if i < host.len() {
                assert(value[i] == host[i]);
                assert(is_digit(host[i]));
            } else if i > host.len() {
                assert(value[i] == container[i - host.len() - 1]);
            }
        }
    }
    lemma_last_index_absent(value, '/');
    lemma_split_first(host, container, ':');
    lemma_split_whole(container, ':');
    assert(seq![host] + seq![container] =~= seq![host, container]);
}

/// Shifting a short-form entry `host:container` whose host port is written
/// in digits: where the shifted port is a port, it takes the place of the
/// host port and nothing else changes, without a warning; where it would
/// pass 65535, the entry stays as it is and one warning says that a port
/// overflowed.
///
/// The host port must fit 64 bits to be read as a number at all.
pub proof fn lemma_short_port_shifts(
    host: Seq<char>,
    container: Seq<char>,
    offset: u16,
    env: Map<Seq<char>, Seq<char>>,
)
    requires
        host.len() > 0,
        all_digits(host),
        decimal_value(host) <= u64::MAX,
        !container.contains(':'),
        !container.contains('/'),
    ensures
        ({
            let value = host + seq![':'] + container;
            let shifted = decimal_value(host) + offset;
            let (text, changed, warnings) = short_port(value, offset, env);
            if shifted <= MAX_PORT {
                &&& text == decimal_text(shifted as nat) + seq![':'] + container
                &&& changed
                &&& warnings.len() == 0
            } else {
                &&& text == value
                &&& !changed
                &&& warnings == seq!["Port overflow: "@ + value] || warnings == seq![
                    "Host port overflow: "@ + host,
                ]
            }
        }),
{
    let value = host + seq![':'] + container;
    lemma_short_parts_pair(host, container);
    let parts = short_parts(value);
    assert(parts[parts.len() - 2] == host);
    assert(parts.last() == container);
    let shifted = decimal_value(host) + offset;
    if shifted <= MAX_PORT {
        assert(short_rebuilt(parts, decimal_text(shifted as nat), None) =~= decimal_text(
            shifted as nat,
        ) + seq![':'] + container);
    } else {
        assert(Seq::<Seq<char>>::empty().push("Port overflow: "@ + value) =~= seq![
            "Port overflow: "@ + value,
        ]);
        assert(Seq::<Seq<char>>::empty().push("Host port overflow: "@ + host) =~= seq![
            "Host port overflow: "@ + host,
        ]);
    }
}

/// `text` reads the same after it is resolved to a number and written out
/// again, where it resolves to one: it is that number in its shortest
/// writing, not a reference to a variable and not a number with leading
/// zeros.
pub open spec fn plain_number(text: Seq<char>, env: Map<Seq<char>, Seq<char>>) -> bool {
    match env_number(text, env).0 {
        Some(n) => text == decimal_text(n as nat),
        None => true,
    }
}

/// The host port of the short-form entry `value`, where it has one, is a
/// plain number.
pub open spec fn plain_short(value: Seq<char>, env: Map<Seq<char>, Seq<char>>) -> bool {
    let parts = short_parts(value);
    parts.len() == 2 || parts.len() == 3 ==> plain_number(parts[parts.len() - 2], env)
}

/// A shift by zero leaves a short-form entry as it is written, where its
/// host port is a plain number.
pub proof fn lemma_short_port_zero(value: Seq<char>, env: Map<Seq<char>, Seq<char>>)
    requires
        plain_short(value, env),
    ensures
        short_port(value, 0, env).0 == value,
{
    let parts = short_parts(value);
    if parts.len() == 2 || parts.len() == 3 {
        let host = parts[parts.len() - 2];
        let found = host_port(host, env);
        if found.0 is Some {
            let p = found.0->Some_0;
            assert(env_number(host, env).0 == Some(p as u64));
            assert(host == decimal_text(p as nat));
            let main = short_main(value);
            lemma_join_split(main, ':');
            lemma_last_index(value, '/');
            let k = last_index(value, '/');
            let tail = match short_protocol(value) {
                Some(protocol) => seq!['/'] + protocol,
                None => Seq::<char>::empty(),
            };
            assert(main + tail =~= value) by {
                if k >= 0 {
                    assert(value.take(k) + (seq!['/'] + value.skip(k + 1)) =~= value);
                }
            }
            assert(join(parts, seq![':']) == main);
            if parts.len() == 2 {
                assert(parts.drop_last() =~= seq![parts[0]]);
                assert(join(parts.drop_last(), seq![':']) == parts[0]);
                assert(short_rebuilt(parts, host, short_protocol(value)) =~= join(
                    parts,
                    seq![':'],
                ) + tail);
            } else {
                let front = parts.drop_last();
                assert(front.drop_last() =~= seq![parts[0]]);
                assert(join(front.drop_last(), seq![':']) == parts[0]);
                assert(front.last() == parts[1]);
                assert(join(front, seq![':']) == parts[0] + seq![':'] + parts[1]);
                assert(short_rebuilt(parts, host, short_protocol(value)) =~= join(
                    parts,
                    seq![':'],
                ) + tail);
            }
        }
    }
}

} // verus!
