//! The state of the virtual machine of an instance, as its manager reports
//! it.

use vstd::prelude::*;
use vstd::string::*;
use crate::text::same_text;
use crate::json::{json_as_str, json_from_str, json_get, json_node, member, parsed_json, JsonNode};
use crate::text::{chars_of, split, split_chars, string_of, texts, trim_chars, trimmed};

verus! {

/// Whether the machine of an instance runs.
#[derive(Debug, Clone, Copy, PartialEq, Eq, Structural)]
pub enum InstanceStatus {
    Running,
    Stopped,
    NotFound,
}

impl InstanceStatus {
    /// The name of the status.
    pub fn label(&self) -> (r: String)
        ensures
            r@ == match self {
                InstanceStatus::Running => "Running"@,
                InstanceStatus::Stopped => "Stopped"@,
                InstanceStatus::NotFound => "NotFound"@,
            },
    {
        match self {
            InstanceStatus::Running => String::from_str("Running"),
            InstanceStatus::Stopped => String::from_str("Stopped"),
            InstanceStatus::NotFound => String::from_str("NotFound"),
        }
    }
}

/// What an entry of the manager's list says of the machine `instance`: its
/// status, where the entry is an object whose `name` is that machine and
/// whose `status` is a text. Every status but `Running` counts as stopped.
pub open spec fn entry_status(entry: JsonNode, instance: Seq<char>) -> Option<InstanceStatus> {
    match (member(entry, "name"@), member(entry, "status"@)) {
        (Some(JsonNode::Text(name)), Some(JsonNode::Text(status))) => if name == instance {
            if status == "Running"@ {
                Some(InstanceStatus::Running)
            } else {
                Some(InstanceStatus::Stopped)
            }
        } else {
            None
        },
        _ => None,
    }
}

/// What a line of the manager's list says of the machine `instance`: what
/// its entry says, where the trimmed line is not empty and is JSON.
pub open spec fn line_status(line: Seq<char>, instance: Seq<char>) -> Option<InstanceStatus> {
    let text = trimmed(line);
    if text.len() == 0 {
        None
    } else {
        match parsed_json(text) {
            Some(entry) => entry_status(entry, instance),
            None => None,
        }
    }
}

/// What the first line that speaks of the machine `instance` says of it;
/// `NotFound` where none does.
pub open spec fn listed_status(lines: Seq<Seq<char>>, instance: Seq<char>) -> InstanceStatus
    decreases lines.len(),
{
    if lines.len() == 0 {
        InstanceStatus::NotFound
    } else {
        match line_status(lines[0], instance) {
            Some(status) => status,
            None => listed_status(lines.drop_first(), instance),
        }
    }
}

/// What one line of the manager's list says of the machine `instance_name`.
pub fn parse_status_line(line: &[char], instance_name: &str) -> (r: Option<InstanceStatus>)
    ensures
        r == line_status(line@, instance_name@),
{
    let text = trim_chars(line);
    if text.len() == 0 {
        return None;
    }
    match json_from_str(string_of(text.as_slice()).as_str()) {
        Ok(entry) => status_of_entry(&entry, instance_name),
        Err(_) => None,
    }
}

/// What a parsed entry of the manager's list says of the machine
/// `instance_name`.
pub fn status_of_entry(entry: &serde_json::Value, instance_name: &str) -> (r: Option<
    InstanceStatus,
>)
    ensures
        r == entry_status(json_node(*entry), instance_name@),
{
    let value = entry;
    let name = match json_get(value, "name") {
        Some(field) => match json_as_str(field) {
            Some(name) => name,
            None => {
                return None;
            },
        },
        None => {
            return None;
        },
    };
    let status = match json_get(value, "status") {
        Some(field) => match json_as_str(field) {
            Some(status) => status,
            None => {
                return None;
            },
        },
        None => {
            return None;
        },
    };
    if !same_text(name, instance_name) {
        return None;
    }
    if same_text(status, "Running") {
        Some(InstanceStatus::Running)
    } else {
        Some(InstanceStatus::Stopped)
    }
}

/// Reads the status of the machine `instance_name` from the list that the
/// manager prints: one JSON object a line.
pub fn parse_status_from_json(json: &str, instance_name: &str) -> (r: InstanceStatus)
    ensures
        r == listed_status(split(json@, '\n'), instance_name@),
{
    let chars = chars_of(json);
    let lines = split_chars(chars.as_slice(), '\n');
    let mut i: usize = 0;
    proof {
        assert(texts(lines@).skip(0) =~= texts(lines@));
    }
    while i < lines.len()
        invariant
            0 <= i <= lines.len(),
            texts(lines@) == split(json@, '\n'),
            listed_status(texts(lines@), instance_name@) == listed_status(
                texts(lines@).skip(i as int),
                instance_name@,
            ),
        decreases lines.len() - i,
    {
        proof {
            assert(texts(lines@).skip(i as int)[0] == lines@[i as int]@);
            assert(texts(lines@).skip(i as int).drop_first() =~= texts(lines@).skip(i + 1));
        }
        match parse_status_line(lines[i].as_slice(), instance_name) {
            Some(status) => {
                return status;
            },
            None => {},
        }
        i += 1;
    }
    InstanceStatus::NotFound
}

} // verus!
