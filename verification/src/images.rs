//! The images that the service stack of a worktree runs.

use vstd::prelude::*;
use vstd::string::*;
use serde_json::Value;
use crate::json::{
    json_as_object, json_as_str, json_error_text, json_from_str, json_get, json_node, member,
    member_nodes, object_members, object_pairs, parsed_json, JsonNode,
};
use crate::names::{sanitize_name, sanitized};
use crate::order::{ascending, insert_name};
use crate::text::views;

verus! {

/// The name of the project of a service stack: the sanitized `name` of its
/// configuration, or `fallback` where it has none.
pub open spec fn project_of(config: JsonNode, fallback: Seq<char>) -> Seq<char> {
    match member(config, "name"@) {
        Some(JsonNode::Text(name)) => sanitized(name),
        _ => fallback,
    }
}

/// The image that a service runs: the `image` of its definition, or the
/// image that is built for it, called after project and service.
pub open spec fn image_of(project: Seq<char>, service: Seq<char>, definition: JsonNode) -> Seq<
    char,
> {
    match member(definition, "image"@) {
        Some(JsonNode::Text(image)) => image,
        _ => project + seq!['-'] + service,
    }
}

/// `name` is the image of one of the services.
pub open spec fn is_image(
    services: Seq<(Seq<char>, JsonNode)>,
    project: Seq<char>,
    name: Seq<char>,
) -> bool {
    exists|i: int|
        0 <= i < services.len() && name == image_of(
            project,
            (#[trigger] services[i]).0,
            services[i].1,
        )
}

/// The services of a configuration, where it has them as an object.
pub open spec fn services_of(config: JsonNode) -> Option<Seq<(Seq<char>, JsonNode)>> {
    match member(config, "services"@) {
        Some(JsonNode::Object(services)) => Some(services),
        _ => None,
    }
}

/// The images of the services of a configuration, each once and in
/// dictionary order; nothing where the configuration holds no services.
pub fn compose_images(config: &Value, fallback_project: &str) -> (r: Option<Vec<String>>)
    ensures
        match r {
            Some(images) => {
                &&& services_of(json_node(*config)) is Some
                &&& ascending(views(images@))
                &&& forall|name: Seq<char>|
                    views(images@).contains(name) <==> is_image(
                        services_of(json_node(*config))->Some_0,
                        project_of(json_node(*config), fallback_project@),
                        name,
                    )
            },
            None => services_of(json_node(*config)) is None,
        },
{
    let project = match json_get(config, "name") {
        Some(field) => match json_as_str(field) {
            Some(name) => sanitize_name(name),
            None => String::from_str(fallback_project),
        },
        None => String::from_str(fallback_project),
    };
    let services = match json_get(config, "services") {
        Some(field) => match json_as_object(field) {
            Some(services) => services,
            None => {
                return None;
            },
        },
        None => {
            return None;
        },
    };
    let pairs = object_pairs(services);
    let ghost all = object_members(*services);
    let mut images: Vec<String> = Vec::new();
    let mut i: usize = 0;
    proof {
        assert forall|name: Seq<char>| !views(images@).contains(name) by {}
    }
    while i < pairs.len()
        invariant
            0 <= i <= pairs.len(),
            member_nodes(pairs@) == all,
            ascending(views(images@)),
            forall|name: Seq<char>|
                views(images@).contains(name) <==> is_image(all.take(i as int), project@, name),
        decreases pairs.len() - i,
    {
        let ghost before = views(images@);
        let ghost done = all.take(i as int);
        let ghost next = all.take(i + 1);
        assert(all[i as int] == (pairs@[i as int].0@, json_node(*pairs@[i as int].1)));
        let image = match json_get(pairs[i].1, "image") {
            Some(field) => match json_as_str(field) {
                Some(image) => Some(String::from_str(image)),
                None => None,
            },
            None => None,
        };
        let name = match image {
            Some(image) => image,
            None => {
                let mut built = project.clone();
                built.append("-");
                built.append(pairs[i].0.as_str());
                proof {
                    reveal_strlit("-");
                    assert("-"@ =~= seq!['-']);
                }
                built
            },
        };
        assert(name@ == image_of(project@, all[i as int].0, all[i as int].1));
        insert_name(&mut images, name);
        proof {
            assert forall|text: Seq<char>| views(images@).contains(text) <==> is_image(
                next,
                project@,
                text,
            ) by {
                if is_image(done, project@, text) {
                    let k = choose|k: int|
                        0 <= k < done.len() && text == image_of(
                            project@,
                            (#[trigger] done[k]).0,
                            done[k].1,
                        );
                    assert(next[k] == done[k]);
                }
                if text == name@ {
                    assert(next[i as int] == all[i as int]);
                }
                if is_image(next, project@, text) {
                    let k = choose|k: int|
                        0 <= k < next.len() && text == image_of(
                            project@,
                            (#[trigger] next[k]).0,
                            next[k].1,
                        );
                    if k < i {
                        assert(done[k] == next[k]);
                    } else {
                        assert(next[k] == all[i as int]);
                    }
                }
            }
        }
        i += 1;
    }
    proof {
        assert(all.take(pairs.len() as int) =~= all);
    }
    Some(images)
}

/// Why the images of a service stack could not be told.
#[derive(Debug)]
pub enum ImagesError {
    /// The configuration is not JSON; the parser's message.
    Parse(String),
    /// The configuration holds no services.
    NoServices,
}

impl ImagesError {
    /// A sentence that says what went wrong.
    pub fn message(&self) -> (r: String)
        ensures
            r@ == match self {
                ImagesError::Parse(detail) => "Failed to parse compose config JSON: "@ + detail@,
                ImagesError::NoServices => "Compose config does not contain services"@,
            },
    {
        match self {
            ImagesError::Parse(detail) => {
                let mut text = String::from_str("Failed to parse compose config JSON: ");
                text.append(detail.as_str());
                text
            },
            ImagesError::NoServices => String::from_str(
                "Compose config does not contain services",
            ),
        }
    }
}

/// The images of the service stack whose resolved configuration, as
/// `docker compose config` prints it in JSON, is `config_json`; each once
/// and in dictionary order.
///
/// A service without an image of its own runs the image that is built for
/// it, called after the project and the service. The project is called as
/// the configuration says or, sanitized, as the directory of the worktree.
pub fn collect_compose_images(config_json: &str, directory_name: &str) -> (r: Result<
    Vec<String>,
    ImagesError,
>)
    ensures
        match parsed_json(config_json@) {
            None => r is Err && r->Err_0 is Parse,
            Some(config) => match services_of(config) {
                None => r is Err && r->Err_0 is NoServices,
                Some(services) => {
                    &&& r is Ok
                    &&& ascending(views(r->Ok_0@))
                    &&& forall|name: Seq<char>|
                        views(r->Ok_0@).contains(name) <==> is_image(
                            services,
                            project_of(config, sanitized(directory_name@)),
                            name,
                        )
                },
            },
        },
{
    let config = match json_from_str(config_json) {
        Ok(config) => config,
        Err(e) => {
            return Err(ImagesError::Parse(json_error_text(&e)));
        },
    };
    let fallback = sanitize_name(directory_name);
    match compose_images(&config, fallback.as_str()) {
        Some(images) => Ok(images),
        None => Err(ImagesError::NoServices),
    }
}

} // verus!
