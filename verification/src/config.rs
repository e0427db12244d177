//! What a repository configures: where its service stack is defined, and
//! the commands to run around each operation.

use vstd::prelude::*;
use vstd::string::*;
use crate::text::same_text;
use crate::order::{ascending, insert_name};
use crate::text::{chars_of, ends_with, has_prefix, has_suffix, starts_with, views};

verus! {

/// The commands to run before and after each operation.
#[derive(Debug)]
pub struct HookCommands {
    pub pre_add: Option<String>,
    pub post_add: Option<String>,
    pub pre_up: Option<String>,
    pub post_up: Option<String>,
    pub pre_down: Option<String>,
    pub post_down: Option<String>,
    pub pre_remove: Option<String>,
    pub post_remove: Option<String>,
    pub pre_restart: Option<String>,
    pub post_restart: Option<String>,
}

/// The configuration of a repository.
#[derive(Debug)]
pub struct Config {
    pub compose_base: Option<String>,
    pub hooks: Option<HookCommands>,
}

/// No command for any operation.
pub open spec fn no_hooks() -> HookCommands {
    HookCommands {
        pre_add: None,
        post_add: None,
        pre_up: None,
        post_up: None,
        pre_down: None,
        post_down: None,
        pre_remove: None,
        post_remove: None,
        pre_restart: None,
        post_restart: None,
    }
}

/// The command that `hooks` holds for the hook called `hook`.
pub open spec fn hook_of(hooks: HookCommands, hook: Seq<char>) -> Option<String> {
    if hook == "pre_add"@ {
        hooks.pre_add
    } else if hook == "post_add"@ {
        hooks.post_add
    } else if hook == "pre_up"@ {
        hooks.pre_up
    } else if hook == "post_up"@ {
        hooks.post_up
    } else if hook == "pre_down"@ {
        hooks.pre_down
    } else if hook == "post_down"@ {
        hooks.post_down
    } else if hook == "pre_remove"@ {
        hooks.pre_remove
    } else if hook == "post_remove"@ {
        hooks.post_remove
    } else if hook == "pre_restart"@ {
        hooks.pre_restart
    } else if hook == "post_restart"@ {
        hooks.post_restart
    } else {
        None
    }
}

/// `incoming` where it is set, else `current`.
pub open spec fn prefer(incoming: Option<String>, current: Option<String>) -> Option<String> {
    if incoming is Some {
        incoming
    } else {
        current
    }
}

/// The commands of `current` with those that `incoming` sets in their place.
pub open spec fn merged_hooks(
    current: Option<HookCommands>,
    incoming: HookCommands,
) -> HookCommands {
    let base = match current {
        Some(hooks) => hooks,
        None => no_hooks(),
    };
    HookCommands {
        pre_add: prefer(incoming.pre_add, base.pre_add),
        post_add: prefer(incoming.post_add, base.post_add),
        pre_up: prefer(incoming.pre_up, base.pre_up),
        post_up: prefer(incoming.post_up, base.post_up),
        pre_down: prefer(incoming.pre_down, base.pre_down),
        post_down: prefer(incoming.post_down, base.post_down),
        pre_remove: prefer(incoming.pre_remove, base.pre_remove),
        post_remove: prefer(incoming.post_remove, base.post_remove),
        pre_restart: prefer(incoming.pre_restart, base.pre_restart),
        post_restart: prefer(incoming.post_restart, base.post_restart),
    }
}

/// `current` with what `incoming` sets in its place: the base document, and
/// each command of its hooks. A configuration without hooks leaves the hooks
/// as they are.
pub open spec fn merged_config(current: Config, incoming: Config) -> Config {
    Config {
        compose_base: prefer(incoming.compose_base, current.compose_base),
        hooks: match incoming.hooks {
            Some(hooks) => Some(merged_hooks(current.hooks, hooks)),
            None => current.hooks,
        },
    }
}

impl Default for HookCommands {
    /// No command for any operation.
    fn default() -> (r: HookCommands)
        ensures
            r == no_hooks(),
    {
        HookCommands {
            pre_add: None,
            post_add: None,
            pre_up: None,
            post_up: None,
            pre_down: None,
            post_down: None,
            pre_remove: None,
            post_remove: None,
            pre_restart: None,
            post_restart: None,
        }
    }
}

impl Default for Config {
    /// Nothing configured.
    fn default() -> (r: Config)
        ensures
            r.compose_base is None,
            r.hooks is None,
    {
        Config { compose_base: None, hooks: None }
    }
}

/// The text of an optional string.
pub fn text_of(value: &Option<String>) -> (r: Option<&str>)
    ensures
        match r {
            Some(text) => value is Some && text@ == value->Some_0@,
            None => value is None,
        },
{
    match value {
        Some(text) => Some(text.as_str()),
        None => None,
    }
}

impl Config {
    /// The base document of the service stack: the configured one, or
    /// `docker-compose.yml`.
    pub fn compose_base(&self) -> (r: &str)
        ensures
            r@ == match self.compose_base {
                Some(path) => path@,
                None => "docker-compose.yml"@,
            },
    {
        match &self.compose_base {
            Some(path) => path.as_str(),
            None => "docker-compose.yml",
        }
    }

    /// The command configured for the hook called `hook`, if there is one.
    pub fn hook_command(&self, hook: &str) -> (r: Option<&str>)
        ensures
            match r {
                Some(command) => self.hooks is Some && hook_of(self.hooks->Some_0, hook@) is Some
                    && command@ == hook_of(self.hooks->Some_0, hook@)->Some_0@,
                None => self.hooks is None || hook_of(self.hooks->Some_0, hook@) is None,
            },
    {
        let hooks = match &self.hooks {
            Some(hooks) => hooks,
            None => {
                return None;
            },
        };
        if same_text(hook, "pre_add") {
            text_of(&hooks.pre_add)
        } else if same_text(hook, "post_add") {
            text_of(&hooks.post_add)
        } else if same_text(hook, "pre_up") {
            text_of(&hooks.pre_up)
        } else if same_text(hook, "post_up") {
            text_of(&hooks.post_up)
        } else if same_text(hook, "pre_down") {
            text_of(&hooks.pre_down)
        } else if same_text(hook, "post_down") {
            text_of(&hooks.post_down)
        } else if same_text(hook, "pre_remove") {
            text_of(&hooks.pre_remove)
        } else if same_text(hook, "post_remove") {
            text_of(&hooks.post_remove)
        } else if same_text(hook, "pre_restart") {
            text_of(&hooks.pre_restart)
        } else if same_text(hook, "post_restart") {
            text_of(&hooks.post_restart)
        } else {
            None
        }
    }
}

/// Lays the commands of `incoming` over those of `target`: each command
/// that `incoming` sets replaces the one of `target`.
pub fn merge_hooks(target: &mut Option<HookCommands>, incoming: HookCommands)
    ensures
        *final(target) == Some(merged_hooks(*old(target), incoming)),
{
    let mut current: Option<HookCommands> = None;
    std::mem::swap(target, &mut current);
    let mut dst = match current {
        Some(hooks) => hooks,
        None => HookCommands::default(),
    };
    if incoming.pre_add.is_some() {
        dst.pre_add = incoming.pre_add;
    }
    if incoming.post_add.is_some() {
        dst.post_add = incoming.post_add;
    }
    if incoming.pre_up.is_some() {
        dst.pre_up = incoming.pre_up;
    }
    if incoming.post_up.is_some() {
        dst.post_up = incoming.post_up;
    }
    if incoming.pre_down.is_some() {
        dst.pre_down = incoming.pre_down;
    }
    if incoming.post_down.is_some() {
        dst.post_down = incoming.post_down;
    }
    if incoming.pre_remove.is_some() {
        dst.pre_remove = incoming.pre_remove;
    }
    if incoming.post_remove.is_some() {
        dst.post_remove = incoming.post_remove;
    }
    if incoming.pre_restart.is_some() {
        dst.pre_restart = incoming.pre_restart;
    }
    if incoming.post_restart.is_some() {
        dst.post_restart = incoming.post_restart;
    }
    *target = Some(dst);
}

/// Lays the configuration `incoming` over `target`: what `incoming` sets
/// replaces what `target` had.
pub fn merge_config(target: &mut Config, incoming: Config)
    ensures
        *final(target) == merged_config(*old(target), incoming),
{
    if incoming.compose_base.is_some() {
        target.compose_base = incoming.compose_base;
    }
    match incoming.hooks {
        Some(hooks) => {
            merge_hooks(&mut target.hooks, hooks);
        },
        None => {},
    }
}

/// `name` is the name of a configuration file that is read after the main
/// one: `fracta.`, anything, `.toml`, but not `fracta.toml` itself.
pub open spec fn is_extra_config(name: Seq<char>) -> bool {
    name != "fracta.toml"@ && starts_with(name, "fracta."@) && ends_with(name, ".toml"@)
}

/// `name` is among `names`, and the name of a configuration file that is
/// read after the main one.
pub open spec fn is_extra_among(names: Seq<Seq<char>>, name: Seq<char>) -> bool {
    names.contains(name) && is_extra_config(name)
}

/// Whether `name` is the name of a configuration file that is read after the
/// main one.
pub fn is_extra_config_name(name: &str) -> (r: bool)
    ensures
        r == is_extra_config(name@),
{
    let chars = chars_of(name);
    let head = chars_of("fracta.");
    let tail = chars_of(".toml");
    !same_text(name, "fracta.toml") && has_prefix(chars.as_slice(), head.as_slice())
        && has_suffix(chars.as_slice(), tail.as_slice())
}

/// The configuration files among the files of a directory, in the order in
/// which they are read: `fracta.toml` first, where it is there, then every
/// `fracta.*.toml` in dictionary order, each once. A later file overrides an
/// earlier one.
pub fn config_files(names: &Vec<String>) -> (r: Vec<String>)
    ensures
        ({
            let main = views(names@).contains("fracta.toml"@);
            let extras = if main {
                views(r@).skip(1)
            } else {
                views(r@)
            };
            &&& main ==> r@.len() > 0 && r@[0]@ == "fracta.toml"@
            &&& ascending(extras)
            &&& forall|name: Seq<char>|
                extras.contains(name) <==> is_extra_among(views(names@), name)
        }),
{
    let mut main = false;
    let mut extras: Vec<String> = Vec::new();
    let mut i: usize = 0;
    let ghost all = views(names@);
    while i < names.len()
        invariant
            0 <= i <= names.len(),
            all == views(names@),
            main == all.take(i as int).contains("fracta.toml"@),
            ascending(views(extras@)),
            forall|name: Seq<char>|
                views(extras@).contains(name) <==> is_extra_among(all.take(i as int), name),
        decreases names.len() - i,
    {
        let ghost done = all.take(i as int);
        let ghost next = all.take(i + 1);
        let ghost before = views(extras@);
        let ghost seen = main;
        let name = &names[i];
        assert(all[i as int] == name@);
        if same_text(name.as_str(), "fracta.toml") {
            main = true;
        } else if is_extra_config_name(name.as_str()) {
            insert_name(&mut extras, name.clone());
        }
        proof {
            assert forall|text: Seq<char>| next.contains(text) <==> done.contains(text) || text
                == name@ by {
                if done.contains(text) {
                    let k = choose|k: int| 0 <= k < done.len() && done[k] == text;
                    assert(next[k] == text);
                }
                if text == name@ {
                    assert(next[i as int] == text);
                }
                if next.contains(text) {
                    let k = choose|k: int| 0 <= k < next.len() && next[k] == text;
                    if k < i {
                        assert(done[k] == text);
                    }
                }
            }
            assert(main == next.contains("fracta.toml"@));
            assert forall|text: Seq<char>| views(extras@).contains(text) <==> is_extra_among(
                next,
                text,
            ) by {
                assert(before.contains(text) <==> is_extra_among(done, text));
            }
        }
        i += 1;
    }
    proof {
        assert(all.take(names.len() as int) =~= all);
    }
    if main {
        let mut files: Vec<String> = Vec::new();
        files.push(String::from_str("fracta.toml"));
        let mut k: usize = 0;
        while k < extras.len()
            invariant
                0 <= k <= extras.len(),
                files@.len() == k + 1,
                files@[0]@ == "fracta.toml"@,
                views(files@).skip(1) =~= views(extras@).take(k as int),
            decreases extras.len() - k,
        {
            files.push(extras[k].clone());
            k += 1;
        }
        proof {
            assert(views(extras@).take(extras.len() as int) =~= views(extras@));
            assert(views(files@).skip(1) == views(extras@));
        }
        files
    } else {
        extras
    }
}

} // verus!
