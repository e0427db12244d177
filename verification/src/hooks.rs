//! Hooks: commands of the repository that run before and after an operation.

use vstd::prelude::*;
use vstd::string::*;
use crate::names::{instance_name, machine_name};
use crate::text::{
    chars_of, copy_range, decimal_chars, decimal_text, has_prefix, starts_with, string_of,
    trim_chars, trimmed,
};

verus! {

/// What a hook is told about the operation it runs around.
pub struct HookContext {
    pub name: String,
    pub worktree_path: String,
    pub main_repo: String,
    pub port_offset: u16,
    pub compose_base: String,
    pub compose_file: String,
}

/// Where and how a configured hook command runs.
pub enum HookAction {
    /// The command is blank: nothing runs.
    Nothing,
    /// The command runs inside the machine of the instance.
    InMachine(String),
    /// The command runs in a shell on the host.
    OnHost(String),
}

/// What a `HookAction` holds, as mathematical text.
pub enum HookActionView {
    Nothing,
    InMachine(Seq<char>),
    OnHost(Seq<char>),
}

impl View for HookAction {
    type V = HookActionView;

    open spec fn view(&self) -> HookActionView {
        match self {
            HookAction::Nothing => HookActionView::Nothing,
            HookAction::InMachine(command) => HookActionView::InMachine(command@),
            HookAction::OnHost(command) => HookActionView::OnHost(command@),
        }
    }
}

/// The action that a configured command asks for: none where the trimmed
/// command is empty; inside the machine where it begins with `vm:` or
/// `limactl:`, with what follows, trimmed; else on the host.
pub open spec fn planned(command: Seq<char>) -> HookActionView {
    let text = trimmed(command);
    if text.len() == 0 {
        HookActionView::Nothing
    } else if starts_with(text, "vm:"@) {
        HookActionView::InMachine(trimmed(text.skip("vm:"@.len() as int)))
    } else if starts_with(text, "limactl:"@) {
        HookActionView::InMachine(trimmed(text.skip("limactl:"@.len() as int)))
    } else {
        HookActionView::OnHost(text)
    }
}

/// Decides where a configured hook command runs.
pub fn plan_config_hook(command: &str) -> (r: HookAction)
    ensures
        r@ == planned(command@),
{
    let chars = chars_of(command);
    let text = trim_chars(chars.as_slice());
    if text.len() == 0 {
        return HookAction::Nothing;
    }
    let vm = chars_of("vm:");
    let limactl = chars_of("limactl:");
    if has_prefix(text.as_slice(), vm.as_slice()) {
        let rest = copy_range(text.as_slice(), vm.len(), text.len());
        proof {
            assert(rest@ =~= text@.skip("vm:"@.len() as int));
        }
        return HookAction::InMachine(string_of(trim_chars(rest.as_slice()).as_slice()));
    }
    if has_prefix(text.as_slice(), limactl.as_slice()) {
        let rest = copy_range(text.as_slice(), limactl.len(), text.len());
        proof {
            assert(rest@ =~= text@.skip("limactl:"@.len() as int));
        }
        return HookAction::InMachine(string_of(trim_chars(rest.as_slice()).as_slice()));
    }
    HookAction::OnHost(string_of(text.as_slice()))
}

/// The variables that a hook finds in its environment, in the order in which
/// they are set.
pub open spec fn hook_variables(ctx: HookContext) -> Seq<(Seq<char>, Seq<char>)> {
    seq![
        ("FRACTA_NAME"@, ctx.name@),
        ("FRACTA_PATH"@, ctx.worktree_path@),
        ("MAIN_REPO"@, ctx.main_repo@),
        ("PORT_OFFSET"@, decimal_text(ctx.port_offset as nat)),
        ("COMPOSE_BASE"@, ctx.compose_base@),
        ("COMPOSE_OVERRIDE"@, ctx.compose_file@),
    ]
}

/// The views of a vector of pairs of strings.
pub open spec fn pair_views(pairs: Seq<(String, String)>) -> Seq<(Seq<char>, Seq<char>)> {
    Seq::new(pairs.len(), |i: int| (pairs[i].0@, pairs[i].1@))
}

/// The port offset of a context, in digits.
pub fn offset_text(ctx: &HookContext) -> (r: String)
    ensures
        r@ == decimal_text(ctx.port_offset as nat),
{
    let digits = decimal_chars(ctx.port_offset as u64);
    string_of(digits.as_slice())
}

/// The variables to set in the environment of a hook.
pub fn hook_environment(ctx: &HookContext) -> (r: Vec<(String, String)>)
    ensures
        pair_views(r@) == hook_variables(*ctx),
{
    let mut out: Vec<(String, String)> = Vec::new();
    out.push((String::from_str("FRACTA_NAME"), ctx.name.clone()));
    out.push((String::from_str("FRACTA_PATH"), ctx.worktree_path.clone()));
    out.push((String::from_str("MAIN_REPO"), ctx.main_repo.clone()));
    out.push((String::from_str("PORT_OFFSET"), offset_text(ctx)));
    out.push((String::from_str("COMPOSE_BASE"), ctx.compose_base.clone()));
    out.push((String::from_str("COMPOSE_OVERRIDE"), ctx.compose_file.clone()));
    assert(pair_views(out@) =~= hook_variables(*ctx));
    out
}

/// The shell line that runs `command` inside the machine with the variables
/// of the hook exported: one `export` of all six, each value in double
/// quotes, a semicolon, a space and the command.
pub open spec fn machine_script(command: Seq<char>, ctx: HookContext) -> Seq<char> {
    "export FRACTA_NAME=\""@ + ctx.name@ + "\" FRACTA_PATH=\""@ + ctx.worktree_path@
        + "\" MAIN_REPO=\""@ + ctx.main_repo@ + "\" PORT_OFFSET=\""@ + decimal_text(
        ctx.port_offset as nat,
    ) + "\" COMPOSE_BASE=\""@ + ctx.compose_base@ + "\" COMPOSE_OVERRIDE=\""@
        + ctx.compose_file@ + "\"; "@ + command
}

/// What is needed to run a hook command inside the machine of an instance.
pub struct MachineCommand {
    /// The machine to run in.
    pub instance: String,
    /// The line to hand to `bash -lc`.
    pub script: String,
}

/// Prepares the hook command `command` to run inside the machine of the
/// instance of `ctx`.
pub fn vm_command(command: &str, ctx: &HookContext) -> (r: MachineCommand)
    ensures
        r.instance@ == machine_name(ctx.name@),
        r.script@ == machine_script(command@, *ctx),
{
    let mut script = String::from_str("export FRACTA_NAME=\"");
    script.append(ctx.name.as_str());
    script.append("\" FRACTA_PATH=\"");
    script.append(ctx.worktree_path.as_str());
    script.append("\" MAIN_REPO=\"");
    script.append(ctx.main_repo.as_str());
    script.append("\" PORT_OFFSET=\"");
    script.append(offset_text(ctx).as_str());
    script.append("\" COMPOSE_BASE=\"");
    script.append(ctx.compose_base.as_str());
    script.append("\" COMPOSE_OVERRIDE=\"");
    script.append(ctx.compose_file.as_str());
    script.append("\"; ");
    script.append(command);
    MachineCommand { instance: instance_name(ctx.name.as_str()), script }
}

} // verus!
