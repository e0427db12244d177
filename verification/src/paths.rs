//! Where things lie: paths below a repository and below a worktree.
//!
//! Paths are texts with `/` between their components.

use vstd::prelude::*;
use vstd::string::*;
use crate::config::Config;

verus! {

/// `path` below the directory `base`: `path` itself where it starts at the
/// root, else `base`, a separator unless `base` is empty or ends with one,
/// and `path`.
pub open spec fn joined(base: Seq<char>, path: Seq<char>) -> Seq<char> {
    if path.len() > 0 && path[0] == '/' {
        path
    } else if base.len() == 0 || base.last() == '/' {
        base + path
    } else {
        base + seq!['/'] + path
    }
}

/// The path of `path` below the directory `base`.
pub fn join_path(base: &str, path: &str) -> (r: String)
    ensures
        r@ == joined(base@, path@),
{
    let n = base.unicode_len();
    if path.unicode_len() > 0 && path.get_char(0) == '/' {
        return String::from_str(path);
    }
    let mut out = String::from_str(base);
    if n > 0 && base.get_char(n - 1) != '/' {
        out.append("/");
        proof {
            reveal_strlit("/");
            assert("/"@ =~= seq!['/']);
        }
    }
    out.append(path);
    out
}

/// The directory that holds what this tool keeps for a worktree or a
/// repository.
pub fn fracta_worktree_dir(worktree_path: &str) -> (r: String)
    ensures
        r@ == joined(worktree_path@, ".fracta"@),
{
    join_path(worktree_path, ".fracta")
}

/// The base document of the service stack of a worktree: the configured
/// path, below the worktree unless it starts at the root.
pub fn compose_base_path(config: &Config, worktree_path: &str) -> (r: String)
    ensures
        r@ == joined(
            worktree_path@,
            match config.compose_base {
                Some(path) => path@,
                None => "docker-compose.yml"@,
            },
        ),
{
    join_path(worktree_path, config.compose_base())
}

/// The overlay that is generated for a worktree.
pub fn compose_generated_path(worktree_path: &str) -> (r: String)
    ensures
        r@ == joined(joined(worktree_path@, ".fracta"@), "compose.generated.yml"@),
{
    let dir = fracta_worktree_dir(worktree_path);
    join_path(dir.as_str(), "compose.generated.yml")
}

/// The script of the hook `hook` in the repository at `main_repo`.
pub fn hook_path(main_repo: &str, hook: &str) -> (r: String)
    ensures
        r@ == joined(joined(joined(main_repo@, ".fracta"@), "hooks"@), hook@),
{
    let dir = fracta_worktree_dir(main_repo);
    let hooks = join_path(dir.as_str(), "hooks");
    join_path(hooks.as_str(), hook)
}

} // verus!
