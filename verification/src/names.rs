//! Names that are safe to use for directories, containers and machines.

use vstd::prelude::*;
use vstd::string::*;
use crate::text::{chars_of, copy_range, join, join_chars, split, split_chars, string_of, texts};

verus! {

/// `s` with every path separator turned into a hyphen.
pub open spec fn hyphenated(s: Seq<char>) -> Seq<char> {
    Seq::new(
        s.len(),
        |i: int|
            if s[i] == '/' {
                '-'
            } else {
                s[i]
            },
    )
}

/// The pieces of `parts` that are not empty, in order.
pub open spec fn non_empty(parts: Seq<Seq<char>>) -> Seq<Seq<char>>
    decreases parts.len(),
{
    if parts.len() == 0 {
        Seq::empty()
    } else if parts.last().len() > 0 {
        non_empty(parts.drop_last()).push(parts.last())
    } else {
        non_empty(parts.drop_last())
    }
}

/// A name made safe: path separators count as hyphens, runs of hyphens are
/// one hyphen, and none stands at either end.
pub open spec fn sanitized(s: Seq<char>) -> Seq<char> {
    join(non_empty(split(hyphenated(s), '-')), seq!['-'])
}

/// The name of the virtual machine that belongs to a worktree.
pub open spec fn machine_name(worktree: Seq<char>) -> Seq<char> {
    "fracta-"@ + sanitized(worktree)
}

/// The sanitized form of `name`, as characters.
pub fn sanitize_chars(name: &[char]) -> (r: Vec<char>)
    ensures
        r@ == sanitized(name@),
{
    let mut flat: Vec<char> = Vec::new();
    let mut i: usize = 0;
    while i < name.len()
        invariant
            0 <= i <= name.len(),
            flat@ =~= hyphenated(name@).take(i as int),
        decreases name.len() - i,
    {
        let c = name[i];
        flat.push(
            if c == '/' {
                '-'
            } else {
                c
            },
        );
        i += 1;
    }
    assert(flat@ =~= hyphenated(name@));
    let parts = split_chars(flat.as_slice(), '-');
    let mut kept: Vec<Vec<char>> = Vec::new();
    let mut k: usize = 0;
    while k < parts.len()
        invariant
            0 <= k <= parts.len(),
            texts(kept@) == non_empty(texts(parts@).take(k as int)),
        decreases parts.len() - k,
    {
        let ghost before = texts(kept@);
        proof {
            assert(texts(parts@).take(k + 1).drop_last() =~= texts(parts@).take(k as int));
            assert(texts(parts@).take(k + 1).last() == parts@[k as int]@);
        }
        if parts[k].len() > 0 {
            kept.push(copy_range(parts[k].as_slice(), 0, parts[k].len()));
            proof {
                assert(parts@[k as int]@.subrange(0, parts@[k as int]@.len() as int)
                    =~= parts@[k as int]@);
                assert(texts(kept@) =~= before.push(parts@[k as int]@));
            }
        }
        k += 1;
    }
    proof {
        assert(texts(parts@).take(parts.len() as int) =~= texts(parts@));
    }
    let mut sep: Vec<char> = Vec::new();
    sep.push('-');
    assert(sep@ =~= seq!['-']);
    join_chars(&kept, sep.as_slice())
}

/// Makes a name safe for use as a directory or container name: path
/// separators become hyphens, runs of hyphens collapse into one, and hyphens
/// at either end are dropped.
pub fn sanitize_name(name: &str) -> (r: String)
    ensures
        r@ == sanitized(name@),
{
    let chars = chars_of(name);
    let clean = sanitize_chars(chars.as_slice());
    string_of(clean.as_slice())
}

/// The name of the virtual machine that belongs to the worktree
/// `worktree_name`.
pub fn instance_name(worktree_name: &str) -> (r: String)
    ensures
        r@ == machine_name(worktree_name@),
{
    let mut out = String::from_str("fracta-");
    let clean = sanitize_name(worktree_name);
    out.append(clean.as_str());
    out
}

} // verus!
