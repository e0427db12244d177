//! Port offsets: the block of a thousand ports that an instance shifts its
//! published ports by.
//!
//! There are nine blocks, 1000 to 9000. The main worktree has no offset. At
//! most nine other instances can have a block of their own; a tenth shares
//! one.

use vstd::prelude::*;
use std::collections::hash_map::DefaultHasher;
use std::collections::HashSet;
use std::hash::{Hash, Hasher};
use vstd::std_specs::hash::DefaultHasherAdditionalSpecFns;
use crate::text::same_text;

verus! {

/// What hashing a name writes into a hasher.
pub uninterp spec fn name_writes(name: Seq<char>) -> Seq<Seq<u8>>;

/// `Hash::hash` of `str` into the default hasher: it writes what the text
/// decides, after what was written before.
#[verifier::external_body]
fn hash_name(name: &str, state: &mut DefaultHasher)
    ensures
        final(state)@ == old(state)@ + name_writes(name@),
{
    name.hash(state);
}

/// The hash of a name, as a fresh default hasher computes it.
pub open spec fn name_hash(name: Seq<char>) -> u64 {
    DefaultHasher::spec_finish(name_writes(name))
}

/// The block with the number `i`, counted from zero and around the nine.
pub open spec fn block(i: int) -> u16 {
    ((i % 9 + 1) * 1000) as u16
}

/// `offset` is one of the nine blocks.
pub open spec fn is_block(offset: u16) -> bool {
    1000 <= offset <= 9000 && offset % 1000 == 0
}

/// The offset that a name hashes to: none for the main worktree and for the
/// empty name, else the block that the hash picks.
pub open spec fn base_offset(name: Seq<char>) -> u16 {
    if name == "main"@ || name.len() == 0 {
        0
    } else {
        block(name_hash(name) as int)
    }
}

/// All nine blocks are in `used`.
pub open spec fn all_blocks_used(used: Set<u16>) -> bool {
    forall|i: int| 0 <= i < 9 ==> used.contains(#[trigger] block(i))
}

/// The number of steps, from `k` on, after which probing from block `start`
/// finds a block that is not in `used`; 9 where it finds none.
pub open spec fn first_free(start: int, used: Set<u16>, k: int) -> int
    decreases 9 - k,
{
    if k >= 9 {
        9
    } else if !used.contains(block(start + k)) {
        k
    } else {
        first_free(start, used, k + 1)
    }
}

/// The offset chosen for an instance whose name hashes to `base`: `base`
/// itself where it is free, else the next free block after it, going around;
/// and `base` again where no block is free. No offset stays no offset.
pub open spec fn chosen_offset(base: u16, used: Set<u16>) -> u16 {
    if base == 0 {
        0
    } else {
        let start = if base >= 1000 {
            base / 1000 - 1
        } else {
            0
        };
        let k = first_free(start, used, 0);
        if k < 9 {
            block(start + k)
        } else {
            base
        }
    }
}

/// The block that a hash picks.
pub fn offset_for_hash(hash: u64) -> (r: u16)
    ensures
        r == block(hash as int),
        is_block(r),
{
    let multiplier: u16 = (hash % 9 + 1) as u16;
    multiplier * 1000
}

/// The port offset that the name of a worktree hashes to: 0 for `main` and
/// for the empty name, else one of 1000, 2000, ..., 9000.
pub fn calculate_port_offset(name: &str) -> (r: u16)
    ensures
        r == base_offset(name@),
        name@ == "main"@ || name@.len() == 0 ==> r == 0,
        name@ != "main"@ && name@.len() > 0 ==> is_block(r),
{
    if same_text(name, "main") || name.unicode_len() == 0 {
        return 0;
    }
    let mut hasher = DefaultHasher::new();
    hash_name(name, &mut hasher);
    assert(hasher@ =~= name_writes(name@));
    offset_for_hash(hasher.finish())
}

/// Chooses the offset of an instance whose name hashes to `base`, given the
/// offsets that are taken.
///
/// The choice is free in `used_offsets` unless all nine blocks are taken;
/// then it is `base`, which is shared.
pub fn choose_from_base(base: u16, used_offsets: &HashSet<u16>) -> (r: u16)
    ensures
        r == chosen_offset(base, used_offsets@),
        base != 0 && !all_blocks_used(used_offsets@) ==> !used_offsets@.contains(r),
        base == 0 ==> r == 0,
        base != 0 ==> is_block(r) || r == base,
{
    if base == 0 {
        return 0;
    }
    let start: u16 = if base >= 1000 {
        base / 1000 - 1
    } else {
        0
    };
    let mut i: u16 = 0;
    while i < 9
        invariant
            0 <= i <= 9,
            base != 0,
            start <= 64,
            start == (if base >= 1000 {
                base / 1000 - 1
            } else {
                0
            }),
            first_free(start as int, used_offsets@, 0) == first_free(
                start as int,
                used_offsets@,
                i as int,
            ),
            forall|j: int| 0 <= j < i ==> used_offsets@.contains(#[trigger] block(start + j)),
        decreases 9 - i,
    {
        let candidate: u16 = ((start + i) % 9 + 1) * 1000;
        assert(candidate == block(start + i));
        if !used_offsets.contains(&candidate) {
            proof {
                if all_blocks_used(used_offsets@) {
                    assert(block(((start + i) % 9) as int) == candidate);
                }
            }
            return candidate;
        }
        i += 1;
    }
    proof {
        assert forall|k: int| 0 <= k < 9 implies used_offsets@.contains(#[trigger] block(k)) by {
            let j = (k - start % 9 + 9) % 9;
            assert(block(start + j) == block(k));
        }
    }
    base
}

/// Chooses the port offset of the instance `name`, given the offsets that
/// other instances have taken.
///
/// `main` and the empty name have no offset. Any other name gets the block
/// it hashes to where that is free, else the next free one; where all nine
/// are taken it shares the block it hashes to.
pub fn choose_port_offset(name: &str, used_offsets: &HashSet<u16>) -> (r: u16)
    ensures
        r == chosen_offset(base_offset(name@), used_offsets@),
        name@ == "main"@ || name@.len() == 0 ==> r == 0,
        name@ != "main"@ && name@.len() > 0 ==> is_block(r),
        name@ != "main"@ && name@.len() > 0 && !all_blocks_used(used_offsets@)
            ==> !used_offsets@.contains(r),
{
    let base = calculate_port_offset(name);
    choose_from_base(base, used_offsets)
}

} // verus!
