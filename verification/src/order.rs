//! Texts in dictionary order, and lists of names kept in that order.

use vstd::prelude::*;
use vstd::string::*;
use crate::text::{chars_of, same_chars, views};

verus! {

/// `a` stands before `b` in the dictionary: at the first place where they
/// differ `a` has the lower character, or `a` ends there and `b` goes on.
pub open spec fn text_less(a: Seq<char>, b: Seq<char>) -> bool
    decreases a.len(),
{
    if b.len() == 0 {
        false
    } else if a.len() == 0 {
        true
    } else if a[0] != b[0] {
        a[0] < b[0]
    } else {
        text_less(a.drop_first(), b.drop_first())
    }
}

/// Each name stands before all that follow it.
pub open spec fn ascending(names: Seq<Seq<char>>) -> bool {
    forall|i: int, j: int| 0 <= i < j < names.len() ==> text_less(names[i], names[j])
}

/// Of two different texts one stands before the other.
pub proof fn lemma_less_total(a: Seq<char>, b: Seq<char>)
    ensures
        a == b || text_less(a, b) || text_less(b, a),
    decreases a.len(),
{
    if a.len() == 0 || b.len() == 0 {
        if a.len() == 0 && b.len() == 0 {
            assert(a =~= b);
        }
    } else if a[0] == b[0] {
        lemma_less_total(a.drop_first(), b.drop_first());
        if a.drop_first() == b.drop_first() {
            assert(a =~= seq![a[0]] + a.drop_first());
            assert(b =~= seq![b[0]] + b.drop_first());
        }
    }
}

/// What stands before a text stands before all that the text stands before.
pub proof fn lemma_less_transitive(a: Seq<char>, b: Seq<char>, c: Seq<char>)
    requires
        text_less(a, b),
        text_less(b, c),
    ensures
        text_less(a, c),
    decreases a.len(),
{
    if a.len() > 0 && a[0] == b[0] && b[0] == c[0] {
        lemma_less_transitive(a.drop_first(), b.drop_first(), c.drop_first());
    }
}

/// Whether `a` stands before `b` in the dictionary.
pub fn is_less(a: &[char], b: &[char]) -> (r: bool)
    ensures
        r == text_less(a@, b@),
{
    let mut i: usize = 0;
    proof {
        assert(a@.skip(0) =~= a@);
        assert(b@.skip(0) =~= b@);
    }
    while i < a.len() && i < b.len()
        invariant
            0 <= i <= a.len(),
            i <= b.len(),
            text_less(a@, b@) == text_less(a@.skip(i as int), b@.skip(i as int)),
        decreases a.len() - i,
    {
        if a[i] != b[i] {
            return a[i] < b[i];
        }
        proof {
            assert(a@.skip(i as int).drop_first() =~= a@.skip(i + 1));
            assert(b@.skip(i as int).drop_first() =~= b@.skip(i + 1));
        }
        i += 1;
    }
    i < b.len()
}

/// Whether the name at place `i` stands before `wanted`.
fn stands_before(names: &Vec<String>, i: usize, wanted: &[char]) -> (r: bool)
    requires
        i < names.len(),
    ensures
        r == text_less(views(names@)[i as int], wanted@),
{
    let here = chars_of(names[i].as_str());
    is_less(here.as_slice(), wanted)
}

/// Puts `name` into the ascending list `names`, at its place, unless it is
/// there already.
pub(crate) fn insert_name(names: &mut Vec<String>, name: String)
    requires
        ascending(views(old(names)@)),
    ensures
        ascending(views(final(names)@)),
        forall|text: Seq<char>|
            views(final(names)@).contains(text) <==> views(old(names)@).contains(text) || text
                == name@,
{
    let wanted = chars_of(name.as_str());
    let ghost before = views(names@);
    let mut i: usize = 0;
    while i < names.len() && stands_before(names, i, wanted.as_slice())
        invariant
            0 <= i <= names.len(),
            names@ == old(names)@,
            before == views(names@),
            wanted@ == name@,
            forall|j: int| 0 <= j < i ==> text_less(#[trigger] before[j], name@),
        decreases names.len() - i,
    {
        i += 1;
    }
    if i < names.len() {
        let here = chars_of(names[i].as_str());
        assert(before[i as int] == here@);
        if same_chars(here.as_slice(), wanted.as_slice()) {
            proof {
                assert forall|text: Seq<char>| before.contains(text) || text
                    == name@ implies before.contains(text) by {
                    if text == name@ {
                        assert(before[i as int] == text);
                    }
                }
            }
            return ;
        }
    }
    names.insert(i, name);
    proof {
        let after = views(names@);
        assert(after =~= before.insert(i as int, name@));
        assert forall|p: int, q: int| 0 <= p < q < after.len() implies text_less(
            after[p],
            after[q],
        ) by {
            if q < i {
                assert(after[p] == before[p] && after[q] == before[q]);
            } else if q == i {
                assert(after[p] == before[p]);
            } else if p == i {
                assert(after[q] == before[q - 1]);
                lemma_less_total(before[i as int], name@);
                if q - 1 > i {
                    lemma_less_transitive(name@, before[i as int], before[q - 1]);
                }
            } else if p < i {
                assert(after[p] == before[p] && after[q] == before[q - 1]);
            } else {
                assert(after[p] == before[p - 1] && after[q] == before[q - 1]);
            }
        }
        assert forall|text: Seq<char>| after.contains(text) <==> before.contains(text) || text
            == name@ by {
            if after.contains(text) {
                let k = choose|k: int| 0 <= k < after.len() && after[k] == text;
                if k < i {
                    assert(before[k] == text);
                } else if k > i {
                    assert(before[k - 1] == text);
                }
            }
            if before.contains(text) {
                let k = choose|k: int| 0 <= k < before.len() && before[k] == text;
                if k < i {
                    assert(after[k] == text);
                } else {
                    assert(after[k + 1] == text);
                }
            }
            if text == name@ {
                assert(after[i as int] == text);
            }
        }
    }
}

} // verus!
