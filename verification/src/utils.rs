//! Small text helpers for fixed-width labels. Lengths are counted in
//! characters.

use vstd::prelude::*;

verus! {

use vstd::string::{StrSliceExecFns, StringExecFns};

/// Pads a string with trailing spaces up to the given width; a string
/// already that wide stays as it is.
pub fn pad_string_right(victim: &mut String, count: usize)
    ensures
        old(victim)@.len() >= count ==> final(victim)@ == old(victim)@,
        old(victim)@.len() < count ==> {
            &&& final(victim)@.len() == count
            &&& final(victim)@.subrange(0, old(victim)@.len() as int) == old(victim)@
            &&& forall|i: int|
                old(victim)@.len() <= i < count ==> final(victim)@[i] == ' '
        },
{
    proof {
        reveal_strlit(" ");
    }
    let mut len = victim.as_str().unicode_len();
    while len < count
        invariant
            len == victim@.len(),
            old(victim)@.len() <= len,
            old(victim)@.len() < count ==> len <= count,
            old(victim)@.len() >= count ==> len == old(victim)@.len(),
            victim@.subrange(0, old(victim)@.len() as int) == old(victim)@,
            forall|i: int| old(victim)@.len() <= i < len ==> victim@[i] == ' ',
        decreases count - len,
    {
        proof {
            reveal_strlit(" ");
        }
        let ghost pre = victim@;
        victim.append(" ");
        proof {
            assert(victim@.subrange(0, old(victim)@.len() as int) =~= pre.subrange(
                0,
                old(victim)@.len() as int,
            ));
        }
        len = len + 1;
    }
    proof {
        if old(victim)@.len() >= count {
            assert(victim@ =~= old(victim)@);
        }
    }
}

/// Pads a string with leading spaces up to the given width. The
/// string must not already be wider than the target.
pub fn pad_string_left(victim: &mut String, count: usize)
    requires
        old(victim)@.len() <= count,
    ensures
        final(victim)@.len() == count,
        forall|i: int| 0 <= i < count - old(victim)@.len() ==> final(victim)@[i] == ' ',
        final(victim)@.subrange(count - old(victim)@.len(), count as int) == old(victim)@,
{
    proof {
        reveal_strlit(" ");
    }
    let own_len = victim.as_str().unicode_len();
    let pad_len = count - own_len;
    let mut pad = String::new();
    let mut i: usize = 0;
    while i < pad_len
        invariant
            i <= pad_len,
            pad@.len() == i,
            forall|j: int| 0 <= j < i ==> pad@[j] == ' ',
        decreases pad_len - i,
    {
        proof {
            reveal_strlit(" ");
        }
        pad.append(" ");
        i = i + 1;
    }
    pad.append(victim.as_str());
    proof {
        assert(pad@.subrange(count - old(victim)@.len(), count as int) =~= old(victim)@);
    }
    *victim = pad;
}

} // verus!
