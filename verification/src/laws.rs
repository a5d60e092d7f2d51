//! Laws of the fragment editor: how the operations' state transitions
//! compose. Each is stated over the same spec functions the operations'
//! contracts use, so it applies to any pair or triple of states those
//! contracts relate.

use vstd::prelude::*;

use crate::sentence::join_frags;
use crate::sentence::swap_adjacent;
use crate::sentence::Sentence;

verus! {

/// Law: a join followed by a revert restores the earlier state. If `s1` is
/// `s0` after joining fragment `i` of the active sequence (as `apply_join`
/// ensures) and `s2` is `s1` after a revert (as `revert_splits` ensures),
/// then `s2` holds `s0`'s version history, and so `s0`'s active fragment
/// sequence.
pub proof fn lemma_join_then_revert(s0: Sentence, s1: Sentence, s2: Sentence, i: int)
    requires
        s0.wf(),
        0 <= i,
        i + 2 <= s0.active().len(),
        s1.versions() == s0.versions().push(join_frags(s0.active(), i)),
        s2.versions() == s1.versions().drop_last(),
    ensures
        s2.versions() == s0.versions(),
        s2.active() == s0.active(),
{
    assert(s1.versions().drop_last() =~= s0.versions());
}

/// Law: swapping a fragment with its neighbour twice restores the active
/// fragment sequence. Moving fragment `i` earlier swaps positions `i - 1`
/// and `i` (as `move_up` ensures), and moving fragment `i - 1` later swaps
/// the same pair (as `apply_reorder` ensures): the two operations are dual,
/// and applying them in either order is a round trip.
pub proof fn lemma_move_round_trip(s0: Sentence, s1: Sentence, s2: Sentence, i: int)
    requires
        s0.wf(),
        1 <= i < s0.active().len(),
        s1.versions() == s0.versions().push(swap_adjacent(s0.active(), i - 1)),
        s2.versions() == s1.versions().push(swap_adjacent(s1.active(), i - 1)),
    ensures
        s2.active() == s0.active(),
{
    assert(s1.active() == swap_adjacent(s0.active(), i - 1));
    assert(swap_adjacent(swap_adjacent(s0.active(), i - 1), i - 1) =~= s0.active());
}

} // verus!
