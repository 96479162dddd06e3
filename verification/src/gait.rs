//! Gait kinds and the per-leg swing/stance bookkeeping of a gait phase.
use vstd::prelude::*;

verus! {

/// Gait type.
#[derive(Debug, Clone, Copy, PartialEq, Eq, Structural)]
pub enum GaitType {
    /// Standing: every leg in stance.
    Stand,
    /// Walking: high duty factor, slow.
    Walk,
    /// Trotting: diagonal pairs in phase, medium speed.
    Trot,
    /// Running: low duty factor, fast.
    Run,
}

/// The number of legs in swing (`true` entries).
pub open spec fn swing_count_spec(swing: Seq<bool>) -> nat
    decreases swing.len(),
{
    if swing.len() == 0 {
        0
    } else {
        swing_count_spec(swing.drop_last()) + if swing.last() {
            1nat
        } else {
            0nat
        }
    }
}

/// Number of legs in swing.
pub fn swing_count(swing: &[bool]) -> (n: usize)
    ensures
        n == swing_count_spec(swing@),
{
    let mut n: usize = 0;
    let mut i: usize = 0;
    while i < swing.len()
        invariant
            i <= swing@.len(),
            n == swing_count_spec(swing@.subrange(0, i as int)),
            n <= i,
        decreases swing@.len() - i,
    {
        proof {
            assert(swing@.subrange(0, i + 1).drop_last() == swing@.subrange(0, i as int));
        }
        if swing[i] {
            n = n + 1;
        }
        i = i + 1;
    }
    assert(swing@.subrange(0, swing@.len() as int) == swing@);
    n
}

/// Whether every leg is in stance (none in swing).
pub fn all_stance(swing: &[bool]) -> (b: bool)
    ensures
        b == (forall|i: int| 0 <= i < swing@.len() ==> !#[trigger] swing@[i]),
{
    let mut i: usize = 0;
    while i < swing.len()
        invariant
            i <= swing@.len(),
            forall|j: int| 0 <= j < i ==> !#[trigger] swing@[j],
        decreases swing@.len() - i,
    {
        if swing[i] {
            return false;
        }
        i = i + 1;
    }
    true
}

/// All legs are in stance exactly when no leg is in swing.
pub proof fn law_all_stance_iff_no_swing(swing: Seq<bool>)
    ensures
        (forall|i: int| 0 <= i < swing.len() ==> !#[trigger] swing[i]) <==> swing_count_spec(swing)
            == 0,
    decreases swing.len(),
{
    if swing.len() > 0 {
        law_all_stance_iff_no_swing(swing.drop_last());
        if swing_count_spec(swing) == 0 {
            assert forall|i: int| 0 <= i < swing.len() implies !#[trigger] swing[i] by {
                if i < swing.len() - 1 {
                    assert(swing.drop_last()[i] == swing[i]);
                }
            }
        } else {
            if forall|i: int| 0 <= i < swing.len() ==> !#[trigger] swing[i] {
                assert forall|i: int| 0 <= i < swing.drop_last().len() implies !#[trigger] swing.drop_last()[i] by {
                    assert(swing.drop_last()[i] == swing[i]);
                }
                assert(!swing[swing.len() - 1]);
            }
        }
    }
}

/// The swing count is the number of legs in swing: the length of the legs
/// picked out by their swing flag, never more than the number of legs.
pub proof fn law_swing_count_counts_swinging_legs(swing: Seq<bool>)
    ensures
        swing_count_spec(swing) == swing.filter(|b: bool| b).len(),
        swing_count_spec(swing) <= swing.len(),
    decreases swing.len(),
{
    reveal_with_fuel(Seq::filter, 1);
    if swing.len() > 0 {
        law_swing_count_counts_swinging_legs(swing.drop_last());
    }
}

} // verus!
