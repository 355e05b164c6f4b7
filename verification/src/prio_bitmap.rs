//! A fixed-width bitmap with one bit per task priority level.
use vstd::prelude::*;

verus! {

/// The largest number of priority levels that a bitmap can track.
pub const FIXED_PRIO_BITMAP_MAX_LEN: usize = 64;

/// One bit per priority level; bit `p` is the flag of level `p`.
#[derive(Clone, Copy, Debug)]
pub struct FixedPrioBitmap {
    pub bits: u64,
}

pub open spec fn bit_is_set(bits: u64, i: int) -> bool {
    0 <= i < 64 && (bits >> (i as u64)) & 1u64 == 1u64
}

proof fn lemma_bit_after_set(bits: u64, i: u64, j: u64)
    by (bit_vector)
    requires
        i < 64,
        j < 64,
    ensures
        ((bits | (1u64 << i)) >> j) & 1u64 == (if i == j {
            1u64
        } else {
            (bits >> j) & 1u64
        }),
{
}

proof fn lemma_bit_after_clear(bits: u64, i: u64, j: u64)
    by (bit_vector)
    requires
        i < 64,
        j < 64,
    ensures
        ((bits & !(1u64 << i)) >> j) & 1u64 == (if i == j {
            0u64
        } else {
            (bits >> j) & 1u64
        }),
{
}

proof fn lemma_bit_of_zero(j: u64)
    by (bit_vector)
    requires
        j < 64,
    ensures
        (0u64 >> j) & 1u64 == 0u64,
{
}

impl View for FixedPrioBitmap {
    type V = Seq<bool>;

    /// The 64 flags, lowest level first.
    open spec fn view(&self) -> Seq<bool> {
        Seq::new(64, |i: int| bit_is_set(self.bits, i))
    }
}

impl FixedPrioBitmap {
    /// A bitmap with no flag set.
    pub fn new() -> (r: FixedPrioBitmap)
        ensures
            r@ == Seq::new(64, |i: int| false),
    {
        let r = FixedPrioBitmap { bits: 0 };
        proof {
            assert forall|i: int| 0 <= i < 64 implies !bit_is_set(0u64, i) by {
                lemma_bit_of_zero(i as u64);
            }
            assert(r@ =~= Seq::new(64, |i: int| false));
        }
        r
    }

    pub fn get(&self, i: usize) -> (r: bool)
        requires
            i < FIXED_PRIO_BITMAP_MAX_LEN,
        ensures
            r == self@[i as int],
    {
        (self.bits >> (i as u64)) & 1u64 == 1u64
    }

    pub fn set(&mut self, i: usize)
        requires
            i < FIXED_PRIO_BITMAP_MAX_LEN,
        ensures
            final(self)@ == old(self)@.update(i as int, true),
    {
        let ghost before = self.bits;
        self.bits = self.bits | (1u64 << (i as u64));
        proof {
            assert forall|j: int| 0 <= j < 64 implies bit_is_set(self.bits, j) == (if j == i {
                true
            } else {
                bit_is_set(before, j)
            }) by {
                lemma_bit_after_set(before, i as u64, j as u64);
            }
            assert(self@ =~= old(self)@.update(i as int, true));
        }
    }

    pub fn clear(&mut self, i: usize)
        requires
            i < FIXED_PRIO_BITMAP_MAX_LEN,
        ensures
            final(self)@ == old(self)@.update(i as int, false),
    {
        let ghost before = self.bits;
        self.bits = self.bits & !(1u64 << (i as u64));
        proof {
            assert forall|j: int| 0 <= j < 64 implies bit_is_set(self.bits, j) == (if j == i {
                false
            } else {
                bit_is_set(before, j)
            }) by {
                lemma_bit_after_clear(before, i as u64, j as u64);
            }
            assert(self@ =~= old(self)@.update(i as int, false));
        }
    }

    /// The lowest level whose flag is set, found by counting trailing zeros.
    pub fn find_set(&self) -> (r: Option<usize>)
        ensures
            r == lowest_set(self@),
    {
        broadcast use vstd::std_specs::bits::axiom_u64_trailing_zeros;

        if self.bits == 0 {
            proof {
                assert forall|i: int| 0 <= i < 64 implies !self@[i] by {
                    lemma_bit_of_zero(i as u64);
                }
                lemma_lowest_set_none(self@);
            }
            None
        } else {
            let tz: u32 = self.bits.trailing_zeros();
            proof {
                assert(tz < 64);
                assert(self@[tz as int]);
                assert forall|j: int| 0 <= j < tz implies !self@[j] by {
                    assert((self.bits >> (j as u64)) & 1u64 == 0u64);
                }
                lemma_lowest_set_some(self@, tz as int);
            }
            Some(tz as usize)
        }
    }
}

/// The first index at or after `from` whose flag is set.
pub open spec fn lowest_set_from(flags: Seq<bool>, from: int) -> Option<usize>
    decreases flags.len() - from,
{
    if from < 0 || from >= flags.len() {
        None
    } else if flags[from] {
        Some(from as usize)
    } else {
        lowest_set_from(flags, from + 1)
    }
}

/// The lowest index whose flag is set, if there is one.
pub open spec fn lowest_set(flags: Seq<bool>) -> Option<usize> {
    lowest_set_from(flags, 0)
}

pub proof fn lemma_lowest_set_from_none(flags: Seq<bool>, from: int)
    requires
        0 <= from,
        forall|i: int| from <= i < flags.len() ==> !flags[i],
    ensures
        lowest_set_from(flags, from) is None,
    decreases flags.len() - from,
{
    if from < flags.len() {
        lemma_lowest_set_from_none(flags, from + 1);
    }
}

pub proof fn lemma_lowest_set_none(flags: Seq<bool>)
    requires
        forall|i: int| 0 <= i < flags.len() ==> !flags[i],
    ensures
        lowest_set(flags) is None,
{
    lemma_lowest_set_from_none(flags, 0);
}

pub proof fn lemma_lowest_set_from_some(flags: Seq<bool>, from: int, k: int)
    requires
        0 <= from <= k < flags.len(),
        k <= usize::MAX,
        flags[k],
        forall|i: int| from <= i < k ==> !flags[i],
    ensures
        lowest_set_from(flags, from) == Some(k as usize),
    decreases k - from,
{
    if from < k {
        lemma_lowest_set_from_some(flags, from + 1, k);
    }
}

pub proof fn lemma_lowest_set_some(flags: Seq<bool>, k: int)
    requires
        0 <= k < flags.len(),
        k <= usize::MAX,
        flags[k],
        forall|i: int| 0 <= i < k ==> !flags[i],
    ensures
        lowest_set(flags) == Some(k as usize),
{
    lemma_lowest_set_from_some(flags, 0, k);
}

/// What `lowest_set` finds is set and nothing below it is; it finds nothing
/// only where no flag is set.
pub proof fn lemma_lowest_set_is_lowest(flags: Seq<bool>)
    requires
        flags.len() <= usize::MAX,
    ensures
        match lowest_set(flags) {
            Some(k) => k < flags.len() && flags[k as int] && forall|i: int|
                0 <= i < k ==> !flags[i],
            None => forall|i: int| 0 <= i < flags.len() ==> !flags[i],
        },
{
    lemma_lowest_set_from_is_lowest(flags, 0);
}

proof fn lemma_lowest_set_from_is_lowest(flags: Seq<bool>, from: int)
    requires
        0 <= from,
        flags.len() <= usize::MAX,
    ensures
        match lowest_set_from(flags, from) {
            Some(k) => from <= k < flags.len() && flags[k as int] && forall|i: int|
                from <= i < k ==> !flags[i],
            None => forall|i: int| from <= i < flags.len() ==> !flags[i],
        },
    decreases flags.len() - from,
{
    if from < flags.len() && !flags[from] {
        lemma_lowest_set_from_is_lowest(flags, from + 1);
    }
}

} // verus!
