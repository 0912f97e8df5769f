use vstd::prelude::*;

use crate::{rune_value, rune_values, NUM_RUNES};

verus! {

/// The value of the items counted by `s[lo..hi]`: the sum of
/// `count * value` over the catalogue indices in `[lo, hi)`.
pub open spec fn seg_value(s: Seq<u32>, lo: int, hi: int) -> int
    decreases hi - lo,
{
    if lo >= hi {
        0
    } else {
        s[lo] * rune_values()[lo] + seg_value(s, lo + 1, hi)
    }
}

/// The combined value of a whole quantity vector.
pub open spec fn total_value(s: Seq<u32>) -> int {
    seg_value(s, 0, NUM_RUNES as int)
}

/// Saturation at the largest `u32`, the arithmetic the executable totals use.
pub open spec fn clamp_u32(x: int) -> int {
    if x > u32::MAX as int {
        u32::MAX as int
    } else {
        x
    }
}

/// A vector of all-zero counts.
pub open spec fn zero_counts() -> Seq<u32> {
    Seq::new(NUM_RUNES as nat, |i: int| 0u32)
}

/// Every catalogue value is positive and at most 50000.
pub proof fn lemma_values_positive()
    ensures
        forall|k: int| 0 <= k < NUM_RUNES ==> 0 < #[trigger] rune_values()[k] <= 50000,
{
}

/// The catalogue is sorted strictly ascending by value.
pub proof fn lemma_values_sorted()
    ensures
        forall|i: int, j: int|
            0 <= i < j < NUM_RUNES ==> #[trigger] rune_values()[i] < #[trigger] rune_values()[j],
{
}

/// Peeling the last index off a value segment.
pub proof fn lemma_seg_value_snoc(s: Seq<u32>, lo: int, hi: int)
    requires
        lo <= hi,
    ensures
        seg_value(s, lo, hi + 1) == seg_value(s, lo, hi) + s[hi] * rune_values()[hi],
    decreases hi - lo,
{
    if lo < hi {
        lemma_seg_value_snoc(s, lo + 1, hi);
    } else {
        assert(seg_value(s, lo + 1, hi + 1) == 0);
    }
}

pub proof fn lemma_seg_value_nonneg(s: Seq<u32>, lo: int, hi: int)
    requires
        0 <= lo,
        hi <= NUM_RUNES,
    ensures
        seg_value(s, lo, hi) >= 0,
    decreases hi - lo,
{
    if lo < hi {
        lemma_values_positive();
        lemma_seg_value_nonneg(s, lo + 1, hi);
    }
}

/// Changing one entry changes the total by the value of the items added
/// there.
pub proof fn lemma_total_value_update(s: Seq<u32>, i: int, c: u32)
    requires
        s.len() == NUM_RUNES,
        0 <= i < NUM_RUNES,
    ensures
        total_value(s.update(i, c)) == total_value(s) + (c - s[i]) * rune_values()[i],
{
    lemma_seg_value_update(s, i, c, 0, NUM_RUNES as int);
}

proof fn lemma_seg_value_update(s: Seq<u32>, i: int, c: u32, lo: int, hi: int)
    requires
        s.len() == NUM_RUNES,
        0 <= i < NUM_RUNES,
        0 <= lo <= hi <= NUM_RUNES,
    ensures
        seg_value(s.update(i, c), lo, hi) == if lo <= i < hi {
            seg_value(s, lo, hi) + (c - s[i]) * rune_values()[i]
        } else {
            seg_value(s, lo, hi)
        },
    decreases hi - lo,
{
    if lo < hi {
        lemma_seg_value_update(s, i, c, lo + 1, hi);
        if lo == i {
            assert((c - s[i]) * rune_values()[i] == c * rune_values()[i] - s[i] * rune_values()[i])
                by (nonlinear_arith);
        }
    }
}

/// The value of all-zero counts is zero.
pub proof fn lemma_zero_counts_value()
    ensures
        total_value(zero_counts()) == 0,
{
    lemma_seg_value_zero(0, NUM_RUNES as int);
}

proof fn lemma_seg_value_zero(lo: int, hi: int)
    requires
        0 <= lo,
        hi <= NUM_RUNES,
    ensures
        seg_value(zero_counts(), lo, hi) == 0,
    decreases hi - lo,
{
    if lo < hi {
        assert(zero_counts()[lo] == 0u32);
        lemma_seg_value_zero(lo + 1, hi);
    }
}

/// A fixed-length multiset of rune items: one non-negative count per
/// catalogue entry, aligned by index with the catalogue's ascending order.
/// Represents either a redemption plan or an inventory.
#[derive(Debug, Clone, PartialEq, Eq)]
pub struct RuneCount {
    counts: Vec<u32>,
}

impl View for RuneCount {
    type V = Seq<u32>;

    closed spec fn view(&self) -> Seq<u32> {
        self.counts@
    }
}

impl RuneCount {
    /// A quantity vector is well formed when it has one count per
    /// catalogue entry.
    pub open spec fn wf(&self) -> bool {
        self@.len() == NUM_RUNES
    }

    /// The all-zero quantity vector.
    pub fn zero() -> (r: RuneCount)
        ensures
            r.wf(),
            r@ == zero_counts(),
    {
        let mut counts: Vec<u32> = Vec::new();
        let mut i: usize = 0;
        while i < NUM_RUNES
            invariant
                i <= NUM_RUNES,
                counts@.len() == i,
                forall|k: int| 0 <= k < i ==> counts@[k] == 0u32,
            decreases NUM_RUNES - i,
        {
            counts.push(0);
            i = i + 1;
        }
        let r = RuneCount { counts };
        proof {
            assert(r@ =~= zero_counts());
        }
        r
    }

    /// Wraps one count per catalogue entry, in catalogue order.
    pub fn from_counts(counts: Vec<u32>) -> (r: RuneCount)
        requires
            counts@.len() == NUM_RUNES,
        ensures
            r.wf(),
            r@ == counts@,
    {
        RuneCount { counts }
    }

    /// A vector holding a single unit of the item at `index`.
    pub fn single(index: usize) -> (r: RuneCount)
        requires
            index < NUM_RUNES,
        ensures
            r.wf(),
            r@ == zero_counts().update(index as int, 1u32),
    {
        let mut r = RuneCount::zero();
        r.set_count(index, 1);
        r
    }

    /// The count stored for catalogue index `i`.
    pub fn get(&self, i: usize) -> (c: u32)
        requires
            self.wf(),
            i < NUM_RUNES,
        ensures
            c == self@[i as int],
    {
        self.counts[i]
    }

    /// Replaces the count stored for catalogue index `i`.
    pub fn set_count(&mut self, i: usize, c: u32)
        requires
            old(self).wf(),
            i < NUM_RUNES,
        ensures
            final(self).wf(),
            final(self)@ == old(self)@.update(i as int, c),
    {
        self.counts.set(i, c);
    }

    /// Whether any items of catalogue index `i` are left.
    pub fn has(&self, index: usize) -> (r: bool)
        requires
            self.wf(),
            index < NUM_RUNES,
        ensures
            r == (self@[index as int] > 0),
    {
        self.counts[index] > 0
    }

    /// The combined value of the counted items, saturating at `u32::MAX`.
    pub fn total(&self) -> (r: u32)
        requires
            self.wf(),
        ensures
            r as int == clamp_u32(total_value(self@)),
    {
        self.slice_total(0, NUM_RUNES)
    }

    /// The combined value of the items counted in `[from, to)`, saturating
    /// at `u32::MAX`.
    pub fn slice_total(&self, from: usize, to: usize) -> (r: u32)
        requires
            self.wf(),
            from <= to <= NUM_RUNES,
        ensures
            r as int == clamp_u32(seg_value(self@, from as int, to as int)),
    {
        let mut acc: u32 = 0;
        let mut i: usize = from;
        while i < to
            invariant
                self.wf(),
                from <= i <= to <= NUM_RUNES,
                acc as int == clamp_u32(seg_value(self@, from as int, i as int)),
            decreases to - i,
        {
            let c = self.counts[i];
            let v = rune_value(i);
            proof {
                lemma_values_positive();
                assert((c as int) * (v as int) <= 0xffff_ffff * 50000) by (nonlinear_arith)
                    requires
                        c <= 0xffff_ffffu32,
                        0 <= v <= 50000u32,
                ;
                lemma_seg_value_snoc(self@, from as int, i as int);
                lemma_seg_value_nonneg(self@, from as int, i as int);
            }
            let product: u64 = (c as u64) * (v as u64);
            let sum: u64 = (acc as u64) + product;
            acc = if sum > u32::MAX as u64 {
                u32::MAX
            } else {
                sum as u32
            };
            i = i + 1;
        }
        acc
    }

    /// A fresh quantity vector holding the same counts.
    pub fn duplicate(&self) -> (r: RuneCount)
        requires
            self.wf(),
        ensures
            r.wf(),
            r@ == self@,
    {
        let mut counts: Vec<u32> = Vec::new();
        let mut i: usize = 0;
        while i < NUM_RUNES
            invariant
                self.wf(),
                i <= NUM_RUNES,
                counts@ =~= self@.take(i as int),
            decreases NUM_RUNES - i,
        {
            counts.push(self.counts[i]);
            i = i + 1;
        }
        proof {
            assert(counts@ =~= self@);
        }
        RuneCount { counts }
    }

    /// Component-wise subtraction: deducts a redemption plan from an
    /// inventory. The plan must nowhere exceed the inventory.
    pub fn decrement_by(&mut self, other: &RuneCount)
        requires
            old(self).wf(),
            other.wf(),
            forall|i: int| 0 <= i < NUM_RUNES ==> other@[i] <= old(self)@[i],
        ensures
            final(self).wf(),
            final(self)@.len() == NUM_RUNES,
            forall|i: int|
                0 <= i < NUM_RUNES ==> final(self)@[i] == old(self)@[i] - other@[i],
    {
        let mut i: usize = 0;
        while i < NUM_RUNES
            invariant
                self@.len() == NUM_RUNES,
                other.wf(),
                i <= NUM_RUNES,
                forall|k: int| 0 <= k < NUM_RUNES ==> other@[k] <= old(self)@[k],
                forall|k: int| i <= k < NUM_RUNES ==> self@[k] == old(self)@[k],
                forall|k: int| 0 <= k < i ==> self@[k] == old(self)@[k] - other@[k],
            decreases NUM_RUNES - i,
        {
            let c = self.counts[i] - other.counts[i];
            self.counts.set(i, c);
            i = i + 1;
        }
    }
}

impl Default for RuneCount {
    /// The all-zero quantity vector.
    fn default() -> (r: RuneCount)
        ensures
            r.wf(),
            r@ == zero_counts(),
    {
        RuneCount::zero()
    }
}

} // verus!
