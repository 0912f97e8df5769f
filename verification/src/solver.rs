use vstd::pervasive::unreached;
use vstd::prelude::*;

use crate::count::{
    clamp_u32, lemma_total_value_update, lemma_values_positive, lemma_values_sorted,
    lemma_zero_counts_value, total_value, zero_counts, RuneCount,
};
use crate::{rune_value, rune_values, Error, NUM_RUNES};

verus! {

/// Whether the item at `i` may still be used: an absent inventory means
/// unconstrained availability.
pub open spec fn spec_avail(inv: Option<Seq<u32>>, i: int) -> bool {
    match inv {
        Option::None => true,
        Option::Some(s) => s[i] > 0,
    }
}

/// The smallest index in `[lo, hi)` whose item is available and worth at
/// least `need`: the closest-cover candidate.
pub open spec fn find_cover(need: int, inv: Option<Seq<u32>>, lo: int, hi: int) -> Option<int>
    decreases hi - lo,
{
    if lo >= hi {
        None
    } else if spec_avail(inv, lo) && rune_values()[lo] >= need {
        Some(lo)
    } else {
        find_cover(need, inv, lo + 1, hi)
    }
}

/// The largest index below `hi` whose item is available and worth strictly
/// less than `need`: the decrease-and-continue candidate.
pub open spec fn find_under(need: int, inv: Option<Seq<u32>>, hi: int) -> Option<int>
    decreases hi,
{
    if hi <= 0 {
        None
    } else if spec_avail(inv, hi - 1) && rune_values()[hi - 1] < need {
        Some(hi - 1)
    } else {
        find_under(need, inv, hi - 1)
    }
}

/// One unit of the item at `i` deducted from the inventory, if one is
/// tracked at all.
pub open spec fn dec_inv(inv: Option<Seq<u32>>, i: int) -> Option<Seq<u32>> {
    match inv {
        Option::None => Option::None,
        Option::Some(s) => Some(s.update(i, (s[i] - 1) as u32)),
    }
}

/// The plan the recursive solver settles on, if any: at every level it
/// weighs the closest-cover candidate (one item finishing the plan)
/// against the decrease-and-continue candidate (the largest available item
/// strictly under the need, then a recursive plan for the rest under a
/// reduced ceiling), and keeps whichever covers the need with the smaller
/// total value, preferring the closest cover on ties. The ceiling shrinks
/// at every recursion step, which bounds the depth by the catalogue size.
pub open spec fn solve_rec(
    need: int,
    partial: Seq<u32>,
    big: int,
    inv: Option<Seq<u32>>,
) -> Option<Seq<u32>>
    decreases big,
    via solve_rec_decreases
{
    let cover = find_cover(need, inv, 0, big);
    let reduced = match cover {
        Some(b) => b,
        None => big - 1,
    };
    let fewer = match cover {
        Some(b) => Some(partial.update(b, (partial[b] + 1) as u32)),
        None => None,
    };
    let more = match find_under(need, inv, reduced) {
        Some(s) => solve_rec(
            need - rune_values()[s],
            partial.update(s, (partial[s] + 1) as u32),
            reduced,
            dec_inv(inv, s),
        ),
        None => None,
    };
    match (fewer, more) {
        (Some(a), Some(b)) => if total_value(a) <= total_value(b) {
            Some(a)
        } else {
            Some(b)
        },
        (Some(a), None) => Some(a),
        (None, m) => m,
    }
}

#[via_fn]
proof fn solve_rec_decreases(need: int, partial: Seq<u32>, big: int, inv: Option<Seq<u32>>) {
    let cover = find_cover(need, inv, 0, big);
    let reduced = match cover {
        Some(b) => b,
        None => big - 1,
    };
    lemma_find_cover_props(need, inv, 0, big);
    lemma_find_under_props(need, inv, reduced);
}

/// Room for the solver to add one item per remaining recursion level
/// without overflowing a count.
pub open spec fn counts_headroom(s: Seq<u32>, big: int) -> bool {
    forall|i: int| 0 <= i < NUM_RUNES ==> (#[trigger] s[i]) + big <= u32::MAX
}

/// The view of an optional inventory.
pub open spec fn inv_view(inv: Option<RuneCount>) -> Option<Seq<u32>> {
    match inv {
        Option::None => Option::None,
        Option::Some(rc) => Some(rc@),
    }
}

/// What a `Some` answer of `find_cover` means: the index is in range,
/// matches, and is the first match.
pub proof fn lemma_find_cover_props(need: int, inv: Option<Seq<u32>>, lo: int, hi: int)
    ensures
        find_cover(need, inv, lo, hi) matches Some(b) ==> lo <= b < hi && spec_avail(inv, b)
            && rune_values()[b] >= need && (forall|k: int|
            lo <= k < b ==> !(spec_avail(inv, k) && rune_values()[k] >= need)),
        find_cover(need, inv, lo, hi) is None ==> forall|k: int|
            lo <= k < hi ==> !(spec_avail(inv, k) && rune_values()[k] >= need),
    decreases hi - lo,
{
    if lo < hi {
        lemma_find_cover_props(need, inv, lo + 1, hi);
    }
}

/// What a `Some` answer of `find_under` means: the index is in range,
/// matches, and is the last match.
pub proof fn lemma_find_under_props(need: int, inv: Option<Seq<u32>>, hi: int)
    ensures
        find_under(need, inv, hi) matches Some(s) ==> 0 <= s < hi && spec_avail(inv, s)
            && rune_values()[s] < need && (forall|k: int|
            s < k < hi ==> !(spec_avail(inv, k) && rune_values()[k] < need)),
        find_under(need, inv, hi) is None ==> forall|k: int|
            0 <= k < hi ==> !(spec_avail(inv, k) && rune_values()[k] < need),
    decreases hi,
{
    if hi > 0 {
        lemma_find_under_props(need, inv, hi - 1);
    }
}

/// Adding one item of index `i` raises the total by that item's value.
pub proof fn lemma_total_value_increment(s: Seq<u32>, i: int)
    requires
        s.len() == NUM_RUNES,
        0 <= i < NUM_RUNES,
        s[i] < u32::MAX,
    ensures
        total_value(s.update(i, (s[i] + 1) as u32)) == total_value(s) + rune_values()[i],
{
    lemma_total_value_update(s, i, (s[i] + 1) as u32);
    let c = (s[i] + 1) as u32;
    assert((c - s[i]) * rune_values()[i] == rune_values()[i]) by (nonlinear_arith)
        requires
            c == s[i] + 1,
    ;
}

/// Every plan the solver returns covers the need: its total value exceeds
/// the partial plan's by at least `need`.
pub proof fn lemma_solve_rec_covers(need: int, partial: Seq<u32>, big: int, inv: Option<Seq<u32>>)
    requires
        partial.len() == NUM_RUNES,
        big <= NUM_RUNES,
        counts_headroom(partial, big),
        inv matches Some(avail) ==> avail.len() == NUM_RUNES,
    ensures
        solve_rec(need, partial, big, inv) matches Some(p) ==> total_value(p) >= total_value(
            partial,
        ) + need,
    decreases big,
{
    let cover = find_cover(need, inv, 0, big);
    let reduced = match cover {
        Some(b) => b,
        None => big - 1,
    };
    lemma_find_cover_props(need, inv, 0, big);
    lemma_find_under_props(need, inv, reduced);
    lemma_values_positive();
    if let Some(b) = cover {
        lemma_total_value_increment(partial, b);
    }
    if let Some(s) = find_under(need, inv, reduced) {
        let me = partial.update(s, (partial[s] + 1) as u32);
        lemma_total_value_increment(partial, s);
        lemma_solve_rec_covers(need - rune_values()[s], me, reduced, dec_inv(inv, s));
    }
}

/// Every plan the solver returns stays within bounds: it only ever adds to
/// the partial plan, only for items under the ceiling, never takes more
/// of an item than the inventory holds, and adds at most 50000 in value
/// per remaining level.
pub proof fn lemma_solve_rec_within(need: int, partial: Seq<u32>, big: int, inv: Option<Seq<u32>>)
    requires
        partial.len() == NUM_RUNES,
        big <= NUM_RUNES,
        counts_headroom(partial, big),
        inv matches Some(avail) ==> avail.len() == NUM_RUNES,
    ensures
        solve_rec(need, partial, big, inv) matches Some(p) ==> p.len() == NUM_RUNES && (forall|
            i: int,
        |
            0 <= i < NUM_RUNES ==> partial[i] <= #[trigger] p[i]) && (forall|i: int|
            0 <= i < NUM_RUNES && partial[i] < #[trigger] p[i] ==> i < big) && (inv matches Some(avail)
            ==> forall|i: int| 0 <= i < NUM_RUNES ==> #[trigger] p[i] - partial[i] <= avail[i])
            && total_value(p) <= total_value(partial) + 50000 * big,
    decreases big,
{
    let cover = find_cover(need, inv, 0, big);
    let reduced = match cover {
        Some(b) => b,
        None => big - 1,
    };
    lemma_find_cover_props(need, inv, 0, big);
    lemma_find_under_props(need, inv, reduced);
    lemma_values_positive();
    if let Some(b) = cover {
        lemma_total_value_increment(partial, b);
    }
    if let Some(s) = find_under(need, inv, reduced) {
        let me = partial.update(s, (partial[s] + 1) as u32);
        lemma_total_value_increment(partial, s);
        let inv2 = dec_inv(inv, s);
        lemma_solve_rec_within(need - rune_values()[s], me, reduced, inv2);
        assert(50000 * reduced <= 50000 * (big - 1)) by (nonlinear_arith)
            requires
                reduced <= big - 1,
        ;
        if let Some(avail) = inv {
            let avail2 = avail.update(s, (avail[s] - 1) as u32);
            if let Some(p) = solve_rec(need - rune_values()[s], me, reduced, inv2) {
                assert forall|i: int| 0 <= i < NUM_RUNES implies p[i] - partial[i] <= avail[i] by {
                    assert(p[i] - me[i] <= avail2[i]);
                }
            }
        }
    }
}

/// Coverage: any plan the solver produces for `need`, starting from an
/// empty partial plan with the whole catalogue in reach, is worth at
/// least `need`.
pub proof fn lemma_solve_covers_need(need: int, inv: Option<Seq<u32>>)
    requires
        inv matches Some(avail) ==> avail.len() == NUM_RUNES,
    ensures
        solve_rec(need, zero_counts(), NUM_RUNES as int, inv) matches Some(p) ==> total_value(p)
            >= need,
{
    lemma_zero_counts_value();
    assert(counts_headroom(zero_counts(), NUM_RUNES as int));
    lemma_solve_rec_covers(need, zero_counts(), NUM_RUNES as int, inv);
}

/// The plan never costs more than the cheapest single covering item: if
/// some available item at index `j` alone covers the need, a plan exists
/// and its total exceeds the partial plan's by at most that item's value.
pub proof fn lemma_solve_rec_single_item(
    need: int,
    partial: Seq<u32>,
    big: int,
    inv: Option<Seq<u32>>,
    j: int,
)
    requires
        partial.len() == NUM_RUNES,
        big <= NUM_RUNES,
        counts_headroom(partial, big),
        inv matches Some(avail) ==> avail.len() == NUM_RUNES,
        0 <= j < big,
        spec_avail(inv, j),
        rune_values()[j] >= need,
    ensures
        solve_rec(need, partial, big, inv) is Some,
        solve_rec(need, partial, big, inv) matches Some(p) ==> total_value(p) <= total_value(
            partial,
        ) + rune_values()[j],
{
    let cover = find_cover(need, inv, 0, big);
    lemma_find_cover_props(need, inv, 0, big);
    lemma_values_sorted();
    let b = cover->Some_0;
    lemma_total_value_increment(partial, b);
}

/// For a `need` that some available item covers alone, the solver always
/// finds a plan, and that plan never costs more than that item.
pub proof fn lemma_solve_single_item_bound(need: int, inv: Option<Seq<u32>>, j: int)
    requires
        inv matches Some(avail) ==> avail.len() == NUM_RUNES,
        0 <= j < NUM_RUNES,
        spec_avail(inv, j),
        rune_values()[j] >= need,
    ensures
        solve_rec(need, zero_counts(), NUM_RUNES as int, inv) is Some,
        solve_rec(need, zero_counts(), NUM_RUNES as int, inv) matches Some(p) ==> total_value(p)
            <= rune_values()[j],
{
    lemma_zero_counts_value();
    assert(counts_headroom(zero_counts(), NUM_RUNES as int));
    lemma_solve_rec_single_item(need, zero_counts(), NUM_RUNES as int, inv, j);
}

/// With unconstrained availability, every need up to the largest
/// catalogue value has a plan.
pub proof fn lemma_solve_unconstrained_small(need: int)
    requires
        need <= 50000,
    ensures
        solve_rec(need, zero_counts(), NUM_RUNES as int, None) is Some,
{
    lemma_solve_single_item_bound(need, None, NUM_RUNES - 1);
}

/// Tie-break determinism: when the returned plan's total equals that of
/// the closest single covering item, the returned plan is exactly that
/// single extra item.
pub proof fn lemma_solve_rec_tie_break(
    need: int,
    partial: Seq<u32>,
    big: int,
    inv: Option<Seq<u32>>,
    b: int,
)
    requires
        partial.len() == NUM_RUNES,
        big <= NUM_RUNES,
        counts_headroom(partial, big),
        inv matches Some(avail) ==> avail.len() == NUM_RUNES,
        find_cover(need, inv, 0, big) == Some(b),
    ensures
        solve_rec(need, partial, big, inv) is Some,
        solve_rec(need, partial, big, inv) matches Some(p) ==> (total_value(p) == total_value(
            partial,
        ) + rune_values()[b] ==> p == partial.update(b, (partial[b] + 1) as u32)),
{
    lemma_find_cover_props(need, inv, 0, big);
    lemma_total_value_increment(partial, b);
}

/// The closest-cover scan: the smallest catalogue index below `hi` whose
/// item is available and worth at least `need`.
fn find_cover_item(need: u32, inventory: &Option<RuneCount>, hi: usize) -> (r: Option<usize>)
    requires
        hi <= NUM_RUNES,
        inventory matches Some(inv) ==> inv.wf(),
    ensures
        match r {
            Some(b) => find_cover(need as int, inv_view(*inventory), 0, hi as int) == Some(
                b as int,
            ) && b < hi,
            None => find_cover(need as int, inv_view(*inventory), 0, hi as int) is None,
        },
{
    let ghost iv = inv_view(*inventory);
    let mut i: usize = 0;
    while i < hi
        invariant
            hi <= NUM_RUNES,
            i <= hi,
            inventory matches Some(inv) ==> inv.wf(),
            iv == inv_view(*inventory),
            find_cover(need as int, iv, 0, hi as int) == find_cover(need as int, iv, i as int, hi as int),
        decreases hi - i,
    {
        let available = match inventory {
            Option::None => true,
            Option::Some(inv) => inv.has(i),
        };
        if available && rune_value(i) >= need {
            return Some(i);
        }
        i = i + 1;
    }
    None
}

/// The decrease-and-continue scan: the largest catalogue index below `hi`
/// whose item is available and worth strictly less than `need`.
fn find_under_item(need: u32, inventory: &Option<RuneCount>, hi: usize) -> (r: Option<usize>)
    requires
        hi <= NUM_RUNES,
        inventory matches Some(inv) ==> inv.wf(),
    ensures
        match r {
            Some(s) => find_under(need as int, inv_view(*inventory), hi as int) == Some(s as int)
                && s < hi,
            None => find_under(need as int, inv_view(*inventory), hi as int) is None,
        },
{
    let ghost iv = inv_view(*inventory);
    let mut i: usize = hi;
    while i > 0
        invariant
            i <= hi <= NUM_RUNES,
            inventory matches Some(inv) ==> inv.wf(),
            iv == inv_view(*inventory),
            find_under(need as int, iv, hi as int) == find_under(need as int, iv, i as int),
        decreases i,
    {
        let idx = i - 1;
        let available = match inventory {
            Option::None => true,
            Option::Some(inv) => inv.has(idx),
        };
        if available && rune_value(idx) < need {
            return Some(idx);
        }
        i = idx;
    }
    None
}

/// One redemption request: how many runes are held, how many are wanted,
/// and how the inventory file is consulted.
#[derive(Debug)]
pub struct Calculation {
    /// How many runes the caller already has.
    pub have: u32,
    /// How many runes the caller wants to reach.
    pub want: u32,
    /// Where the inventory file lives.
    pub file: String,
    /// Whether extra statistics are wanted in the output.
    pub verbose: bool,
    /// Whether the inventory look-up is disabled.
    pub no_inv: bool,
}

impl Calculation {
    /// The remaining amount a plan must cover.
    pub open spec fn spec_need(&self) -> int {
        self.want - self.have
    }

    /// One level of the exact recursive solver, mirroring `solve_rec`: weigh
    /// the closest-cover candidate against the decrease-and-continue candidate
    /// and keep the cheaper plan, preferring the closest cover on ties.
    /// `None` means no covering plan exists in the searched space. Termination
    /// is by the strictly shrinking ceiling, so the recursion depth never
    /// exceeds the catalogue size.
    pub fn _solve(
        need: u32,
        partial_solution: RuneCount,
        big_index: usize,
        inventory: Option<RuneCount>,
    ) -> (r: Option<RuneCount>)
        requires
            partial_solution.wf(),
            1 <= big_index <= NUM_RUNES,
            inventory matches Some(inv) ==> inv.wf(),
            counts_headroom(partial_solution@, big_index as int),
            total_value(partial_solution@) + 50000 * big_index <= u32::MAX,
        ensures
            match r {
                Some(p) => p.wf() && solve_rec(
                    need as int,
                    partial_solution@,
                    big_index as int,
                    inv_view(inventory),
                ) == Some(p@),
                None => solve_rec(
                    need as int,
                    partial_solution@,
                    big_index as int,
                    inv_view(inventory),
                ) is None,
            },
        decreases big_index,
    {
        let ghost iv = inv_view(inventory);
        let ghost partial0 = partial_solution@;
        proof {
            lemma_values_positive();
            crate::count::lemma_seg_value_nonneg(partial0, 0, NUM_RUNES as int);
        }

        let cover = find_cover_item(need, &inventory, big_index);
        proof {
            lemma_find_cover_props(need as int, iv, 0, big_index as int);
        }
        let fewer: Option<RuneCount> = if let Some(b) = cover {
            let mut me = partial_solution.duplicate();
            let c = me.get(b);
            me.set_count(b, c + 1);
            proof {
                lemma_total_value_increment(partial0, b as int);
            }
            Some(me)
        } else {
            None
        };
        let reduced: usize = match cover {
            Some(b) => b,
            None => big_index - 1,
        };
        let under = find_under_item(need, &inventory, reduced);
        proof {
            lemma_find_under_props(need as int, iv, reduced as int);
        }
        let more: Option<RuneCount> = if let Some(s) = under {
            let mut me = partial_solution;
            let c = me.get(s);
            me.set_count(s, c + 1);
            let v = rune_value(s);
            let new_inventory = if let Some(mut inv) = inventory {
                let ic = inv.get(s);
                inv.set_count(s, ic - 1);
                Some(inv)
            } else {
                None
            };
            proof {
                lemma_total_value_increment(partial0, s as int);
                assert(50000 * (reduced as int) <= 50000 * (big_index - 1)) by (nonlinear_arith)
                    requires
                        reduced as int <= big_index - 1,
                ;
                assert(counts_headroom(me@, reduced as int));
            }
            let r2 = Calculation::_solve(need - v, me, reduced, new_inventory);
            proof {
                lemma_solve_rec_within(
                    need - v as int,
                    me@,
                    reduced as int,
                    dec_inv(iv, s as int),
                );
                assert(inv_view(new_inventory) == dec_inv(iv, s as int));
            }
            r2
        } else {
            None
        };
        match (fewer, more) {
            (Some(a), Some(b)) => {
                if a.total() <= b.total() {
                    Some(a)
                } else {
                    Some(b)
                }
            },
            (Some(a), None) => Some(a),
            (None, m) => m,
        }
    }

    /// The redemption plan for a strictly positive `need`, starting from an
    /// empty partial plan with the whole catalogue in reach. The caller must
    /// have checked beforehand that the search succeeds; the
    /// `solve_rec ... is Some` precondition records exactly that.
    pub fn solve(need: u32, inventory: Option<RuneCount>) -> (r: RuneCount)
        requires
            inventory matches Some(inv) ==> inv.wf(),
            solve_rec(need as int, zero_counts(), NUM_RUNES as int, inv_view(inventory)) is Some,
        ensures
            r.wf(),
            Some(r@) == solve_rec(need as int, zero_counts(), NUM_RUNES as int, inv_view(inventory)),
    {
        proof {
            lemma_zero_counts_value();
            assert(counts_headroom(zero_counts(), NUM_RUNES as int));
        }
        let start = RuneCount::default();
        match Calculation::_solve(need, start, NUM_RUNES, inventory) {
            Some(p) => p,
            None => {
                proof {
                    assert(false);
                }
                unreached()
            },
        }
    }

    /// The optimal plan with unconstrained availability of every item.
    pub fn without_inventory(&self) -> (r: RuneCount)
        requires
            self.have < self.want,
            solve_rec(self.spec_need(), zero_counts(), NUM_RUNES as int, None) is Some,
        ensures
            r.wf(),
            Some(r@) == solve_rec(self.spec_need(), zero_counts(), NUM_RUNES as int, None),
    {
        Calculation::solve(self.want - self.have, None)
    }

    /// The optimal plan drawing only on `inventory`, which is decremented
    /// by the plan on success. When the inventory's total value cannot
    /// cover the need, fails with the exact shortfall and leaves the
    /// inventory untouched.
    pub fn with_inventory(&self, inventory: &mut RuneCount) -> (r: Result<RuneCount, Error>)
        requires
            old(inventory).wf(),
            self.have < self.want,
            clamp_u32(total_value(old(inventory)@)) >= self.spec_need() ==> solve_rec(
                self.spec_need(),
                zero_counts(),
                NUM_RUNES as int,
                Some(old(inventory)@),
            ) is Some,
        ensures
            final(inventory).wf(),
            clamp_u32(total_value(old(inventory)@)) < self.spec_need() ==> r == Err::<
                RuneCount,
                Error,
            >(
                Error::InsufficientSupply(
                    (self.spec_need() - clamp_u32(total_value(old(inventory)@))) as u32,
                ),
            ) && final(inventory)@ == old(inventory)@,
            clamp_u32(total_value(old(inventory)@)) >= self.spec_need() ==> r is Ok,
            r matches Ok(p) ==> Some(p@) == solve_rec(
                self.spec_need(),
                zero_counts(),
                NUM_RUNES as int,
                Some(old(inventory)@),
            ) && (forall|i: int|
                0 <= i < NUM_RUNES ==> final(inventory)@[i] == old(inventory)@[i] - p@[i]),
    {
        let need = self.want - self.have;
        let inv_total = inventory.total();
        if inv_total < need {
            let short = need - inv_total;
            return Err(Error::InsufficientSupply(short));
        }
        let solution = Calculation::solve(need, Some(inventory.duplicate()));
        proof {
            lemma_zero_counts_value();
            assert(counts_headroom(zero_counts(), NUM_RUNES as int));
            lemma_solve_rec_within(
                need as int,
                zero_counts(),
                NUM_RUNES as int,
                Some(old(inventory)@),
            );
        }
        inventory.decrement_by(&solution);
        Ok(solution)
    }

    /// The whole redemption decision: reject an already-satisfied request,
    /// then plan either against the given inventory snapshot (returning
    /// the post-redemption inventory besides the plan) or with
    /// unconstrained availability.
    pub fn plan(&self, inventory: Option<RuneCount>) -> (r: Result<
        (RuneCount, Option<RuneCount>),
        Error,
    >)
        requires
            self.have < self.want && inventory is None ==> solve_rec(
                self.spec_need(),
                zero_counts(),
                NUM_RUNES as int,
                None,
            ) is Some,
            inventory matches Some(inv) ==> inv.wf() && (self.have < self.want && clamp_u32(
                total_value(inv@),
            ) >= self.spec_need() ==> solve_rec(
                self.spec_need(),
                zero_counts(),
                NUM_RUNES as int,
                Some(inv@),
            ) is Some),
        ensures
            self.have >= self.want <==> r == Err::<(RuneCount, Option<RuneCount>), Error>(
                Error::AlreadySatisfied,
            ),
            self.have < self.want && inventory is None ==> (r matches Ok(pair) && Some(pair.0@)
                == solve_rec(self.spec_need(), zero_counts(), NUM_RUNES as int, None)
                && pair.1 is None),
            inventory matches Some(inv) ==> {
                &&& self.have < self.want && clamp_u32(total_value(inv@)) < self.spec_need()
                    ==> r == Err::<(RuneCount, Option<RuneCount>), Error>(
                    Error::InsufficientSupply(
                        (self.spec_need() - clamp_u32(total_value(inv@))) as u32,
                    ),
                )
                &&& self.have < self.want && clamp_u32(total_value(inv@)) >= self.spec_need()
                    ==> (r matches Ok(pair) && Some(pair.0@) == solve_rec(
                    self.spec_need(),
                    zero_counts(),
                    NUM_RUNES as int,
                    Some(inv@),
                ) && (pair.1 matches Some(left) && left.wf() && (forall|i: int|
                    0 <= i < NUM_RUNES ==> left@[i] == inv@[i] - pair.0@[i])))
            },
    {
        if self.have >= self.want {
            return Err(Error::AlreadySatisfied);
        }
        match inventory {
            Option::None => Ok((self.without_inventory(), None)),
            Option::Some(mut inv) => match self.with_inventory(&mut inv) {
                Ok(p) => Ok((p, Some(inv))),
                Err(e) => Err(e),
            },
        }
    }
}

impl Default for Calculation {
    /// A request for nothing, consulting the default inventory file.
    fn default() -> (r: Calculation)
        ensures
            r.have == 0,
            r.want == 0,
            r.file@ == crate::default_path_spec(),
            !r.verbose,
            !r.no_inv,
    {
        Calculation {
            have: 0,
            want: 0,
            file: crate::default_path(),
            verbose: false,
            no_inv: false,
        }
    }
}

} // verus!
