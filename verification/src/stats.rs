use vstd::prelude::*;
use vstd::string::StringExecFns;

use crate::codec::{dec_chars, push_u32};
use crate::count::{clamp_u32, total_value, RuneCount};

verus! {

/// The extra statistics printed for a verbose calculation: the combined
/// value being consumed, the balance right after consuming, and what is
/// left of it once the wanted amount is spent.
#[derive(Debug, Clone, Copy, PartialEq, Eq, Structural)]
pub struct VerboseStats {
    /// The combined value of the items consumed.
    pub to_consume: u32,
    /// The balance after consuming: what was held plus `to_consume`.
    pub before_spending: u32,
    /// What is left after spending the wanted amount.
    pub after_spending: u32,
}

/// The statistics sentence, with the three amounts written in decimal.
pub open spec fn stats_chars(consume: u32, before: u32, after: u32) -> Seq<char> {
    "In total, you're consuming "@ + dec_chars(consume as nat)
        + " runes, which will result in you having "@ + dec_chars(before as nat) + " runes, leaving "@
        + dec_chars(after as nat) + " after spending"@
}

impl VerboseStats {
    /// The statistics for spending up from `have` to `want` by consuming
    /// the given items. The consumed total may not push the balance past
    /// the counter's range, and must reach `want`.
    pub fn new(have: u32, want: u32, consuming: RuneCount) -> (r: VerboseStats)
        requires
            consuming.wf(),
            have + clamp_u32(total_value(consuming@)) <= u32::MAX,
            have + clamp_u32(total_value(consuming@)) >= want,
        ensures
            r.to_consume as int == clamp_u32(total_value(consuming@)),
            r.before_spending == have + r.to_consume,
            r.after_spending == r.before_spending - want,
    {
        let to_consume = consuming.total();
        let before_spending = have + to_consume;
        let after_spending = before_spending - want;
        VerboseStats { to_consume, before_spending, after_spending }
    }

    /// The statistics written as one sentence.
    pub fn render(&self) -> (r: String)
        ensures
            r@ == stats_chars(self.to_consume, self.before_spending, self.after_spending),
    {
        let mut out = String::new();
        out.append("In total, you're consuming ");
        push_u32(&mut out, self.to_consume);
        out.append(" runes, which will result in you having ");
        push_u32(&mut out, self.before_spending);
        out.append(" runes, leaving ");
        push_u32(&mut out, self.after_spending);
        out.append(" after spending");
        proof {
            assert(out@ =~= stats_chars(
                self.to_consume,
                self.before_spending,
                self.after_spending,
            ));
        }
        out
    }
}

} // verus!
