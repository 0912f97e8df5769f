//! Optimal redemption of discrete rune items: given a current and a desired
//! amount of runes, pick the multiset of rune items whose combined value
//! covers the difference with the least waste, optionally limited to the
//! items an inventory actually holds.

use vstd::prelude::*;

pub mod count;
pub mod catalogue;
pub mod codec;
pub mod solver;
pub mod stats;

verus! {

/// Every failure the library reports. Each one is terminal for the
/// operation that raised it; nothing is retried or silently defaulted.
#[derive(Debug, Clone, Copy, PartialEq, Eq, Structural)]
pub enum Error {
    /// The caller already holds at least the desired amount.
    AlreadySatisfied,
    /// The inventory cannot cover the needed amount; carries the shortfall.
    InsufficientSupply(u32),
    /// A persisted line lacks the `<count>x ` prefix or a readable count;
    /// carries the 0-based line number.
    MalformedLine(usize),
    /// A persisted line names no catalogue label; carries the 0-based line
    /// number.
    UnknownLabel(usize),
    /// Two catalogue entries share a value; carries the colliding value.
    DuplicateValue(u32),
}

/// How many denominations the rune catalogue holds.
pub const NUM_RUNES: usize = 20;

/// The value of each rune item, in catalogue order (ascending, pairwise
/// distinct).
pub open spec fn rune_values() -> Seq<int> {
    seq![
        200, 400, 800, 1200, 1600, 2000, 2500, 3000, 3800, 5000, 6250, 7500, 10000, 12500, 15000,
        20000, 25000, 30000, 35000, 50000,
    ]
}

/// The label of each rune item, in catalogue order. Labels are matched
/// verbatim by the persistence codec, so they are pairwise distinct.
pub open spec fn rune_label_chars(i: int) -> Seq<char> {
    if i == 0 {
        "Golden Rune [1]"@
    } else if i == 1 {
        "Golden Rune [2]"@
    } else if i == 2 {
        "Golden Rune [3]"@
    } else if i == 3 {
        "Golden Rune [4]"@
    } else if i == 4 {
        "Golden Rune [5]"@
    } else if i == 5 {
        "Golden Rune [6]"@
    } else if i == 6 {
        "Golden Rune [7]"@
    } else if i == 7 {
        "Golden Rune [8]"@
    } else if i == 8 {
        "Golden Rune [9]"@
    } else if i == 9 {
        "Golden Rune [10]"@
    } else if i == 10 {
        "Golden Rune [11]"@
    } else if i == 11 {
        "Golden Rune [12]"@
    } else if i == 12 {
        "Golden Rune [13]"@
    } else if i == 13 {
        "Numen's Rune"@
    } else if i == 14 {
        "Hero's Rune [1]"@
    } else if i == 15 {
        "Hero's Rune [2]"@
    } else if i == 16 {
        "Hero's Rune [3]"@
    } else if i == 17 {
        "Hero's Rune [4]"@
    } else if i == 18 {
        "Hero's Rune [5]"@
    } else {
        "Lord's Rune"@
    }
}

/// The label of the rune item at `i`.
pub fn rune_label(i: usize) -> (r: &'static str)
    requires
        i < NUM_RUNES,
    ensures
        r@ == rune_label_chars(i as int),
{
    match i {
        0 => "Golden Rune [1]",
        1 => "Golden Rune [2]",
        2 => "Golden Rune [3]",
        3 => "Golden Rune [4]",
        4 => "Golden Rune [5]",
        5 => "Golden Rune [6]",
        6 => "Golden Rune [7]",
        7 => "Golden Rune [8]",
        8 => "Golden Rune [9]",
        9 => "Golden Rune [10]",
        10 => "Golden Rune [11]",
        11 => "Golden Rune [12]",
        12 => "Golden Rune [13]",
        13 => "Numen's Rune",
        14 => "Hero's Rune [1]",
        15 => "Hero's Rune [2]",
        16 => "Hero's Rune [3]",
        17 => "Hero's Rune [4]",
        18 => "Hero's Rune [5]",
        _ => "Lord's Rune",
    }
}

/// Where the inventory file lives unless the caller says otherwise.
pub open spec fn default_path_spec() -> Seq<char> {
    "./elden_runes"@
}

/// The default inventory file path.
pub fn default_path() -> (r: String)
    ensures
        r@ == default_path_spec(),
{
    "./elden_runes".to_owned()
}

/// The catalogue value of the rune item at `i`.
pub fn rune_value(i: usize) -> (v: u32)
    requires
        i < NUM_RUNES,
    ensures
        v as int == rune_values()[i as int],
{
    match i {
        0 => 200,
        1 => 400,
        2 => 800,
        3 => 1200,
        4 => 1600,
        5 => 2000,
        6 => 2500,
        7 => 3000,
        8 => 3800,
        9 => 5000,
        10 => 6250,
        11 => 7500,
        12 => 10000,
        13 => 12500,
        14 => 15000,
        15 => 20000,
        16 => 25000,
        17 => 30000,
        18 => 35000,
        _ => 50000,
    }
}

} // verus!
