use vstd::prelude::*;

use vstd::string::StrSliceExecFns;

use crate::Error;

verus! {

/// Whether `v` is carried by two different entries.
pub open spec fn duplicated_value(s: Seq<(String, u32)>, v: u32) -> bool {
    exists|i: int, j: int| 0 <= i < j < s.len() && (#[trigger] s[i]).1 == v && (#[trigger] s[j]).1 == v
}

/// Whether any value is carried by two different entries.
pub open spec fn has_duplicate(s: Seq<(String, u32)>) -> bool {
    exists|v: u32| duplicated_value(s, v)
}

/// Whether some other entry carries the same value as the entry at `i`.
pub open spec fn value_repeats(s: Seq<(String, u32)>, i: int) -> bool {
    exists|j: int| 0 <= j < s.len() && j != i && (#[trigger] s[j]).1 == s[i].1
}

/// Whether the entries are sorted strictly ascending by value.
pub open spec fn sorted_strict(s: Seq<(String, u32)>) -> bool {
    forall|a: int, b: int| 0 <= a < b < s.len() ==> (#[trigger] s[a]).1 < (#[trigger] s[b]).1
}

/// Whether the entry at `i` repeats a value elsewhere.
fn repeats_at(entries: &Vec<(String, u32)>, i: usize) -> (r: bool)
    requires
        i < entries@.len(),
    ensures
        r == value_repeats(entries@, i as int),
{
    let mut j: usize = 0;
    while j < entries.len()
        invariant
            i < entries@.len(),
            j <= entries@.len(),
            forall|k: int| 0 <= k < j && k != i ==> (#[trigger] entries@[k]).1 != entries@[i as int].1,
        decreases entries@.len() - j,
    {
        if j != i && entries[j].1 == entries[i].1 {
            return true;
        }
        j = j + 1;
    }
    false
}

/// The smallest value carried by two different entries, if any.
fn min_dup_value(entries: &Vec<(String, u32)>) -> (r: Option<u32>)
    ensures
        match r {
            Some(v) => duplicated_value(entries@, v) && (forall|w: u32|
                duplicated_value(entries@, w) ==> v <= w),
            None => !has_duplicate(entries@),
        },
{
    let ghost s = entries@;
    let mut best: Option<u32> = None;
    let mut i: usize = 0;
    while i < entries.len()
        invariant
            s == entries@,
            i <= s.len(),
            best matches Some(v) ==> exists|ii: int|
                0 <= ii < i && (#[trigger] s[ii]).1 == v && value_repeats(s, ii),
            forall|ii: int|
                0 <= ii < i && value_repeats(s, ii) ==> best is Some && best->Some_0 <= (
                #[trigger] s[ii]).1,
        decreases s.len() - i,
    {
        if repeats_at(entries, i) {
            let vi = entries[i].1;
            best = match best {
                None => Some(vi),
                Some(b) => if vi < b {
                    Some(vi)
                } else {
                    Some(b)
                },
            };
        }
        i = i + 1;
    }
    proof {
        if let Some(v) = best {
            let ii = choose|ii: int| 0 <= ii < s.len() && (#[trigger] s[ii]).1 == v
                && value_repeats(s, ii);
            let j = choose|j: int| 0 <= j < s.len() && j != ii && (#[trigger] s[j]).1 == s[ii].1;
            if j < ii {
                assert(duplicated_value(s, v));
            } else {
                assert(duplicated_value(s, v));
            }
            assert(forall|w: u32| duplicated_value(s, w) ==> v <= w) by {
                assert forall|w: u32| duplicated_value(s, w) implies v <= w by {
                    let (a, b): (int, int) = choose|a: int, b: int|
                        0 <= a < b < s.len() && (#[trigger] s[a]).1 == w && (#[trigger] s[b]).1
                            == w;
                    assert(value_repeats(s, a));
                }
            }
        } else {
            assert(!has_duplicate(s)) by {
                assert forall|w: u32| !duplicated_value(s, w) by {
                    if duplicated_value(s, w) {
                        let (a, b): (int, int) = choose|a: int, b: int|
                            0 <= a < b < s.len() && (#[trigger] s[a]).1 == w && (#[trigger] s[b]).1
                                == w;
                        assert(value_repeats(s, a));
                    }
                }
            }
        }
    }
    best
}

/// The index of an entry with the smallest value.
fn min_index(src: &Vec<(String, u32)>) -> (m: usize)
    requires
        src@.len() > 0,
    ensures
        m < src@.len(),
        forall|b: int| 0 <= b < src@.len() ==> src@[m as int].1 <= (#[trigger] src@[b]).1,
{
    let mut m: usize = 0;
    let mut j: usize = 1;
    while j < src.len()
        invariant
            m < j <= src@.len(),
            forall|b: int| 0 <= b < j ==> src@[m as int].1 <= (#[trigger] src@[b]).1,
        decreases src@.len() - j,
    {
        if src[j].1 < src[m].1 {
            m = j;
        }
        j = j + 1;
    }
    m
}

/// Sorts entries with pairwise distinct values ascending by value.
fn sort_entries(entries: Vec<(String, u32)>) -> (r: Vec<(String, u32)>)
    requires
        !has_duplicate(entries@),
    ensures
        r@.len() == entries@.len(),
        r@.to_multiset() == entries@.to_multiset(),
        sorted_strict(r@),
{
    broadcast use vstd::seq_lib::group_to_multiset_ensures;
    broadcast use vstd::multiset::group_multiset_axioms;

    let ghost all = entries@;
    let mut src = entries;
    let mut out: Vec<(String, u32)> = Vec::new();
    proof {
        assert(out@.to_multiset().add(src@.to_multiset()) =~= all.to_multiset());
        assert forall|a: int, b: int| 0 <= a < b < src@.len() implies (#[trigger] src@[a]).1 != (
        #[trigger] src@[b]).1 by {
            if src@[a].1 == src@[b].1 {
                assert(duplicated_value(all, all[a].1));
            }
        }
    }
    while src.len() > 0
        invariant
            out@.len() + src@.len() == all.len(),
            out@.to_multiset().add(src@.to_multiset()) == all.to_multiset(),
            sorted_strict(out@),
            forall|a: int, b: int|
                0 <= a < out@.len() && 0 <= b < src@.len() ==> (#[trigger] out@[a]).1 < (
                #[trigger] src@[b]).1,
            forall|a: int, b: int|
                0 <= a < b < src@.len() ==> (#[trigger] src@[a]).1 != (#[trigger] src@[b]).1,
        decreases src@.len(),
    {
        let ghost src0 = src@;
        let ghost out0 = out@;
        let m = min_index(&src);
        let x = src.remove(m);
        out.push(x);
        proof {
            broadcast use vstd::seq_lib::group_to_multiset_ensures;
            broadcast use vstd::multiset::group_multiset_axioms;

            assert(src0.contains(src0[m as int]));
            assert(src@ == src0.remove(m as int));
            assert(src0.remove(m as int).to_multiset() =~= src0.to_multiset().remove(
                src0[m as int],
            ));
            assert(out@.to_multiset() =~= out0.to_multiset().insert(x));
            assert(out@.to_multiset().add(src@.to_multiset()) =~= out0.to_multiset().add(
                src0.to_multiset(),
            ));
            assert(forall|b: int|
                0 <= b < src@.len() ==> #[trigger] src@[b] == if b < m {
                    src0[b]
                } else {
                    src0[b + 1]
                });
            assert(forall|a: int|
                0 <= a < out@.len() ==> #[trigger] out@[a] == if a < out0.len() {
                    out0[a]
                } else {
                    x
                });
        }
    }
    out
}

/// The ordered, immutable denomination catalogue: one labelled value per
/// currency-bearing item type, sorted strictly ascending by value.
#[derive(Debug)]
pub struct Catalogue {
    entries: Vec<(String, u32)>,
}

impl View for Catalogue {
    type V = Seq<(String, u32)>;

    closed spec fn view(&self) -> Seq<(String, u32)> {
        self.entries@
    }
}

impl Catalogue {
    /// A catalogue holds its entries sorted strictly ascending by value.
    pub open spec fn wf(&self) -> bool {
        sorted_strict(self@)
    }

    /// Builds the catalogue from labelled values: sorts them ascending by
    /// value, and rejects the whole configuration with the smallest
    /// colliding value when two entries share a value.
    pub fn build(entries: Vec<(String, u32)>) -> (r: Result<Catalogue, Error>)
        ensures
            r is Ok <==> !has_duplicate(entries@),
            r matches Ok(c) ==> c.wf() && c@.len() == entries@.len() && c@.to_multiset()
                == entries@.to_multiset(),
            r matches Err(e) ==> e matches Error::DuplicateValue(v) && duplicated_value(
                entries@,
                v,
            ) && (forall|w: u32| duplicated_value(entries@, w) ==> v <= w),
    {
        match min_dup_value(&entries) {
            Some(v) => Err(Error::DuplicateValue(v)),
            None => Ok(Catalogue { entries: sort_entries(entries) }),
        }
    }

    /// How many denominations the catalogue holds.
    pub fn len(&self) -> (r: usize)
        ensures
            r == self@.len(),
    {
        self.entries.len()
    }

    /// The value of the denomination at `i`.
    pub fn value_at(&self, i: usize) -> (r: u32)
        requires
            i < self@.len(),
        ensures
            r == self@[i as int].1,
    {
        self.entries[i].1
    }

    /// The label of the denomination at `i`.
    pub fn label_at(&self, i: usize) -> (r: String)
        requires
            i < self@.len(),
        ensures
            r@ == self@[i as int].0@,
    {
        self.entries[i].0.clone()
    }

    /// The index of the denomination labelled `label`, matched verbatim.
    pub fn index_of_label(&self, label: &str) -> (r: Option<usize>)
        ensures
            match r {
                Some(k) => k < self@.len() && self@[k as int].0@ == label@ && (forall|m: int|
                    0 <= m < k ==> (#[trigger] self@[m]).0@ != label@),
                None => forall|m: int| 0 <= m < self@.len() ==> (#[trigger] self@[m]).0@ != label@,
            },
    {
        let mut k: usize = 0;
        while k < self.entries.len()
            invariant
                k <= self@.len(),
                forall|m: int| 0 <= m < k ==> (#[trigger] self@[m]).0@ != label@,
            decreases self@.len() - k,
        {
            if str_eq(self.entries[k].0.as_str(), label) {
                return Some(k);
            }
            k = k + 1;
        }
        None
    }
}

/// Whether two strings read the same.
fn str_eq(a: &str, b: &str) -> (r: bool)
    ensures
        r == (a@ == b@),
{
    let alen = a.unicode_len();
    let blen = b.unicode_len();
    if alen != blen {
        return false;
    }
    let mut m: usize = 0;
    while m < alen
        invariant
            m <= alen,
            alen == a@.len(),
            alen == b@.len(),
            forall|k: int| 0 <= k < m ==> a@[k] == b@[k],
        decreases alen - m,
    {
        if a.get_char(m) != b.get_char(m) {
            return false;
        }
        m = m + 1;
    }
    proof {
        assert(a@ =~= b@);
    }
    true
}

} // verus!
