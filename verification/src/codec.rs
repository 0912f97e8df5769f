use vstd::prelude::*;
use vstd::string::{StrSliceExecFns, StringExecFns};

use crate::count::{zero_counts, RuneCount};
use crate::count::lemma_values_positive;
use crate::{rune_label, rune_label_chars, rune_value, rune_values, Error, NUM_RUNES};

verus! {

/// Whether `c` is a decimal digit.
pub open spec fn is_digit(c: char) -> bool {
    48 <= c as u32 <= 57
}

/// The numeric value of a digit character.
pub open spec fn digit_val(c: char) -> int {
    c as u32 - 48
}

/// The digit character denoting `d`.
pub open spec fn digit_char(d: int) -> char {
    if d == 0 {
        '0'
    } else if d == 1 {
        '1'
    } else if d == 2 {
        '2'
    } else if d == 3 {
        '3'
    } else if d == 4 {
        '4'
    } else if d == 5 {
        '5'
    } else if d == 6 {
        '6'
    } else if d == 7 {
        '7'
    } else if d == 8 {
        '8'
    } else {
        '9'
    }
}

/// The decimal rendering of `n`, most significant digit first, no sign and
/// no padding.
pub open spec fn dec_chars(n: nat) -> Seq<char>
    decreases n,
{
    if n < 10 {
        seq![digit_char(n as int)]
    } else {
        dec_chars(n / 10).push(digit_char((n % 10) as int))
    }
}

/// Whether every character of `s` is a digit.
pub open spec fn all_digits(s: Seq<char>) -> bool {
    forall|k: int| 0 <= k < s.len() ==> is_digit(#[trigger] s[k])
}

/// The number the digit string `s` denotes.
pub open spec fn digits_val(s: Seq<char>) -> int
    decreases s.len(),
{
    if s.len() == 0 {
        0
    } else {
        digits_val(s.drop_last()) * 10 + digit_val(s.last())
    }
}

/// The first line break at or after `from`.
pub open spec fn first_newline_at(s: Seq<char>, from: int) -> Option<int>
    decreases s.len() - from,
{
    if from >= s.len() {
        None
    } else if s[from] == '\n' {
        Some(from)
    } else {
        first_newline_at(s, from + 1)
    }
}

/// The first `x ` delimiter at or after `from`: the position of an `x`
/// directly followed by a space.
pub open spec fn find_delim_at(s: Seq<char>, from: int) -> Option<int>
    decreases s.len() - from,
{
    if from + 1 >= s.len() {
        None
    } else if s[from] == 'x' && s[from + 1] == ' ' {
        Some(from)
    } else {
        find_delim_at(s, from + 1)
    }
}

/// The first catalogue index at or after `k` whose label is exactly `s`.
pub open spec fn find_label_from(s: Seq<char>, k: int) -> Option<int>
    decreases NUM_RUNES - k,
{
    if k >= NUM_RUNES {
        None
    } else if rune_label_chars(k) == s {
        Some(k)
    } else {
        find_label_from(s, k + 1)
    }
}

/// One parsed `<count>x <label>` line folded into the running counts:
/// a missing delimiter, an empty or non-digit or too-large count, or a
/// count that overflows the accumulated counter is a `MalformedLine`; a
/// label matching no catalogue entry verbatim is an `UnknownLabel`.
pub open spec fn parse_line(line: Seq<char>, counts: Seq<u32>, line_no: int) -> Result<
    Seq<u32>,
    Error,
> {
    match find_delim_at(line, 0) {
        None => Err(Error::MalformedLine(line_no as usize)),
        Some(j) => {
            let digits = line.subrange(0, j);
            let label = line.subrange(j + 2, line.len() as int);
            if !(digits.len() > 0 && all_digits(digits)) {
                Err(Error::MalformedLine(line_no as usize))
            } else if digits_val(digits) > u32::MAX {
                Err(Error::MalformedLine(line_no as usize))
            } else {
                match find_label_from(label, 0) {
                    None => Err(Error::UnknownLabel(line_no as usize)),
                    Some(k) => if counts[k] + digits_val(digits) > u32::MAX {
                        Err(Error::MalformedLine(line_no as usize))
                    } else {
                        Ok(counts.update(k, (counts[k] + digits_val(digits)) as u32))
                    },
                }
            }
        },
    }
}

/// The text from `from` on parsed line by line: lines are split at line
/// breaks, a carriage return directly before a line break is dropped, the
/// final line break is optional, and counts for the same label accumulate.
pub open spec fn parse_from(s: Seq<char>, from: int, line_no: int, counts: Seq<u32>) -> Result<
    Seq<u32>,
    Error,
>
    decreases s.len() - from,
    via parse_from_decreases
{
    if from >= s.len() {
        Ok(counts)
    } else {
        match first_newline_at(s, from) {
            None => match parse_line(s.subrange(from, s.len() as int), counts, line_no) {
                Err(e) => Err(e),
                Ok(c2) => Ok(c2),
            },
            Some(j) => {
                let body_end = if j > from && s[j - 1] == '\r' {
                    j - 1
                } else {
                    j
                };
                match parse_line(s.subrange(from, body_end), counts, line_no) {
                    Err(e) => Err(e),
                    Ok(c2) => parse_from(s, j + 1, line_no + 1, c2),
                }
            },
        }
    }
}

#[via_fn]
proof fn parse_from_decreases(s: Seq<char>, from: int, line_no: int, counts: Seq<u32>) {
    lemma_first_newline_props(s, from);
}

/// The whole persisted text parsed into a quantity vector.
pub open spec fn parse_text(s: Seq<char>) -> Result<Seq<u32>, Error> {
    parse_from(s, 0, 0, zero_counts())
}

/// One rendered line: the count, the literal `x `, the label, a line
/// break.
pub open spec fn render_line(i: int, c: u32) -> Seq<char> {
    dec_chars(c as nat) + seq!['x', ' '] + rune_label_chars(i) + seq!['\n']
}

/// The rendered lines for the catalogue indices from `i` on.
pub open spec fn render_from(s: Seq<u32>, i: int) -> Seq<char>
    decreases NUM_RUNES - i,
{
    if i >= NUM_RUNES {
        Seq::empty()
    } else {
        render_line(i, s[i]) + render_from(s, i + 1)
    }
}

/// The persisted text for a quantity vector: one line per catalogue entry
/// in catalogue order, zero counts included.
pub open spec fn render_text(s: Seq<u32>) -> Seq<char> {
    render_from(s, 0)
}

/// What an answer of `first_newline_at` means.
pub proof fn lemma_first_newline_props(s: Seq<char>, from: int)
    ensures
        first_newline_at(s, from) matches Some(j) ==> from <= j < s.len() && s[j] == '\n' && (
        forall|k: int| from <= k < j ==> s[k] != '\n'),
        first_newline_at(s, from) is None ==> forall|k: int|
            from <= k < s.len() ==> s[k] != '\n',
    decreases s.len() - from,
{
    if from < s.len() {
        lemma_first_newline_props(s, from + 1);
    }
}

/// Every decimal rendering is a non-empty digit string.
pub proof fn lemma_dec_chars_digits(n: nat)
    ensures
        dec_chars(n).len() >= 1,
        all_digits(dec_chars(n)),
    decreases n,
{
    if n >= 10 {
        lemma_dec_chars_digits(n / 10);
    }
}

/// Parsing a decimal rendering gives the number back.
pub proof fn lemma_digits_val_dec_chars(n: nat)
    ensures
        digits_val(dec_chars(n)) == n,
    decreases n,
{
    if n < 10 {
        assert(dec_chars(n) == seq![digit_char(n as int)]);
        assert(dec_chars(n).drop_last() =~= Seq::<char>::empty());
        assert(digits_val(Seq::<char>::empty()) == 0);
        assert(digit_val(digit_char(n as int)) == n);
    } else {
        lemma_digits_val_dec_chars(n / 10);
        assert(dec_chars(n).drop_last() =~= dec_chars(n / 10));
        assert(dec_chars(n).last() == digit_char((n % 10) as int));
        assert(digit_val(digit_char((n % 10) as int)) == n % 10);
        assert(n == (n / 10) * 10 + n % 10);
    }
}

/// A digit string denotes a non-negative number.
pub proof fn lemma_digits_val_nonneg(s: Seq<char>)
    requires
        all_digits(s),
    ensures
        digits_val(s) >= 0,
    decreases s.len(),
{
    if s.len() > 0 {
        assert(all_digits(s.drop_last()));
        lemma_digits_val_nonneg(s.drop_last());
    }
}

/// A prefix of a digit string never denotes more than the whole.
pub proof fn lemma_digits_val_prefix(s: Seq<char>, m: int)
    requires
        all_digits(s),
        0 <= m <= s.len(),
    ensures
        digits_val(s.take(m)) <= digits_val(s),
    decreases s.len() - m,
{
    if m < s.len() {
        lemma_digits_val_prefix(s, m + 1);
        assert(s.take(m + 1).drop_last() =~= s.take(m));
        assert(all_digits(s.take(m))) by {
            assert(forall|k: int| 0 <= k < m ==> s.take(m)[k] == s[k]);
        }
        lemma_digits_val_nonneg(s.take(m));
        assert(digits_val(s.take(m + 1)) == digits_val(s.take(m)) * 10 + digit_val(s[m]));
    } else {
        assert(s.take(m) =~= s);
    }
}

/// A fingerprint that separates the twenty labels: the first character,
/// the length, and the character before the closing bracket.
spec fn label_key(s: Seq<char>) -> int {
    if s.len() >= 14 {
        100000 * (s[0] as int) + 1000 * (s.len() as int) + s[s.len() - 2] as int
    } else {
        100000 * (s[0] as int) + 1000 * (s.len() as int)
    }
}

/// The shape facts of the label at `i` that the codec proofs lean on:
/// labels are short, non-empty, and hold no line break, carriage return
/// or `x`.
pub proof fn lemma_label_facts(i: int)
    requires
        0 <= i < NUM_RUNES,
    ensures
        1 <= rune_label_chars(i).len() <= 16,
        forall|k: int|
            0 <= k < rune_label_chars(i).len() ==> (#[trigger] rune_label_chars(i)[k]) != '\n'
                && rune_label_chars(i)[k] != '\r' && rune_label_chars(i)[k] != 'x',
{
    reveal_strlit("Golden Rune [1]");
    reveal_strlit("Golden Rune [2]");
    reveal_strlit("Golden Rune [3]");
    reveal_strlit("Golden Rune [4]");
    reveal_strlit("Golden Rune [5]");
    reveal_strlit("Golden Rune [6]");
    reveal_strlit("Golden Rune [7]");
    reveal_strlit("Golden Rune [8]");
    reveal_strlit("Golden Rune [9]");
    reveal_strlit("Golden Rune [10]");
    reveal_strlit("Golden Rune [11]");
    reveal_strlit("Golden Rune [12]");
    reveal_strlit("Golden Rune [13]");
    reveal_strlit("Numen's Rune");
    reveal_strlit("Hero's Rune [1]");
    reveal_strlit("Hero's Rune [2]");
    reveal_strlit("Hero's Rune [3]");
    reveal_strlit("Hero's Rune [4]");
    reveal_strlit("Hero's Rune [5]");
    reveal_strlit("Lord's Rune");
}

/// Scanning the labels for the label of `i` finds exactly `i`: no earlier
/// label reads the same.
#[verifier::rlimit(100)]
pub proof fn lemma_find_label_of(i: int)
    requires
        0 <= i < NUM_RUNES,
    ensures
        find_label_from(rune_label_chars(i), 0) == Some(i),
{
    reveal_strlit("Golden Rune [1]");
    reveal_strlit("Golden Rune [2]");
    reveal_strlit("Golden Rune [3]");
    reveal_strlit("Golden Rune [4]");
    reveal_strlit("Golden Rune [5]");
    reveal_strlit("Golden Rune [6]");
    reveal_strlit("Golden Rune [7]");
    reveal_strlit("Golden Rune [8]");
    reveal_strlit("Golden Rune [9]");
    reveal_strlit("Golden Rune [10]");
    reveal_strlit("Golden Rune [11]");
    reveal_strlit("Golden Rune [12]");
    reveal_strlit("Golden Rune [13]");
    reveal_strlit("Numen's Rune");
    reveal_strlit("Hero's Rune [1]");
    reveal_strlit("Hero's Rune [2]");
    reveal_strlit("Hero's Rune [3]");
    reveal_strlit("Hero's Rune [4]");
    reveal_strlit("Hero's Rune [5]");
    reveal_strlit("Lord's Rune");
    reveal_with_fuel(find_label_from, 21);
    assert(label_key(rune_label_chars(0)) == 7115049);
    assert(label_key(rune_label_chars(1)) == 7115050);
    assert(label_key(rune_label_chars(2)) == 7115051);
    assert(label_key(rune_label_chars(3)) == 7115052);
    assert(label_key(rune_label_chars(4)) == 7115053);
    assert(label_key(rune_label_chars(5)) == 7115054);
    assert(label_key(rune_label_chars(6)) == 7115055);
    assert(label_key(rune_label_chars(7)) == 7115056);
    assert(label_key(rune_label_chars(8)) == 7115057);
    assert(label_key(rune_label_chars(9)) == 7116048);
    assert(label_key(rune_label_chars(10)) == 7116049);
    assert(label_key(rune_label_chars(11)) == 7116050);
    assert(label_key(rune_label_chars(12)) == 7116051);
    assert(label_key(rune_label_chars(13)) == 7812000);
    assert(label_key(rune_label_chars(14)) == 7215049);
    assert(label_key(rune_label_chars(15)) == 7215050);
    assert(label_key(rune_label_chars(16)) == 7215051);
    assert(label_key(rune_label_chars(17)) == 7215052);
    assert(label_key(rune_label_chars(18)) == 7215053);
    assert(label_key(rune_label_chars(19)) == 7611000);
}

/// The one-character string for the digit `d`.
fn digit_str(d: u32) -> (r: &'static str)
    requires
        d < 10,
    ensures
        r@ == seq![digit_char(d as int)],
{
    let r: &'static str = match d {
        0 => "0",
        1 => "1",
        2 => "2",
        3 => "3",
        4 => "4",
        5 => "5",
        6 => "6",
        7 => "7",
        8 => "8",
        _ => "9",
    };
    proof {
        reveal_strlit("0");
        reveal_strlit("1");
        reveal_strlit("2");
        reveal_strlit("3");
        reveal_strlit("4");
        reveal_strlit("5");
        reveal_strlit("6");
        reveal_strlit("7");
        reveal_strlit("8");
        reveal_strlit("9");
        assert(r@ =~= seq![digit_char(d as int)]);
    }
    r
}

/// Appends the decimal rendering of `n`.
pub fn push_u32(out: &mut String, n: u32)
    ensures
        final(out)@ == old(out)@ + dec_chars(n as nat),
    decreases n,
{
    if n >= 10 {
        push_u32(out, n / 10);
        out.append(digit_str(n % 10));
        proof {
            assert(out@ =~= old(out)@ + dec_chars(n as nat));
        }
    } else {
        out.append(digit_str(n));
        proof {
            assert(out@ =~= old(out)@ + dec_chars(n as nat));
        }
    }
}

/// Whether the characters of `input` in `[start, end)` read exactly `lab`.
fn str_range_eq(input: &str, start: usize, end: usize, lab: &str) -> (r: bool)
    requires
        start <= end <= input@.len(),
    ensures
        r == (input@.subrange(start as int, end as int) == lab@),
{
    let llen = lab.unicode_len();
    if end - start != llen {
        return false;
    }
    let mut m: usize = 0;
    while m < llen
        invariant
            start <= end <= input@.len(),
            end - start == llen,
            llen == lab@.len(),
            m <= llen,
            forall|k: int| 0 <= k < m ==> input@[start + k] == lab@[k],
        decreases llen - m,
    {
        if input.get_char(start + m) != lab.get_char(m) {
            proof {
                assert(input@.subrange(start as int, end as int)[m as int] != lab@[m as int]);
            }
            return false;
        }
        m = m + 1;
    }
    proof {
        assert(input@.subrange(start as int, end as int) =~= lab@);
    }
    true
}

/// The first `x ` delimiter of `input` within `[start, end)`, as an
/// absolute position.
fn find_delim_range(input: &str, start: usize, end: usize) -> (r: Option<usize>)
    requires
        start <= end <= input@.len(),
    ensures
        match r {
            Some(d) => start <= d && d + 1 < end && find_delim_at(
                input@.subrange(start as int, end as int),
                0,
            ) == Some(d - start),
            None => find_delim_at(input@.subrange(start as int, end as int), 0) is None,
        },
{
    let ghost line = input@.subrange(start as int, end as int);
    let mut d: usize = start;
    while end - d > 1
        invariant
            start <= d <= end <= input@.len(),
            line == input@.subrange(start as int, end as int),
            find_delim_at(line, 0) == find_delim_at(line, d - start),
        decreases end - d,
    {
        if input.get_char(d) == 'x' && input.get_char(d + 1) == ' ' {
            return Some(d);
        }
        d = d + 1;
    }
    None
}

/// The position of the first line break at or after `from`, or the text
/// length when no line break is left.
fn find_newline_pos(input: &str, from: usize) -> (j: usize)
    requires
        from <= input@.len(),
    ensures
        from <= j <= input@.len(),
        match first_newline_at(input@, from as int) {
            Some(jj) => jj == j as int && j < input@.len(),
            None => j == input@.len(),
        },
{
    let n = input.unicode_len();
    let mut j: usize = from;
    while j < n
        invariant
            from <= j <= n,
            n == input@.len(),
            first_newline_at(input@, from as int) == first_newline_at(input@, j as int),
        decreases n - j,
    {
        if input.get_char(j) == '\n' {
            return j;
        }
        j = j + 1;
    }
    j
}

/// Parses one `<count>x <label>` line of `input`, in `[start, end)`,
/// folding the count into `counts` exactly as `parse_line` says.
fn parse_one_line(
    input: &str,
    start: usize,
    end: usize,
    line_no: usize,
    counts: &mut RuneCount,
) -> (r: Option<Error>)
    requires
        start <= end <= input@.len(),
        old(counts).wf(),
    ensures
        final(counts).wf(),
        match r {
            None => parse_line(
                input@.subrange(start as int, end as int),
                old(counts)@,
                line_no as int,
            ) == Ok::<Seq<u32>, Error>(final(counts)@),
            Some(e) => parse_line(
                input@.subrange(start as int, end as int),
                old(counts)@,
                line_no as int,
            ) == Err::<Seq<u32>, Error>(e) && final(counts)@ == old(counts)@,
        },
{
    let ghost line = input@.subrange(start as int, end as int);

    let delim = match find_delim_range(input, start, end) {
        None => {
            return Some(Error::MalformedLine(line_no));
        },
        Some(d) => d,
    };
    let ghost dl = delim - start;
    let ghost digits = line.subrange(0, dl as int);
    let ghost label = line.subrange(dl + 2, line.len() as int);

    if delim == start {
        // an empty count is malformed
        return Some(Error::MalformedLine(line_no));
    }

    let mut val: u64 = 0;
    let mut m: usize = start;
    while m < delim
        invariant
            start <= m <= delim,
            start < delim,
            delim + 1 < end <= input@.len(),
            line == input@.subrange(start as int, end as int),
            digits == line.subrange(0, dl as int),
            dl == delim - start,
            find_delim_at(line, 0) == Some(dl as int),
            counts.wf(),
            counts@ == old(counts)@,
            val <= u32::MAX,
            val as int == digits_val(digits.take(m - start)),
            forall|k: int| 0 <= k < m - start ==> is_digit(#[trigger] digits[k]),
        decreases delim - m,
    {
        let c = input.get_char(m);
        let cu = c as u32;
        if cu < 48 || cu > 57 {
            proof {
                assert(!is_digit(digits[m - start]));
            }
            return Some(Error::MalformedLine(line_no));
        }
        val = val * 10 + ((cu - 48) as u64);
        proof {
            assert(digits.take(m - start + 1).drop_last() =~= digits.take(m - start));
            assert(digits.take(m - start + 1).last() == digits[m - start]);
        }
        if val > u32::MAX as u64 {
            proof {
                assert(val as int == digits_val(digits.take(m - start + 1)));
                lemma_digits_val_prefix_case(digits, m - start + 1);
            }
            return Some(Error::MalformedLine(line_no));
        }
        m = m + 1;
    }
    proof {
        assert(digits.take(dl as int) =~= digits);
        assert(all_digits(digits));
    }
    let count32: u32 = val as u32;

    let lab_start = delim + 2;
    proof {
        assert(label =~= input@.subrange(lab_start as int, end as int));
    }
    let mut k2: usize = 0;
    while k2 < NUM_RUNES
        invariant
            k2 <= NUM_RUNES,
            start <= delim,
            delim + 1 < end <= input@.len(),
            lab_start == delim + 2,
            counts.wf(),
            counts@ == old(counts)@,
            line == input@.subrange(start as int, end as int),
            label == line.subrange(dl + 2, line.len() as int),
            label =~= input@.subrange(lab_start as int, end as int),
            dl == delim - start,
            find_delim_at(line, 0) == Some(dl as int),
            digits == line.subrange(0, dl as int),
            digits.len() == dl > 0,
            all_digits(digits),
            count32 as int == digits_val(digits),
            digits_val(digits) <= u32::MAX,
            find_label_from(label, 0) == find_label_from(label, k2 as int),
        decreases NUM_RUNES - k2,
    {
        if str_range_eq(input, lab_start, end, rune_label(k2)) {
            proof {
                assert(rune_label_chars(k2 as int) == label);
                assert(find_label_from(label, k2 as int) == Some(k2 as int));
            }
            let cur = counts.get(k2);
            if (cur as u64) + (count32 as u64) > u32::MAX as u64 {
                return Some(Error::MalformedLine(line_no));
            }
            counts.set_count(k2, cur + count32);
            proof {
                assert(counts@ == old(counts)@.update(
                    k2 as int,
                    (old(counts)@[k2 as int] + digits_val(digits)) as u32,
                ));
            }
            return None;
        }
        k2 = k2 + 1;
    }
    Some(Error::UnknownLabel(line_no))
}

/// Splits the case for an overflowing count: whether or not the remaining
/// characters are all digits, the line parses to a malformed-line error.
proof fn lemma_digits_val_prefix_case(digits: Seq<char>, m: int)
    requires
        0 <= m <= digits.len(),
    ensures
        all_digits(digits) ==> digits_val(digits) >= digits_val(digits.take(m)),
{
    if all_digits(digits) {
        lemma_digits_val_prefix(digits, m);
    }
}

impl RuneCount {
    /// The quantity vector a persisted text denotes, line by line:
    /// unparsable lines and unknown labels abort the whole load with the
    /// 0-based line number; counts for repeated labels accumulate.
    pub fn from_text(input: &str) -> (r: Result<RuneCount, Error>)
        ensures
            match r {
                Ok(rc) => rc.wf() && parse_text(input@) == Ok::<Seq<u32>, Error>(rc@),
                Err(e) => parse_text(input@) == Err::<Seq<u32>, Error>(e),
            },
    {
        let n = input.unicode_len();
        let mut counts = RuneCount::zero();
        let mut pos: usize = 0;
        let mut line_no: usize = 0;
        while pos < n
            invariant
                n == input@.len(),
                pos <= n,
                line_no <= pos,
                counts.wf(),
                parse_text(input@) == parse_from(input@, pos as int, line_no as int, counts@),
            decreases n - pos,
        {
            let j = find_newline_pos(input, pos);
            let newline_found = j < n;
            let body_end = if newline_found && j > pos && input.get_char(j - 1) == '\r' {
                j - 1
            } else {
                j
            };
            match parse_one_line(input, pos, body_end, line_no, &mut counts) {
                Some(e) => {
                    return Err(e);
                },
                None => {
                    if newline_found {
                        pos = j + 1;
                        line_no = line_no + 1;
                    } else {
                        return Ok(counts);
                    }
                },
            }
        }
        Ok(counts)
    }

    /// The persisted text for this quantity vector: one `<count>x <label>`
    /// line per catalogue entry, in catalogue order, zero counts included,
    /// each line terminated by a line break.
    pub fn to_text(&self) -> (r: String)
        requires
            self.wf(),
        ensures
            r@ == render_text(self@),
    {
        let mut out = String::new();
        let mut i: usize = 0;
        while i < NUM_RUNES
            invariant
                self.wf(),
                i <= NUM_RUNES,
                out@ + render_from(self@, i as int) == render_text(self@),
            decreases NUM_RUNES - i,
        {
            let ghost before = out@;
            push_u32(&mut out, self.get(i));
            out.append("x ");
            out.append(rune_label(i));
            out.append("\n");
            proof {
                reveal_strlit("x ");
                reveal_strlit("\n");
                assert("x "@ =~= seq!['x', ' ']);
                assert("\n"@ =~= seq!['\n']);
                assert(out@ =~= before + render_line(i as int, self@[i as int]));
                assert(out@ + render_from(self@, i + 1) =~= before + render_from(
                    self@,
                    i as int,
                ));
            }
            i = i + 1;
        }
        proof {
            assert(out@ =~= render_text(self@));
        }
        out
    }
}

/// When nothing before `j` is a line break and `j` is one, the scan from
/// `pos` finds exactly `j`.
proof fn lemma_first_newline_exact(t: Seq<char>, pos: int, j: int)
    requires
        0 <= pos <= j < t.len(),
        t[j] == '\n',
        forall|k: int| pos <= k < j ==> t[k] != '\n',
    ensures
        first_newline_at(t, pos) == Some(j),
    decreases j - pos,
{
    if pos < j {
        lemma_first_newline_exact(t, pos + 1, j);
    }
}

/// When nothing before `j` is an `x` and `j` starts an `x `, the scan from
/// `from` finds exactly `j`.
proof fn lemma_find_delim_exact(u: Seq<char>, from: int, j: int)
    requires
        0 <= from <= j,
        j + 1 < u.len(),
        u[j] == 'x',
        u[j + 1] == ' ',
        forall|k: int| from <= k < j ==> u[k] != 'x',
    ensures
        find_delim_at(u, from) == Some(j),
    decreases j - from,
{
    if from < j {
        lemma_find_delim_exact(u, from + 1, j);
    }
}

/// The counts `acc` with the entries from `i` on replaced by those of `s`:
/// what parsing the rendered lines from `i` on folds into `acc`.
spec fn merge_counts(acc: Seq<u32>, s: Seq<u32>, i: int) -> Seq<u32> {
    Seq::new(NUM_RUNES as nat, |k: int| if k >= i { s[k] } else { acc[k] })
}

/// Parsing the rendered lines from `i` on, starting from counts that are
/// still zero from `i` on, yields the rendered counts.
proof fn lemma_round_trip_from(
    s: Seq<u32>,
    i: int,
    acc: Seq<u32>,
    t: Seq<char>,
    pos: int,
    line_no: int,
)
    requires
        s.len() == NUM_RUNES,
        acc.len() == NUM_RUNES,
        0 <= i <= NUM_RUNES,
        forall|k: int| i <= k < NUM_RUNES ==> acc[k] == 0,
        0 <= pos <= t.len(),
        t.subrange(pos, t.len() as int) == render_from(s, i),
    ensures
        parse_from(t, pos, line_no, acc) == Ok::<Seq<u32>, Error>(merge_counts(acc, s, i)),
    decreases NUM_RUNES - i,
{
    if i >= NUM_RUNES {
        assert(t.len() - pos == render_from(s, i).len());
        assert(merge_counts(acc, s, i) =~= acc);
    } else {
        let d = dec_chars(s[i] as nat);
        let lab = rune_label_chars(i);
        let dlen = d.len() as int;
        let lablen = lab.len() as int;
        let body = d + seq!['x', ' '] + lab;
        let blen = dlen + 2 + lablen;
        let rest = render_from(s, i + 1);
        lemma_dec_chars_digits(s[i] as nat);
        lemma_digits_val_dec_chars(s[i] as nat);
        lemma_label_facts(i);
        lemma_find_label_of(i);
        assert(render_from(s, i) == render_line(i, s[i]) + rest);
        assert(render_line(i, s[i]).len() == blen + 1);
        assert(body.len() == blen);
        assert(t.len() - pos == render_from(s, i).len());
        assert forall|m: int|
            0 <= m < render_from(s, i).len() implies t[pos + m] == #[trigger] render_from(
            s,
            i,
        )[m] by {
            assert(t.subrange(pos, t.len() as int)[m] == t[pos + m]);
        }
        assert(forall|m: int| 0 <= m < blen ==> #[trigger] render_from(s, i)[m] == body[m]);
        assert(render_from(s, i)[blen] == '\n');
        assert(forall|m: int| 0 <= m < dlen ==> #[trigger] body[m] == d[m]);
        assert(body[dlen] == 'x');
        assert(body[dlen + 1] == ' ');
        assert(forall|m: int| 0 <= m < lablen ==> #[trigger] body[dlen + 2 + m] == lab[m]);

        // the first line break sits right after the line body
        let j = pos + blen;
        assert forall|k: int| pos <= k < j implies t[k] != '\n' by {
            let m = k - pos;
            assert(t[pos + m] == render_from(s, i)[m]);
            assert(render_from(s, i)[m] == body[m]);
            if m < dlen {
                assert(body[m] == d[m]);
                assert(is_digit(d[m]));
            } else if m >= dlen + 2 {
                assert(body[m] == lab[m - (dlen + 2)]);
                assert(lab[m - (dlen + 2)] != '\n');
            }
        }
        assert(t[pos + blen] == render_from(s, i)[blen]);
        assert(t[j] == '\n');
        lemma_first_newline_exact(t, pos, j);

        // no carriage return ends the line body
        assert(t[pos + (blen - 1)] == render_from(s, i)[blen - 1]);
        assert(render_from(s, i)[blen - 1] == body[blen - 1]);
        assert(body[dlen + 2 + (lablen - 1)] == lab[lablen - 1]);
        assert(t[j - 1] == lab[lablen - 1]);
        assert(lab[lablen - 1] != '\r');
        assert(t[j - 1] != '\r');

        // the parsed line is the rendered body
        let line = t.subrange(pos, j);
        assert(line =~= body);

        // the delimiter is found right after the digits
        assert(forall|k: int| 0 <= k < dlen ==> #[trigger] body[k] != 'x');
        lemma_find_delim_exact(body, 0, dlen);

        // the digits and the label are recovered exactly
        assert(body.subrange(0, dlen) =~= d);
        assert(body.subrange(dlen + 2, body.len() as int) =~= lab);
        assert(digits_val(d) == s[i]);
        assert(acc[i] == 0);
        let acc2 = acc.update(i, s[i]);
        assert(acc2 =~= acc.update(i, (acc[i] + digits_val(d)) as u32));
        assert(parse_line(line, acc, line_no) == Ok::<Seq<u32>, Error>(acc2));

        // the rest of the text is the rendering from the next index on
        assert forall|m: int| 0 <= m < rest.len() implies t.subrange(j + 1, t.len() as int)[m]
            == rest[m] by {
            assert(t.subrange(j + 1, t.len() as int)[m] == t[pos + (blen + 1 + m)]);
            assert(t[pos + (blen + 1 + m)] == render_from(s, i)[blen + 1 + m]);
            assert(render_from(s, i)[blen + 1 + m] == rest[m]);
        }
        assert(t.subrange(j + 1, t.len() as int) =~= rest);
        lemma_round_trip_from(s, i + 1, acc2, t, j + 1, line_no + 1);
        assert(merge_counts(acc2, s, i + 1) =~= merge_counts(acc, s, i));
    }
}

/// Round-trip fidelity: parsing the rendered text of any quantity vector
/// gives exactly that vector back.
pub proof fn lemma_codec_round_trip(s: Seq<u32>)
    requires
        s.len() == NUM_RUNES,
    ensures
        parse_text(render_text(s)) == Ok::<Seq<u32>, Error>(s),
{
    let t = render_text(s);
    assert(t.subrange(0, t.len() as int) =~= t);
    lemma_round_trip_from(s, 0, zero_counts(), t, 0, 0);
    assert(merge_counts(zero_counts(), s, 0) =~= s);
}

/// One human-readable list entry: `- <count>x <label>`, with the amount
/// given in parentheses when extras are wanted.
pub open spec fn format_entry(i: int, c: u32, extras: bool) -> Seq<char> {
    let base = seq!['-', ' '] + dec_chars(c as nat) + seq!['x', ' '] + rune_label_chars(i);
    if extras {
        base + " (giving "@ + dec_chars((c * rune_values()[i]) as nat) + seq![')']
    } else {
        base
    }
}

/// The list entries for the non-zero counts from index `i` down, biggest
/// first, separated by line breaks; `first` says whether no entry has been
/// written yet.
pub open spec fn format_list_down(s: Seq<u32>, i: int, extras: bool, first: bool) -> Seq<char>
    decreases i + 1 when i >= -1
{
    if i < 0 {
        Seq::empty()
    } else if s[i] == 0 {
        format_list_down(s, i - 1, extras, first)
    } else {
        (if first {
            Seq::<char>::empty()
        } else {
            seq!['\n']
        }) + format_entry(i, s[i], extras) + format_list_down(s, i - 1, extras, false)
    }
}

/// The whole human-readable list: non-zero entries, biggest first, one
/// per line, without a trailing line break.
pub open spec fn format_list(s: Seq<u32>, extras: bool) -> Seq<char> {
    format_list_down(s, NUM_RUNES - 1, extras, true)
}

impl RuneCount {
    /// The human-readable listing of the counted items, biggest first,
    /// omitting zero counts; with `extras`, each line also tells the
    /// amount that many items give.
    #[verifier::rlimit(100)]
    pub fn format_as_list(&self, extras: bool) -> (r: String)
        requires
            self.wf(),
            extras ==> forall|i: int|
                0 <= i < NUM_RUNES ==> (#[trigger] self@[i]) * rune_values()[i] <= u32::MAX,
        ensures
            r@ == format_list(self@, extras),
    {
        let mut out = String::new();
        let mut first = true;
        let mut i: usize = NUM_RUNES;
        while i > 0
            invariant
                self.wf(),
                i <= NUM_RUNES,
                extras ==> forall|k: int|
                    0 <= k < NUM_RUNES ==> (#[trigger] self@[k]) * rune_values()[k] <= u32::MAX,
                out@ + format_list_down(self@, i - 1, extras, first) == format_list(self@, extras),
            decreases i,
        {
            i = i - 1;
            let c = self.get(i);
            if c > 0 {
                let ghost before = out@;
                let ghost was_first = first;
                if !first {
                    out.append("\n");
                }
                out.append("- ");
                push_u32(&mut out, c);
                out.append("x ");
                out.append(rune_label(i));
                if extras {
                    proof {
                        lemma_values_positive();
                        assert((c as int) * (rune_values()[i as int]) >= 0) by (nonlinear_arith)
                            requires
                                c >= 0,
                                rune_values()[i as int] > 0,
                        ;
                    }
                    let amount = c * rune_value(i);
                    out.append(" (giving ");
                    push_u32(&mut out, amount);
                    out.append(")");
                }
                first = false;
                proof {
                    reveal_strlit("\n");
                    reveal_strlit("- ");
                    reveal_strlit("x ");
                    reveal_strlit(" (giving ");
                    reveal_strlit(")");
                    assert("\n"@ =~= seq!['\n']);
                    assert("- "@ =~= seq!['-', ' ']);
                    assert("x "@ =~= seq!['x', ' ']);
                    assert(")"@ =~= seq![')']);
                    assert(out@ =~= before + (if was_first {
                        Seq::<char>::empty()
                    } else {
                        seq!['\n']
                    }) + format_entry(i as int, self@[i as int], extras));
                    assert(out@ + format_list_down(self@, i - 1, extras, false) =~= before
                        + format_list_down(self@, i as int, extras, was_first));
                }
            }
        }
        out
    }
}

} // verus!
