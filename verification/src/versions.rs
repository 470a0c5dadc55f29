//! Game-version parsing and the Java-runtime tier a game version requires.
//!
//! Only versions of the `1.minor.patch` family are classified; a patch segment
//! is truncated at its first non-digit character (pre-release tags), and a
//! segment that is not a plain decimal number below `i32::MAX` counts as zero.
//! Anything outside the family defaults to the newest tier.

use vstd::prelude::*;

use crate::maven::{find_from, find_from_exec, lemma_find_from_char};
use crate::text::{chars_of, is_prefix_of, slice_range, starts_with};

verus! {

pub open spec fn is_ascii_digit_char(c: char) -> bool {
    '0' <= c && c <= '9'
}

pub open spec fn digit_val(c: char) -> int
    recommends
        is_ascii_digit_char(c),
{
    c as int - '0' as int
}

/// The value of a string of decimal digits, most significant first.
pub open spec fn digits_val(s: Seq<char>) -> int
    decreases s.len(),
{
    if s.len() == 0 {
        0
    } else {
        digits_val(s.drop_last()) * 10 + digit_val(s.last())
    }
}

pub open spec fn all_digits(s: Seq<char>) -> bool {
    forall|i: int| 0 <= i < s.len() ==> is_ascii_digit_char(#[trigger] s[i])
}

/// How a version segment reads as a number: a non-empty all-digit segment
/// whose value fits a signed 32-bit integer, and zero in every other case.
pub open spec fn seg_value(s: Seq<char>) -> int {
    if s.len() > 0 && all_digits(s) && digits_val(s) <= 0x7fffffff {
        digits_val(s)
    } else {
        0
    }
}

proof fn lemma_digits_val_nonneg(s: Seq<char>)
    requires
        all_digits(s),
    ensures
        digits_val(s) >= 0,
    decreases s.len(),
{
    if s.len() > 0 {
        assert(all_digits(s.drop_last())) by {
            assert(forall|i: int|
                0 <= i < s.len() - 1 ==> #[trigger] s.drop_last()[i] == s[i]);
        }
        lemma_digits_val_nonneg(s.drop_last());
    }
}

proof fn lemma_digits_val_prefix_mono(s: Seq<char>, i: int, j: int)
    requires
        all_digits(s),
        0 <= i <= j <= s.len(),
    ensures
        digits_val(s.subrange(0, i)) <= digits_val(s.subrange(0, j)),
    decreases j - i,
{
    if i < j {
        lemma_digits_val_prefix_mono(s, i, j - 1);
        let pre = s.subrange(0, j - 1);
        let cur = s.subrange(0, j);
        assert(cur.drop_last() =~= pre);
        assert(all_digits(pre));
        lemma_digits_val_nonneg(pre);
        assert(is_ascii_digit_char(cur.last()));
        assert(digits_val(cur) == digits_val(pre) * 10 + digit_val(cur.last()));
        assert(digits_val(pre) * 10 >= digits_val(pre));
        assert(digit_val(cur.last()) >= 0);
    }
}

/// Reads `s` as `seg_value` does.
pub fn seg_value_exec(s: &Vec<char>) -> (r: u32)
    ensures
        r as int == seg_value(s@),
{
    if s.len() == 0 {
        return 0;
    }
    let mut i: usize = 0;
    while i < s.len()
        invariant
            i <= s@.len(),
            forall|j: int| 0 <= j < i ==> is_ascii_digit_char(#[trigger] s@[j]),
        decreases s@.len() - i,
    {
        let c = s[i];
        if c < '0' || c > '9' {
            assert(!all_digits(s@));
            return 0;
        }
        i += 1;
    }
    assert(all_digits(s@));

    let mut val: u64 = 0;
    let mut over: bool = false;
    let mut k: usize = 0;
    while k < s.len()
        invariant
            k <= s@.len(),
            all_digits(s@),
            !over ==> val == digits_val(s@.subrange(0, k as int)) && val <= 0x7fffffff,
            over ==> digits_val(s@.subrange(0, k as int)) > 0x7fffffff,
        decreases s@.len() - k,
    {
        let c = s[k];
        assert(is_ascii_digit_char(s@[k as int]));
        let d = (c as u32 - 48) as u64;
        proof {
            let pre = s@.subrange(0, k as int);
            let cur = s@.subrange(0, k as int + 1);
            assert(cur.drop_last() =~= pre);
            assert(cur.last() == s@[k as int]);
            if !over {
                assert(digits_val(cur) == val * 10 + d);
            } else {
                lemma_digits_val_nonneg(pre);
                assert(digits_val(cur) == digits_val(pre) * 10 + digit_val(cur.last()));
                assert(digits_val(pre) * 10 > 0x7fffffff) by {
                    assert(digits_val(pre) > 0x7fffffff);
                    assert(digits_val(pre) * 10 >= digits_val(pre)) by {
                        assert(digits_val(pre) * 9 >= 0) by (nonlinear_arith)
                            requires
                                digits_val(pre) >= 0,
                        ;
                    }
                }
            }
        }
        if !over {
            let next = val * 10 + d;
            if next > 0x7fffffff {
                over = true;
            } else {
                val = next;
            }
        }
        k += 1;
    }
    proof {
        assert(s@.subrange(0, s@.len() as int) =~= s@);
    }
    if over {
        0
    } else {
        val as u32
    }
}

/// The index of the first non-digit character at or after `from`, or `s.len()`.
pub open spec fn digits_end(s: Seq<char>, from: int) -> int
    recommends
        0 <= from <= s.len(),
    decreases s.len() - from
        when 0 <= from <= s.len()
{
    if from >= s.len() {
        s.len() as int
    } else if !is_ascii_digit_char(s[from]) {
        from
    } else {
        digits_end(s, from + 1)
    }
}

pub proof fn lemma_digits_end_at(s: Seq<char>, from: int, i: int)
    requires
        0 <= from <= i <= s.len(),
        forall|j: int| from <= j < i ==> is_ascii_digit_char(#[trigger] s[j]),
        i < s.len() ==> !is_ascii_digit_char(s[i]),
    ensures
        digits_end(s, from) == i,
    decreases i - from,
{
    if from < i {
        lemma_digits_end_at(s, from + 1, i);
    }
}

/// Finds the first non-digit index at or after `from`.
pub fn digits_end_exec(s: &Vec<char>, from: usize) -> (r: usize)
    requires
        from <= s@.len(),
    ensures
        r == digits_end(s@, from as int),
        from <= r <= s@.len(),
{
    let mut i: usize = from;
    while i < s.len()
        invariant
            from <= i <= s@.len(),
            forall|j: int| from <= j < i ==> is_ascii_digit_char(#[trigger] s@[j]),
        decreases s@.len() - i,
    {
        let c = s[i];
        if c < '0' || c > '9' {
            proof {
                lemma_digits_end_at(s@, from as int, i as int);
            }
            return i;
        }
        i += 1;
    }
    proof {
        lemma_digits_end_at(s@, from as int, s@.len() as int);
    }
    i
}

/// The numeric value of the leading run of digits of `s`, read as `seg_value`.
pub open spec fn lead_num(s: Seq<char>) -> int {
    seg_value(s.subrange(0, digits_end(s, 0)))
}

pub fn lead_num_exec(s: &Vec<char>) -> (r: u32)
    ensures
        r as int == lead_num(s@),
{
    let e = digits_end_exec(s, 0);
    let pre = slice_range(s, 0, e);
    seg_value_exec(&pre)
}

/// The minor component of a `1.x` game version: the second dot-separated
/// segment, read as `seg_value`.
pub open spec fn minor_of(t: Seq<char>) -> int
    recommends
        2 <= t.len(),
{
    seg_value(t.subrange(2, find_from(t, '.', 2)))
}

/// The patch component: the third dot-separated segment truncated at its
/// first non-digit character, read as `seg_value`; zero when absent.
pub open spec fn patch_of(t: Seq<char>) -> int
    recommends
        2 <= t.len(),
{
    let d2 = find_from(t, '.', 2);
    if d2 < t.len() {
        let seg = t.subrange(d2 + 1, find_from(t, '.', d2 + 1));
        seg_value(seg.subrange(0, digits_end(seg, 0)))
    } else {
        0
    }
}

/// The Java runtime tier a target game version requires: 21, 17 or 8.
/// Anything that does not start with `1.` (unparseable or newer-than-known
/// schemes) defaults to tier 21.
pub open spec fn tier_of(t: Seq<char>) -> int {
    if !is_prefix_of("1."@, t) {
        21
    } else if minor_of(t) >= 21 || (minor_of(t) == 20 && patch_of(t) >= 5) {
        21
    } else if minor_of(t) >= 17 {
        17
    } else {
        8
    }
}

/// Classifies the target game version into its required runtime tier.
pub fn required_tier(target: &str) -> (r: u32)
    ensures
        r as int == tier_of(target@),
        r == 8 || r == 17 || r == 21,
{
    let t = chars_of(target);
    let one_dot = chars_of("1.");
    proof {
        reveal_strlit("1.");
    }
    if !starts_with(&t, &one_dot) {
        return 21;
    }
    let d2 = find_from_exec(&t, '.', 2);
    let minor_seg = slice_range(&t, 2, d2);
    let minor = seg_value_exec(&minor_seg);
    let patch: u32 = if d2 < t.len() {
        let d3 = find_from_exec(&t, '.', d2 + 1);
        let seg = slice_range(&t, d2 + 1, d3);
        let e = digits_end_exec(&seg, 0);
        let pre = slice_range(&seg, 0, e);
        seg_value_exec(&pre)
    } else {
        0
    };
    if minor >= 21 || (minor == 20 && patch >= 5) {
        21
    } else if minor >= 17 {
        17
    } else {
        8
    }
}

/// A detected Java version string satisfies a tier when it starts with one of
/// the tier's marker prefixes.
pub open spec fn version_matches(v: Seq<char>, tier: int) -> bool {
    if tier == 8 {
        is_prefix_of("1.8"@, v) || is_prefix_of("8"@, v)
    } else if tier == 17 {
        is_prefix_of("17"@, v) || is_prefix_of("16"@, v)
    } else {
        is_prefix_of("21"@, v) || is_prefix_of("22"@, v)
    }
}

/// Checks a detected Java version string against a required tier.
pub fn matches_tier(v: &Vec<char>, tier: u32) -> (b: bool)
    requires
        tier == 8 || tier == 17 || tier == 21,
    ensures
        b == version_matches(v@, tier as int),
{
    if tier == 8 {
        let p1 = chars_of("1.8");
        let p2 = chars_of("8");
        starts_with(v, &p1) || starts_with(v, &p2)
    } else if tier == 17 {
        let p1 = chars_of("17");
        let p2 = chars_of("16");
        starts_with(v, &p1) || starts_with(v, &p2)
    } else {
        let p1 = chars_of("21");
        let p2 = chars_of("22");
        starts_with(v, &p1) || starts_with(v, &p2)
    }
}

} // verus!
