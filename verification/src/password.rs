//! Digit-based password validation: a candidate is accepted when it has
//! exactly six decimal digits, its digits never decrease from the most to
//! the least significant one, and some digit occurs exactly twice.

use vstd::prelude::*;

verus! {

/// Number of decimal digits of `n` (zero has one digit).
pub open spec fn digit_count(n: nat) -> nat
    decreases n,
{
    if n < 10 {
        1
    } else {
        1 + digit_count(n / 10)
    }
}

/// The digits of `n` never decrease when read from the most significant
/// to the least significant position.
pub open spec fn nondecreasing(n: nat) -> bool
    decreases n,
{
    if n < 10 {
        true
    } else {
        (n / 10) % 10 <= n % 10 && nondecreasing(n / 10)
    }
}

/// How many times the digit `d` occurs in the decimal expansion of `n`.
pub open spec fn digit_occurrences(n: nat, d: nat) -> nat
    decreases n,
{
    if n < 10 {
        if n == d {
            1
        } else {
            0
        }
    } else {
        (if n % 10 == d {
            1nat
        } else {
            0nat
        }) + digit_occurrences(n / 10, d)
    }
}

/// A number is a valid password when it has six digits, the digits never
/// decrease, and some digit occurs exactly twice (a pair that is not part
/// of a larger group of equal digits).
pub open spec fn is_password(n: nat) -> bool {
    &&& digit_count(n) == 6
    &&& nondecreasing(n)
    &&& exists|d: nat| d < 10 && digit_occurrences(n, d) == 2
}

/// How many numbers in the half-open range `[lo, hi)` are valid passwords.
pub open spec fn num_matching(lo: int, hi: int) -> nat
    decreases hi - lo,
{
    if lo >= hi {
        0
    } else {
        num_matching(lo, hi - 1) + (if hi - 1 >= 0 && is_password((hi - 1) as nat) {
            1nat
        } else {
            0nat
        })
    }
}

spec fn pow10(k: nat) -> nat
    decreases k,
{
    if k == 0 {
        1
    } else {
        10 * pow10((k - 1) as nat)
    }
}

proof fn lemma_digit_count_le(n: nat, k: nat)
    requires
        1 <= k,
        n < pow10(k),
    ensures
        digit_count(n) <= k,
    decreases k,
{
    if n < 10 {
    } else {
        assert(pow10(k) == 10 * pow10((k - 1) as nat));
        assert(n / 10 < pow10((k - 1) as nat)) by {
            vstd::arithmetic::div_mod::lemma_multiply_divide_lt(
                n as int,
                10,
                pow10((k - 1) as nat) as int,
            );
        }
        assert(pow10((k - 1) as nat) >= 1) by {
            lemma_pow10_pos((k - 1) as nat);
        }
        lemma_digit_count_le(n / 10, (k - 1) as nat);
    }
}

proof fn lemma_pow10_pos(k: nat)
    ensures
        pow10(k) >= 1,
    decreases k,
{
    if k > 0 {
        lemma_pow10_pos((k - 1) as nat);
    }
}

proof fn lemma_num_matching_le(lo: int, hi: int)
    requires
        lo <= hi,
    ensures
        num_matching(lo, hi) <= hi - lo,
    decreases hi - lo,
{
    if lo < hi {
        lemma_num_matching_le(lo, hi - 1);
    }
}

/// Decides whether `input` is a valid password.
#[verifier::loop_isolation(false)]
pub fn matches(input: i32) -> (r: bool)
    requires
        0 <= input,
    ensures
        r == is_password(input as nat),
{
    let ghost orig: nat = input as nat;
    proof {
        assert(pow10(10) == 10000000000) by {
            reveal_with_fuel(pow10, 11);
        }
        lemma_digit_count_le(orig, 10);
    }

    let mut counts: Vec<u32> = vec![0, 0, 0, 0, 0, 0, 0, 0, 0, 0];
    let mut cur: i32 = input;
    let mut last: i32 = cur % 10;
    let mut ndigits: u32 = 1;
    let c0 = counts[last as usize];
    counts.set(last as usize, c0 + 1);
    cur = cur / 10;

    while cur != 0
        invariant
            counts.len() == 10,
            0 <= cur,
            0 <= last <= 9,
            1 <= ndigits,
            digit_count(orig) <= 10,
            digit_count(orig) == ndigits + (if cur > 0 {
                digit_count(cur as nat)
            } else {
                0nat
            }),
            forall|d: nat|
                d < 10 ==> digit_occurrences(orig, d) == counts@[d as int] + (if cur > 0 {
                    digit_occurrences(cur as nat, d)
                } else {
                    0nat
                }),
            forall|d: int| 0 <= d < 10 ==> counts@[d] <= ndigits,
            nondecreasing(orig) <==> (cur == 0 || (cur % 10 <= last && nondecreasing(cur as nat))),
        decreases cur,
    {
        let digit = cur % 10;
        let newcur = cur / 10;
        let cd = counts[digit as usize];
        counts.set(digit as usize, cd + 1);
        if digit > last {
            proof {
                assert(!nondecreasing(orig));
            }
            return false;
        }
        last = digit;
        ndigits = ndigits + 1;
        cur = newcur;
    }

    if ndigits != 6 {
        return false;
    }

    let mut d: usize = 0;
    while d < 10
        invariant
            counts.len() == 10,
            d <= 10,
            forall|e: nat| e < 10 ==> digit_occurrences(orig, e) == counts@[e as int],
            digit_count(orig) == 6,
            nondecreasing(orig),
            forall|e: int| 0 <= e < d ==> counts@[e] != 2,
        decreases 10 - d,
    {
        if counts[d] == 2 {
            proof {
                assert(digit_occurrences(orig, d as nat) == 2);
            }
            return true;
        }
        d = d + 1;
    }
    proof {
        assert forall|e: nat| e < 10 implies digit_occurrences(orig, e) != 2 by {
            assert(counts@[e as int] != 2);
        }
    }
    false
}

/// Counts the valid passwords in the half-open range `[start, end)`.
#[verifier::loop_isolation(false)]
pub fn count_matching(start: i32, end: i32) -> (count: u32)
    requires
        0 <= start || end <= start,
    ensures
        count == num_matching(start as int, end as int),
{
    let mut count: u32 = 0;
    let mut i: i32 = start;
    if start >= end {
        return 0;
    }
    while i < end
        invariant
            0 <= start <= i <= end,
            count == num_matching(start as int, i as int),
        decreases end - i,
    {
        proof {
            lemma_num_matching_le(start as int, i as int);
        }
        if matches(i) {
            count = count + 1;
        }
        i = i + 1;
    }
    count
}

} // verus!
