//! Decimal text: the spec-level meaning of digit runs and their values, and
//! verified helpers shared by the identity codec and the score field parser.

use vstd::prelude::*;

verus! {

/// An ASCII decimal digit.
pub open spec fn is_dec_digit(c: char) -> bool {
    48 <= c as int <= 57
}

/// The numeric value of one ASCII decimal digit.
pub open spec fn dec_digit_val(c: char) -> nat {
    (c as int - 48) as nat
}

/// Every character of `s` is an ASCII decimal digit.
pub open spec fn all_dec_digits(s: Seq<char>) -> bool {
    forall|i: int| 0 <= i < s.len() ==> is_dec_digit(#[trigger] s[i])
}

/// The value of `s` read as a decimal numeral, most significant digit first.
/// Characters that are not digits contribute their (meaningless) offset from
/// `'0'`; callers constrain `s` to digits.
pub open spec fn dec_value(s: Seq<char>) -> nat
    decreases s.len(),
{
    if s.len() == 0 {
        0
    } else {
        10 * dec_value(s.drop_last()) + dec_digit_val(s.last())
    }
}

/// The length of the maximal leading run of decimal digits in `s`.
pub open spec fn digit_run_len(s: Seq<char>) -> nat
    decreases s.len(),
{
    if s.len() == 0 || !is_dec_digit(s[0]) {
        0
    } else {
        1 + digit_run_len(s.drop_first())
    }
}

/// The maximal leading run of decimal digits of `s`.
pub open spec fn digit_prefix(s: Seq<char>) -> Seq<char> {
    s.take(digit_run_len(s) as int)
}

/// `digit_run_len` is what a left-to-right scan finds: if the first `n`
/// characters are digits and the next one (if any) is not, the run is `n`.
pub proof fn lemma_digit_run_len_is(s: Seq<char>, n: int)
    requires
        0 <= n <= s.len(),
        forall|j: int| 0 <= j < n ==> is_dec_digit(#[trigger] s[j]),
        n < s.len() ==> !is_dec_digit(s[n]),
    ensures
        digit_run_len(s) == n,
    decreases s.len(),
{
    if n == 0 {
    } else {
        assert(is_dec_digit(s[0]));
        lemma_digit_run_len_is(s.drop_first(), n - 1);
    }
}

/// Extending a numeral by one digit multiplies its value by ten and adds
/// the digit.
pub proof fn lemma_dec_value_step(s: Seq<char>, i: int)
    requires
        0 <= i < s.len(),
    ensures
        dec_value(s.take(i + 1)) == 10 * dec_value(s.take(i)) + dec_digit_val(s[i]),
{
    assert(s.take(i + 1).drop_last() =~= s.take(i));
    assert(s.take(i + 1).last() == s[i]);
}

/// A numeral's value never shrinks as the numeral grows to the right.
pub proof fn lemma_dec_value_prefix_le(s: Seq<char>, i: int, j: int)
    requires
        0 <= i <= j <= s.len(),
    ensures
        dec_value(s.take(i)) <= dec_value(s.take(j)),
    decreases j - i,
{
    if i < j {
        lemma_dec_value_prefix_le(s, i, j - 1);
        lemma_dec_value_step(s, j - 1);
    }
}

/// Character-by-character string equality, with its spec meaning.
pub fn str_eq_chars(a: &str, b: &str) -> (r: bool)
    ensures
        r <==> a@ == b@,
{
    let alen = a.unicode_len();
    let blen = b.unicode_len();
    if alen != blen {
        return false;
    }
    let mut i: usize = 0;
    while i < alen
        invariant
            alen == a@.len(),
            blen == b@.len(),
            alen == blen,
            0 <= i <= alen,
            forall|j: int| 0 <= j < i ==> a@[j] == b@[j],
        decreases alen - i,
    {
        if a.get_char(i) != b.get_char(i) {
            return false;
        }
        i += 1;
    }
    proof {
        assert(a@ =~= b@);
    }
    true
}

/// The length of the maximal leading digit run of `s`, found by scanning.
pub fn scan_digit_run(s: &str) -> (k: usize)
    ensures
        k == digit_run_len(s@),
        k <= s@.len(),
        forall|j: int| 0 <= j < k ==> is_dec_digit(#[trigger] s@[j]),
        k < s@.len() ==> !is_dec_digit(s@[k as int]),
{
    let n = s.unicode_len();
    let mut k: usize = 0;
    loop
        invariant
            n == s@.len(),
            0 <= k <= n,
            forall|j: int| 0 <= j < k ==> is_dec_digit(#[trigger] s@[j]),
        ensures
            0 <= k <= n,
            forall|j: int| 0 <= j < k ==> is_dec_digit(#[trigger] s@[j]),
            k < n ==> !is_dec_digit(s@[k as int]),
        decreases n - k,
    {
        if k >= n {
            break;
        }
        let c = s.get_char(k);
        let u = c as u32;
        if u < 48 || u > 57 {
            break;
        }
        k += 1;
    }
    proof {
        lemma_digit_run_len_is(s@, k as int);
    }
    k
}

/// The value of the digit run `s@[0 .. k]`, unless it exceeds `max`.
pub fn dec_prefix_value(s: &str, k: usize, max: u64) -> (r: Option<u64>)
    requires
        k <= s@.len(),
        forall|j: int| 0 <= j < k ==> is_dec_digit(#[trigger] s@[j]),
        max >= 9,
    ensures
        match r {
            Some(v) => v == dec_value(s@.take(k as int)) && v <= max,
            None => dec_value(s@.take(k as int)) > max,
        },
{
    let mut acc: u64 = 0;
    let mut i: usize = 0;
    proof {
        assert(s@.take(0) =~= Seq::<char>::empty());
    }
    while i < k
        invariant
            k <= s@.len(),
            forall|j: int| 0 <= j < k ==> is_dec_digit(#[trigger] s@[j]),
            max >= 9,
            0 <= i <= k,
            acc == dec_value(s@.take(i as int)),
            acc <= max,
        decreases k - i,
    {
        let c = s.get_char(i);
        let d: u64 = (c as u32 - 48) as u64;
        proof {
            assert(is_dec_digit(s@[i as int]));
            assert(d == dec_digit_val(s@[i as int]));
            lemma_dec_value_step(s@, i as int);
        }
        let limit = (max - d) / 10;
        if acc > limit {
            proof {
                assert(10 * acc + d > max) by (nonlinear_arith)
                    requires
                        acc > (max - d) / 10,
                        d <= 9,
                        d <= max,
                        acc >= 0,
                ;
                lemma_dec_value_prefix_le(s@, i + 1, k as int);
            }
            return None;
        }
        proof {
            assert(10 * acc + d <= max) by (nonlinear_arith)
                requires
                    acc <= (max - d) / 10,
                    d <= 9,
                    d <= max,
                    acc >= 0,
            ;
        }
        acc = acc * 10 + d;
        i += 1;
    }
    Some(acc)
}

} // verus!
