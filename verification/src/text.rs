//! Building error texts: literal pieces and unsigned numbers in decimal, appended to a `String`.
use vstd::prelude::*;

verus! {

/// `std`'s `String::push_str`: `t` is appended to `s`. The documented capacity limit (the
/// string's bytes may not pass `isize::MAX`, four bytes per character at most) is required.
#[verifier::external_body]
pub(crate) fn push_str(s: &mut String, t: &str)
    requires
        4 * (old(s)@.len() + t@.len()) <= isize::MAX,
    ensures
        final(s)@ == old(s)@ + t@,
{
    s.push_str(t)
}

/// `std`'s `String::push`: `c` is appended to `s`, under the same capacity limit.
#[verifier::external_body]
pub(crate) fn push_char(s: &mut String, c: char)
    requires
        4 * (old(s)@.len() + 1) <= isize::MAX,
    ensures
        final(s)@ == old(s)@.push(c),
{
    s.push(c)
}

/// The decimal digit `d` (below ten).
pub open spec fn digit_char(d: nat) -> char {
    (48 + d) as char
}

/// `n` written in decimal, without leading zeros.
pub open spec fn decimal(n: nat) -> Seq<char>
    decreases n,
{
    if n < 10 {
        seq![digit_char(n)]
    } else {
        decimal(n / 10).push(digit_char(n % 10))
    }
}

proof fn lemma_decimal_len(n: nat, k: nat)
    requires
        k >= 1,
        n < pow10(k),
    ensures
        1 <= decimal(n).len() <= k,
    decreases n,
{
    if n >= 10 {
        assert(k >= 2) by {
            if k == 1 {
                assert(pow10(1) == 10 * pow10(0));
            }
        }
        let p = pow10((k - 1) as nat);
        assert(pow10(k) == 10 * p);
        assert(n / 10 < p) by (nonlinear_arith)
            requires
                n < 10 * p,
        ;
        lemma_decimal_len(n / 10, (k - 1) as nat);
    }
}

proof fn lemma_u64_decimal_len(n: u64)
    ensures
        1 <= decimal(n as nat).len() <= 20,
        n >= 10 ==> decimal((n / 10) as nat).len() <= 19,
{
    reveal_with_fuel(pow10, 21);
    assert(pow10(20) == 100_000_000_000_000_000_000nat);
    assert(pow10(19) == 10_000_000_000_000_000_000nat);
    lemma_decimal_len(n as nat, 20);
    lemma_decimal_len((n / 10) as nat, 19);
}

/// Ten to the power `k`.
pub open spec fn pow10(k: nat) -> nat
    decreases k,
{
    if k == 0 {
        1
    } else {
        10 * pow10((k - 1) as nat)
    }
}

/// Append `n` in decimal.
pub fn push_decimal(s: &mut String, n: u64)
    requires
        4 * (old(s)@.len() + 20) <= isize::MAX,
    ensures
        final(s)@ == old(s)@ + decimal(n as nat),
        decimal(n as nat).len() <= 20,
    decreases n,
{
    proof {
        lemma_u64_decimal_len(n);
    }
    if n >= 10 {
        push_decimal(s, n / 10);
    }
    let d = (n % 10) as u8;
    push_char(s, (48u8 + d) as char);
}

} // verus!
