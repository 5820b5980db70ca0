//! Factorials and double factorials.

use vstd::arithmetic::power2::{lemma2_to64, lemma_pow2_unfold, pow2};
use vstd::prelude::*;

verus! {

/// The largest argument whose double factorial fits in 64 bits.
pub const DOUBLE_FACT_LIMIT: u64 = 33;

/// The factorial `n!`: the product of the integers from 1 to `n`.
pub open spec fn factorial(n: nat) -> nat
    decreases n,
{
    if n == 0 {
        1
    } else {
        n * factorial((n - 1) as nat)
    }
}

/// The double factorial `n!!`: the product of every second integer from `n`
/// down to 2 for an even `n`, down to 1 for an odd one.
pub open spec fn double_factorial(n: nat) -> nat
    decreases n,
{
    if n < 2 {
        1
    } else {
        n * double_factorial((n - 2) as nat)
    }
}

/// Computes the double factorial `n!!`.
///
/// The argument is at most `DOUBLE_FACT_LIMIT`: beyond it the product leaves
/// 64 bits.
pub fn double_fact(n: u64) -> (product: u64)
    requires
        n <= DOUBLE_FACT_LIMIT,
    ensures
        product == double_factorial(n as nat),
    decreases n,
{
    if n < 2 {
        1
    } else {
        proof {
            lemma_double_factorial_fits(n as nat);
        }
        n * double_fact(n - 2)
    }
}

/// A double factorial is a product of positive integers, so it is positive.
pub proof fn lemma_double_factorial_positive(n: nat)
    ensures
        double_factorial(n) >= 1,
    decreases n,
{
    if n >= 2 {
        let rest: nat = double_factorial((n - 2) as nat);
        lemma_double_factorial_positive((n - 2) as nat);
        assert(n * rest >= 1) by (nonlinear_arith)
            requires
                n >= 2,
                rest >= 1,
        ;
    }
}

/// A factorial is a product of positive integers, so it is positive.
pub proof fn lemma_factorial_positive(n: nat)
    ensures
        factorial(n) >= 1,
    decreases n,
{
    if n >= 1 {
        let rest: nat = factorial((n - 1) as nat);
        lemma_factorial_positive((n - 1) as nat);
        assert(n * rest >= 1) by (nonlinear_arith)
            requires
                n >= 1,
                rest >= 1,
        ;
    }
}

/// The double factorial of an even number takes a factor two out of each of
/// the factors of a factorial: `(2k)!! = 2^k · k!`.
pub proof fn lemma_double_factorial_even(k: nat)
    ensures
        double_factorial(2 * k) == pow2(k) * factorial(k),
    decreases k,
{
    if k == 0 {
        assert(pow2(0) == 1) by {
            lemma2_to64();
        }
    } else {
        let half: nat = pow2((k - 1) as nat);
        let rest: nat = factorial((k - 1) as nat);
        lemma_double_factorial_even((k - 1) as nat);
        lemma_pow2_unfold(k);
        assert(double_factorial(2 * k) == (2 * k) * double_factorial((2 * k - 2) as nat));
        assert(2 * (k - 1) == 2 * k - 2);
        assert((2 * k) * (half * rest) == (2 * half) * (k * rest)) by (nonlinear_arith);
    }
}

/// The two double factorials of neighbouring numbers share out the factors
/// of a factorial between them: `n!! · (n - 1)!! = n!`.
pub proof fn lemma_double_factorial_product(n: nat)
    requires
        n >= 1,
    ensures
        double_factorial(n) * double_factorial((n - 1) as nat) == factorial(n),
    decreases n,
{
    if n >= 2 {
        let below: nat = double_factorial((n - 2) as nat);
        let beside: nat = double_factorial((n - 1) as nat);
        lemma_double_factorial_product((n - 1) as nat);
        assert(beside * below == factorial((n - 1) as nat));
        assert((n * below) * beside == n * (beside * below)) by (nonlinear_arith);
    } else {
        assert(factorial(1) == 1 * factorial(0));
    }
}

/// A larger argument never has a smaller double factorial.
pub proof fn lemma_double_factorial_monotonic(i: nat, j: nat)
    requires
        i <= j,
    ensures
        double_factorial(i) <= double_factorial(j),
    decreases j,
{
    if i < j {
        lemma_double_factorial_step((j - 1) as nat);
        lemma_double_factorial_monotonic(i, (j - 1) as nat);
    }
}

/// The double factorial does not shrink from one argument to the next.
proof fn lemma_double_factorial_step(n: nat)
    ensures
        double_factorial(n) <= double_factorial(n + 1),
    decreases n,
{
    if n >= 2 {
        let below: nat = double_factorial((n - 2) as nat);
        let above: nat = double_factorial((n - 1) as nat);
        lemma_double_factorial_step((n - 2) as nat);
        assert(n * below <= (n + 1) * above) by (nonlinear_arith)
            requires
                below <= above,
        ;
    } else if n == 1 {
        assert(double_factorial(2) == 2 * double_factorial(0));
    }
}

/// The double factorials at the edge of the 64-bit range, reached one factor
/// at a time: first along the odd arguments, then along the even ones.
proof fn lemma_double_factorial_edge()
    ensures
        double_factorial(33) == 6332659870762850625,
        double_factorial(34) == 46620662575398912000,
{
    assert(double_factorial(1) == 1);
    assert(double_factorial(3) == 3);
    assert(double_factorial(5) == 15);
    assert(double_factorial(7) == 105);
    assert(double_factorial(9) == 945);
    assert(double_factorial(11) == 10395);
    assert(double_factorial(13) == 135135);
    assert(double_factorial(15) == 2027025);
    assert(double_factorial(17) == 34459425);
    assert(double_factorial(19) == 654729075);
    assert(double_factorial(21) == 13749310575);
    assert(double_factorial(23) == 316234143225);
    assert(double_factorial(25) == 7905853580625);
    assert(double_factorial(27) == 213458046676875);
    assert(double_factorial(29) == 6190283353629375);
    assert(double_factorial(31) == 191898783962510625);
    assert(double_factorial(33) == 6332659870762850625);
    assert(double_factorial(0) == 1);
    assert(double_factorial(2) == 2);
    assert(double_factorial(4) == 8);
    assert(double_factorial(6) == 48);
    assert(double_factorial(8) == 384);
    assert(double_factorial(10) == 3840);
    assert(double_factorial(12) == 46080);
    assert(double_factorial(14) == 645120);
    assert(double_factorial(16) == 10321920);
    assert(double_factorial(18) == 185794560);
    assert(double_factorial(20) == 3715891200);
    assert(double_factorial(22) == 81749606400);
    assert(double_factorial(24) == 1961990553600);
    assert(double_factorial(26) == 51011754393600);
    assert(double_factorial(28) == 1428329123020800);
    assert(double_factorial(30) == 42849873690624000);
    assert(double_factorial(32) == 1371195958099968000);
    assert(double_factorial(34) == 46620662575398912000);
}

/// The double factorial of `n` fits in 64 bits exactly when `n` is at most
/// `DOUBLE_FACT_LIMIT`.
pub proof fn lemma_double_factorial_fits(n: nat)
    ensures
        double_factorial(n) <= u64::MAX <==> n <= DOUBLE_FACT_LIMIT,
{
    lemma_double_factorial_edge();
    if n <= DOUBLE_FACT_LIMIT {
        lemma_double_factorial_monotonic(n, 33);
    } else {
        lemma_double_factorial_monotonic(34, n);
    }
}

} // verus!
