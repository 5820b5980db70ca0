//! The terms of the volume and the surface of the n-dimensional sphere.
//!
//! Cut along its coordinate hyperplanes, a sphere of radius `r` in `n`
//! dimensions falls into `2^n` equal pieces, each of volume
//! `λ^⌊n/2⌋ · r^n / n!!` with `λ = π / 2`. The surface is the derivative of
//! the volume by the radius: one power of `r` less, and `(n - 2)!!` in place
//! of `n!!`.

use crate::factorial::{
    double_fact, double_factorial, factorial, lemma_double_factorial_even,
    lemma_double_factorial_positive, lemma_double_factorial_product, lemma_factorial_positive,
    DOUBLE_FACT_LIMIT,
};
use vstd::arithmetic::power2::{lemma2_to64, lemma_pow2_adds, lemma_pow2_unfold, pow2};
use vstd::prelude::*;

verus! {

/// A measure of a sphere of radius `r`: either zero, or the product
/// `2^two · λ^lambda · r^radius / divisor`, where `λ = π / 2`.
pub enum Measure {
    Zero,
    Product { two: nat, lambda: nat, radius: nat, divisor: nat },
}

impl Measure {
    /// Whether this measure is `(num / den) · π^pi · r^radius`.
    ///
    /// The rational factor of a product is `2^two / (2^lambda · divisor)`;
    /// the two fractions are compared by cross multiplication. Zero is the
    /// closed form with the numerator zero, whatever the exponents.
    pub open spec fn is_closed_form(self, num: nat, den: nat, pi: nat, radius: nat) -> bool {
        match self {
            Measure::Zero => den > 0 && num == 0,
            Measure::Product { two, lambda, radius: power, divisor } => {
                &&& den > 0
                &&& divisor > 0
                &&& lambda == pi
                &&& power == radius
                &&& pow2(two) * den == num * (pow2(lambda) * divisor)
            },
        }
    }
}

/// The volume of the sphere in `n` dimensions.
pub open spec fn volume_measure(n: nat) -> Measure {
    Measure::Product { two: n, lambda: n / 2, radius: n, divisor: double_factorial(n) }
}

/// The surface of the sphere in `n` dimensions.
///
/// A point has no surface. The surface of a segment is the count of its two
/// end points, where the divisor is the empty product. From two dimensions on
/// the divisor is `(n - 2)!!`.
pub open spec fn surface_measure(n: nat) -> Measure {
    if n == 0 {
        Measure::Zero
    } else if n == 1 {
        Measure::Product { two: 1, lambda: 0, radius: 0, divisor: 1 }
    } else {
        Measure::Product {
            two: n,
            lambda: n / 2,
            radius: (n - 1) as nat,
            divisor: double_factorial((n - 2) as nat),
        }
    }
}

/// Why a measure has no terms.
#[derive(Clone, Copy, Debug, PartialEq, Eq, Structural)]
pub enum MeasureError {
    /// The double factorial that the measure divides by does not fit in 64
    /// bits.
    DomainOverflow,
}

/// The terms of a measure in machine integers.
#[derive(Clone, Copy, Debug, PartialEq, Eq, Structural)]
pub enum MeasureTerms {
    /// The measure is zero, whatever the radius.
    Zero,
    /// The measure is `2^two_exp · λ^lambda_exp · r^radius_exp / divisor`,
    /// with the exponents as the floating-point power functions take them.
    Product {
        /// The exponent of two.
        two_exp: i32,
        /// The exponent of `λ = π / 2`.
        lambda_exp: i32,
        /// The exponent of the radius.
        radius_exp: i32,
        /// The double factorial that the product is divided by.
        divisor: u64,
    },
}

impl View for MeasureTerms {
    type V = Measure;

    open spec fn view(&self) -> Measure {
        match *self {
            MeasureTerms::Zero => Measure::Zero,
            MeasureTerms::Product { two_exp, lambda_exp, radius_exp, divisor } => Measure::Product {
                two: two_exp as nat,
                lambda: lambda_exp as nat,
                radius: radius_exp as nat,
                divisor: divisor as nat,
            },
        }
    }
}

impl MeasureTerms {
    /// In a product no exponent is negative, and the divisor is not zero.
    pub open spec fn wf(&self) -> bool {
        match *self {
            MeasureTerms::Zero => true,
            MeasureTerms::Product { two_exp, lambda_exp, radius_exp, divisor } => {
                &&& two_exp >= 0
                &&& lambda_exp >= 0
                &&& radius_exp >= 0
                &&& divisor >= 1
            },
        }
    }
}

/// The terms of the volume of the sphere in `n` dimensions.
///
/// Fails with `DomainOverflow` where `n!!` does not fit in 64 bits, that is
/// for every `n` above `DOUBLE_FACT_LIMIT`.
pub fn sphere_volume_terms(n: u64) -> (terms: Result<MeasureTerms, MeasureError>)
    ensures
        terms is Ok <==> n <= DOUBLE_FACT_LIMIT,
        terms matches Ok(t) ==> t.wf() && t@ == volume_measure(n as nat),
        terms == Err::<MeasureTerms, MeasureError>(MeasureError::DomainOverflow) <==> n
            > DOUBLE_FACT_LIMIT,
{
    if n > DOUBLE_FACT_LIMIT {
        return Err(MeasureError::DomainOverflow);
    }
    let divisor: u64 = double_fact(n);
    proof {
        lemma_double_factorial_positive(n as nat);
    }
    Ok(
        MeasureTerms::Product {
            two_exp: n as i32,
            lambda_exp: (n / 2) as i32,
            radius_exp: n as i32,
            divisor,
        },
    )
}

/// The terms of the surface of the sphere in `n` dimensions.
///
/// The surface is zero in no dimension and a product from one dimension on.
/// Fails with `DomainOverflow` where `(n - 2)!!` does not fit in 64 bits, that
/// is for every `n` above `DOUBLE_FACT_LIMIT + 2`.
pub fn sphere_surface_terms(n: u64) -> (terms: Result<MeasureTerms, MeasureError>)
    ensures
        terms is Ok <==> n <= DOUBLE_FACT_LIMIT + 2,
        terms matches Ok(t) ==> t.wf() && t@ == surface_measure(n as nat),
        terms == Err::<MeasureTerms, MeasureError>(MeasureError::DomainOverflow) <==> n
            > DOUBLE_FACT_LIMIT + 2,
{
    if n == 0 {
        return Ok(MeasureTerms::Zero);
    }
    if n > DOUBLE_FACT_LIMIT + 2 {
        return Err(MeasureError::DomainOverflow);
    }
    let divisor: u64 = if n >= 2 {
        double_fact(n - 2)
    } else {
        1
    };
    proof {
        if n >= 2 {
            lemma_double_factorial_positive((n - 2) as nat);
        }
    }
    Ok(
        MeasureTerms::Product {
            two_exp: n as i32,
            lambda_exp: (n / 2) as i32,
            radius_exp: (n - 1) as i32,
            divisor,
        },
    )
}

/// In an even dimension `2k` the volume is `π^k · r^(2k) / k!`.
pub proof fn lemma_volume_even_dimension(k: nat)
    ensures
        volume_measure(2 * k).is_closed_form(1, factorial(k), k, 2 * k),
{
    let half: nat = pow2(k);
    let rest: nat = factorial(k);
    lemma_factorial_positive(k);
    lemma_double_factorial_positive(2 * k);
    lemma_double_factorial_even(k);
    lemma_pow2_adds(k, k);
    assert((2 * k) / 2 == k);
    assert((half * half) * rest == 1 * (half * (half * rest))) by (nonlinear_arith);
}

/// In an odd dimension `2m - 1` the volume is
/// `(4^m · m! / (2m)!) · π^(m - 1) · r^(2m - 1)`.
pub proof fn lemma_volume_odd_dimension(m: nat)
    requires
        m >= 1,
    ensures
        volume_measure((2 * m - 1) as nat).is_closed_form(
            pow2(2 * m) * factorial(m),
            factorial(2 * m),
            (m - 1) as nat,
            (2 * m - 1) as nat,
        ),
{
    let n: nat = (2 * m - 1) as nat;
    let twos: nat = pow2(n);
    let half: nat = pow2((m - 1) as nat);
    let rest: nat = factorial(m);
    let odd: nat = double_factorial(n);
    lemma_factorial_positive(2 * m);
    lemma_double_factorial_positive(n);
    lemma_double_factorial_product(2 * m);
    lemma_double_factorial_even(m);
    lemma_pow2_unfold(2 * m);
    lemma_pow2_unfold(m);
    assert(n / 2 == m - 1);
    assert(factorial(2 * m) == ((2 * half) * rest) * odd);
    assert(twos * (((2 * half) * rest) * odd) == ((2 * twos) * rest) * (half * odd))
        by (nonlinear_arith);
}

/// The surface is the volume's derivative by the radius: the surface times
/// `r` is the volume times `n`. In no dimension that makes the surface zero.
/// From one dimension on the surface has the powers of two and of `λ` of the
/// volume, one power of the radius less, and a divisor that is `n` times
/// smaller.
pub proof fn lemma_surface_from_volume(n: nat)
    ensures
        n == 0 ==> surface_measure(n) is Zero,
        n >= 1 ==> surface_measure(n) is Product,
        n >= 1 ==> surface_measure(n)->two == volume_measure(n)->two,
        n >= 1 ==> surface_measure(n)->lambda == volume_measure(n)->lambda,
        n >= 1 ==> surface_measure(n)->radius + 1 == volume_measure(n)->radius,
        n >= 1 ==> n * surface_measure(n)->divisor == volume_measure(n)->divisor,
{
}

/// Where the volume in `n` dimensions is `(num / den) · π^pi · r^n`, the
/// surface is `(n · num / den) · π^pi · r^(n - 1)` from one dimension on, and
/// zero in no dimension.
pub proof fn lemma_surface_closed_form(n: nat, num: nat, den: nat, pi: nat)
    requires
        volume_measure(n).is_closed_form(num, den, pi, n),
    ensures
        n == 0 ==> surface_measure(n).is_closed_form(0, den, pi, 0),
        n >= 1 ==> surface_measure(n).is_closed_form(n * num, den, pi, (n - 1) as nat),
{
    if n >= 2 {
        let half: nat = pow2(n / 2);
        let below: nat = double_factorial((n - 2) as nat);
        lemma_double_factorial_positive((n - 2) as nat);
        assert(num * (half * (n * below)) == (n * num) * (half * below)) by (nonlinear_arith);
    } else if n == 1 {
        assert(1 * num == num);
    }
}

/// The classical volumes, whatever the radius: a point counts as `1`, the
/// disc has the area `π · r^2`, the ball the volume `(4 / 3) · π · r^3`, and
/// the ball in four dimensions the volume `(1 / 2) · π^2 · r^4`.
pub proof fn lemma_classical_volumes()
    ensures
        volume_measure(0).is_closed_form(1, 1, 0, 0),
        volume_measure(2).is_closed_form(1, 1, 1, 2),
        volume_measure(3).is_closed_form(4, 3, 1, 3),
        volume_measure(4).is_closed_form(1, 2, 2, 4),
{
    lemma2_to64();
    assert(double_factorial(2) == 2 * double_factorial(0));
    assert(double_factorial(3) == 3 * double_factorial(1));
    assert(double_factorial(4) == 4 * double_factorial(2));
}

/// The classical surfaces, whatever the radius: a segment ends in `2`
/// points, the circle has the length `2 · π · r`, the sphere the area
/// `4 · π · r^2`, and the sphere in four dimensions the surface
/// `2 · π^2 · r^3`.
pub proof fn lemma_classical_surfaces()
    ensures
        surface_measure(1).is_closed_form(2, 1, 0, 0),
        surface_measure(2).is_closed_form(2, 1, 1, 1),
        surface_measure(3).is_closed_form(4, 1, 1, 2),
        surface_measure(4).is_closed_form(2, 1, 2, 3),
{
    lemma2_to64();
    assert(double_factorial(2) == 2 * double_factorial(0));
}

/// From one dimension on the radius enters the volume with a positive power
/// over a positive divisor, so that the volume vanishes with the radius.
pub proof fn lemma_volume_radius_power(n: nat)
    requires
        n >= 1,
    ensures
        volume_measure(n)->radius >= 1,
        volume_measure(n)->divisor >= 1,
{
    lemma_double_factorial_positive(n);
}

} // verus!
