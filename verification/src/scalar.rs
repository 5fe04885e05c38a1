use vstd::prelude::*;

verus! {

/// A tensor element.
///
/// The kernels in this crate are written once, for any element type that
/// supplies the handful of operations below. Each executable operation is
/// pinned to a spec-level counterpart (`sp_*`), so every kernel contract can
/// say exactly which combination of element operations produced each output
/// slot, without committing to what the operations themselves compute.
///
/// `sp_lt` is expected to be a strict total order on the values that actually
/// occur; for IEEE elements an implementation should use the total order in
/// which a negative zero sorts below a positive zero. `sp_eq` is the numeric
/// equality used when deciding which input slots attained an extremum; for
/// IEEE elements the two zeros are numerically equal.
pub trait Scalar: Sized + Copy {
    /// The additive identity used to seed accumulation buffers. The default
    /// names an arbitrary value; implementations supply their own.
    open spec fn sp_zero() -> Self {
        vstd::pervasive::arbitrary::<Self>()
    }

    /// The unit gradient seeded into the output slot of `backward`. The
    /// default names an arbitrary value; implementations supply their own.
    open spec fn sp_one() -> Self {
        vstd::pervasive::arbitrary::<Self>()
    }

    /// What `add` returns. Implementations supply their own meaning; the
    /// default keeps the laws below trivially true.
    open spec fn sp_add(a: Self, b: Self) -> Self {
        b
    }

    /// What `mul` returns.
    open spec fn sp_mul(a: Self, b: Self) -> Self {
        a
    }

    /// What `div_n` returns.
    open spec fn sp_div_n(a: Self, n: usize) -> Self {
        a
    }

    /// What `halve` returns.
    open spec fn sp_halve(a: Self) -> Self {
        a
    }

    /// What `exp` returns.
    open spec fn sp_exp(a: Self) -> Self {
        a
    }

    /// What `lt` returns: a strict total order.
    open spec fn sp_lt(a: Self, b: Self) -> bool {
        false
    }

    /// What `eq_num` returns: numeric equality.
    open spec fn sp_eq(a: Self, b: Self) -> bool {
        true
    }

    fn zero() -> (r: Self)
        ensures
            r == Self::sp_zero(),
    ;

    fn one() -> (r: Self)
        ensures
            r == Self::sp_one(),
    ;

    fn add(a: Self, b: Self) -> (r: Self)
        ensures
            r == Self::sp_add(a, b),
    ;

    fn mul(a: Self, b: Self) -> (r: Self)
        ensures
            r == Self::sp_mul(a, b),
    ;

    fn div_n(a: Self, n: usize) -> (r: Self)
        requires
            n >= 1,
        ensures
            r == Self::sp_div_n(a, n),
    ;

    fn halve(a: Self) -> (r: Self)
        ensures
            r == Self::sp_halve(a),
    ;

    fn exp(a: Self) -> (r: Self)
        ensures
            r == Self::sp_exp(a),
    ;

    fn lt(a: Self, b: Self) -> (r: bool)
        ensures
            r == Self::sp_lt(a, b),
    ;

    fn eq_num(a: Self, b: Self) -> (r: bool)
        ensures
            r == Self::sp_eq(a, b),
    ;

    /// One draw from the implementation's standard normal distribution, or
    /// whatever distribution the element type deems standard. Nothing is
    /// promised of the result: it depends on the generator's state.
    fn standard_normal(rng: &mut rand::rngs::StdRng) -> Self;

}

/// Whether the element's zero is an additive identity on the unit gradient:
/// adding the unit into a zeroed slot yields the unit. IEEE addition
/// satisfies this, and the laws proved of `backward` assume it.
pub open spec fn zero_add_one_is_one<E: Scalar>() -> bool {
    E::sp_add(E::sp_zero(), E::sp_one()) == E::sp_one()
}

/// Relies on rand's `Rng::gen` for `u64`: one draw from the generator, about
/// which nothing is promised.
#[verifier::external_body]
fn rand_u64(rng: &mut rand::rngs::StdRng) -> u64 {
    rand::Rng::gen(rng)
}

/// The resident exact element type: arithmetic is modular, `exp` is the
/// identity, and the orders are the ordinary ones. It exists so that the
/// kernels and their proofs are exercised against a fully verified element;
/// callers bring their own inexact element types.
impl Scalar for u64 {
    open spec fn sp_zero() -> u64 {
        0u64
    }

    open spec fn sp_one() -> u64 {
        1u64
    }

    open spec fn sp_add(a: u64, b: u64) -> u64 {
        vstd::wrapping::u64_specs::wrapping_add(a, b)
    }

    open spec fn sp_mul(a: u64, b: u64) -> u64 {
        vstd::wrapping::u64_specs::wrapping_mul(a, b)
    }

    open spec fn sp_div_n(a: u64, n: usize) -> u64 {
        ((a as int) / (n as int)) as u64
    }

    open spec fn sp_halve(a: u64) -> u64 {
        ((a as int) / 2) as u64
    }

    open spec fn sp_exp(a: u64) -> u64 {
        a
    }

    open spec fn sp_lt(a: u64, b: u64) -> bool {
        a < b
    }

    open spec fn sp_eq(a: u64, b: u64) -> bool {
        a == b
    }

    fn zero() -> u64 {
        0u64
    }

    fn one() -> u64 {
        1u64
    }

    fn add(a: u64, b: u64) -> u64 {
        a.wrapping_add(b)
    }

    fn mul(a: u64, b: u64) -> u64 {
        a.wrapping_mul(b)
    }

    fn div_n(a: u64, n: usize) -> u64 {
        a / (n as u64)
    }

    fn halve(a: u64) -> u64 {
        a / 2
    }

    fn exp(a: u64) -> u64 {
        a
    }

    fn lt(a: u64, b: u64) -> bool {
        a < b
    }

    fn eq_num(a: u64, b: u64) -> bool {
        a == b
    }

    fn standard_normal(rng: &mut rand::rngs::StdRng) -> u64 {
        rand_u64(rng)
    }
}

/// The resident element's zero is a true additive identity.
pub proof fn lemma_u64_zero_add_one_is_one()
    ensures
        zero_add_one_is_one::<u64>(),
{
}

} // verus!
