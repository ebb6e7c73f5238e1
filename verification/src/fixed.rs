//! Scaled-integer arithmetic base: every quantity the solver touches is an
//! `i128` counting `1/SCALE`-ths of a unit, and all bounds below keep every
//! intermediate product inside `i128`.
use vstd::prelude::*;

verus! {

/// Number of fixed-point units per whole unit.
pub const SCALE: i128 = 0x10_0000;

/// Largest magnitude accepted for a kernel (Gram matrix) entry.
pub const KERNEL_LIMIT: i128 = 0x8000_0000;

/// Largest per-variable penalty (box ceiling) accepted.
pub const PENALTY_LIMIT: i128 = 0x8000_0000;

/// Largest magnitude accepted for a linear-term entry.
pub const LINEAR_LIMIT: i128 = 0x8000_0000;

/// Largest magnitude of one scaled product `K * alpha / SCALE`.
pub const GRAD_TERM: i128 = 0x400_0000_0000;

/// Most dual variables a problem may hold.
pub const MAX_SAMPLES: usize = 0x1_0000;

/// Most solver iterations a parameter set may request.
pub const MAX_ITERATIONS: usize = 0x1_0000;

/// Gradient magnitude bound right after a from-scratch recomputation:
/// `LINEAR_LIMIT + MAX_SAMPLES * GRAD_TERM` rounded up to a power of two.
pub const GRAD_FRESH: i128 = 0x800_0000_0000_0000;

/// Largest growth of one gradient entry in one pairwise update.
pub const GRAD_STEP: i128 = 0x1000_0000_0000;

/// Gradient magnitude bound valid throughout a solve:
/// `GRAD_FRESH + MAX_ITERATIONS * GRAD_STEP`.
pub const GRAD_LIMIT: i128 = 0x1800_0000_0000_0000;

/// Magnitude of an integer.
pub open spec fn mag(a: int) -> int {
    if a >= 0 {
        a
    } else {
        -a
    }
}

/// Division truncating toward zero, as `/` behaves on `i128`.
pub open spec fn tdiv(a: int, b: int) -> int {
    if a >= 0 {
        a / b
    } else {
        -((-a) / b)
    }
}

/// The smaller of two integers.
pub open spec fn min_int(a: int, b: int) -> int {
    if a <= b {
        a
    } else {
        b
    }
}

/// Sum of a sequence of scaled values.
pub open spec fn sum_of(s: Seq<i128>) -> int
    decreases s.len(),
{
    if s.len() == 0 {
        0
    } else {
        sum_of(s.drop_last()) + s.last()
    }
}

/// A product of magnitudes bounded factor-wise is bounded by the product of
/// the bounds.
pub proof fn lemma_mul_mag(a: int, b: int, ca: int, cb: int)
    by (nonlinear_arith)
    requires
        mag(a) <= ca,
        mag(b) <= cb,
    ensures
        mag(a * b) <= ca * cb,
{
}

/// Truncating division by a positive divisor cannot grow a magnitude, and
/// dividing a bounded magnitude by `b` bounds the quotient by `cap / b`.
pub proof fn lemma_tdiv_mag(a: int, b: int, cap: int)
    by (nonlinear_arith)
    requires
        b > 0,
        mag(a) <= cap,
    ensures
        mag(tdiv(a, b)) <= cap / b,
        mag(tdiv(a, b)) <= cap,
{
}

/// Truncating the quotient of two scaled values bounded by `ca` and `cb`
/// leaves at most `ca * cb / SCALE`.
pub proof fn lemma_scaled_product_mag(a: int, b: int, ca: int, cb: int)
    requires
        mag(a) <= ca,
        mag(b) <= cb,
    ensures
        mag(tdiv(a * b, SCALE as int)) <= (ca * cb) / (SCALE as int),
{
    lemma_mul_mag(a, b, ca, cb);
    lemma_tdiv_mag(a * b, SCALE as int, ca * cb);
}

/// Appending one element adds exactly that element to the sum.
pub proof fn lemma_sum_push(s: Seq<i128>, x: i128)
    ensures
        sum_of(s.push(x)) == sum_of(s) + x,
{
    assert(s.push(x).drop_last() =~= s);
}
} // verus!
