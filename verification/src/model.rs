//! Solution extractor and fitted model: the dual coefficients coming out of
//! a solve are filtered into a sparse support-vector set, and the model
//! exposes the decision function `sum_k coef_k * K(sv_k, x) - rho`.
use vstd::prelude::*;

use crate::error::ExitReason;
use crate::fixed::{
    KERNEL_LIMIT, MAX_SAMPLES, PENALTY_LIMIT, SCALE, lemma_scaled_product_mag, mag, tdiv,
};
use crate::solver::RHO_LIMIT;

verus! {

/// Sum of the scaled products `coef_k * kval_k / SCALE` over the first `m`
/// support vectors: the kernel part of the decision function.
pub open spec fn decision_sum(coefs: Seq<i128>, kvals: Seq<i128>, m: int) -> int
    decreases m,
{
    if m <= 0 {
        0
    } else {
        decision_sum(coefs, kvals, m - 1) + tdiv(coefs[m - 1] * kvals[m - 1], SCALE as int)
    }
}

/// A fitted support vector machine: the sparse support-vector set, the
/// bias, and how the solve ended.
pub struct Svm {
    sv_index: Vec<usize>,
    sv_coef: Vec<i128>,
    rho: i128,
    exit_reason: ExitReason,
    iterations: usize,
}

impl Svm {
    /// Sample indices of the support vectors, in increasing order.
    pub closed spec fn indices(&self) -> Seq<usize> {
        self.sv_index@
    }

    /// Effective coefficient of each support vector.
    pub closed spec fn coefs(&self) -> Seq<i128> {
        self.sv_coef@
    }

    /// The bias of the decision function.
    pub closed spec fn bias(&self) -> i128 {
        self.rho
    }

    /// How the solve ended.
    pub closed spec fn reason(&self) -> ExitReason {
        self.exit_reason
    }

    /// How many pairwise updates the solve performed.
    pub closed spec fn updates(&self) -> int {
        self.iterations as int
    }

    /// Whether this model is exactly the sparse extraction of the dense
    /// coefficient vector `dense`: every support vector points at a
    /// non-zero entry it reproduces, and every non-zero entry is pointed
    /// at (index order and non-zeroness come with `wf`).
    pub open spec fn extraction_of(&self, dense: Seq<i128>) -> bool {
        &&& forall|k: int|
            0 <= k < self.indices().len() ==> 0 <= #[trigger] self.indices()[k] < dense.len()
                && self.coefs()[k] == dense[self.indices()[k] as int]
        &&& forall|t: int|
            0 <= t < dense.len() && dense[t] != 0 ==> exists|k: int|
                0 <= k < self.indices().len() && #[trigger] self.indices()[k] == t
    }

    pub open spec fn wf(&self) -> bool {
        &&& self.coefs().len() == self.indices().len()
        &&& self.indices().len() <= MAX_SAMPLES
        &&& forall|k: int|
            0 <= k < self.coefs().len() ==> mag(#[trigger] self.coefs()[k] as int)
                <= PENALTY_LIMIT && self.coefs()[k] != 0
        &&& forall|k1: int, k2: int|
            0 <= k1 < k2 < self.indices().len() ==> #[trigger] self.indices()[k1]
                < #[trigger] self.indices()[k2]
        &&& mag(self.bias() as int) <= RHO_LIMIT
    }

    /// Filter a dense coefficient vector into the sparse support-vector
    /// set: exactly the non-zero entries survive, in index order.
    pub fn from_coefficients(
        coefs: &Vec<i128>,
        rho: i128,
        exit_reason: ExitReason,
        iterations: usize,
    ) -> (m: Svm)
        requires
            coefs@.len() <= MAX_SAMPLES,
            forall|t: int| 0 <= t < coefs@.len() ==> mag(#[trigger] coefs@[t] as int)
                <= PENALTY_LIMIT,
            mag(rho as int) <= RHO_LIMIT,
        ensures
            m.wf(),
            m.bias() == rho,
            m.reason() == exit_reason,
            m.updates() == iterations,
            m.extraction_of(coefs@),
    {
        let n = coefs.len();
        let mut sv_index: Vec<usize> = Vec::new();
        let mut sv_coef: Vec<i128> = Vec::new();
        let mut t: usize = 0;
        while t < n
            invariant
                t <= n,
                n == coefs@.len(),
                n <= MAX_SAMPLES,
                forall|u: int| 0 <= u < n ==> mag(#[trigger] coefs@[u] as int) <= PENALTY_LIMIT,
                sv_coef@.len() == sv_index@.len(),
                sv_index@.len() <= t,
                forall|k: int|
                    0 <= k < sv_index@.len() ==> 0 <= #[trigger] sv_index@[k] < t
                        && sv_coef@[k] == coefs@[sv_index@[k] as int] && sv_coef@[k] != 0,
                forall|k1: int, k2: int|
                    0 <= k1 < k2 < sv_index@.len() ==> #[trigger] sv_index@[k1]
                        < #[trigger] sv_index@[k2],
                forall|u: int|
                    0 <= u < t && coefs@[u] != 0 ==> exists|k: int|
                        0 <= k < sv_index@.len() && #[trigger] sv_index@[k] == u,
            decreases n - t,
        {
            if coefs[t] != 0 {
                let ghost pre = sv_index@;
                sv_index.push(t);
                sv_coef.push(coefs[t]);
                proof {
                    assert(sv_index@ == pre.push(t));
                    assert forall|u: int| 0 <= u <= t && coefs@[u] != 0 implies exists|k: int|
                        0 <= k < sv_index@.len() && #[trigger] sv_index@[k] == u by {
                        if u == t {
                            assert(sv_index@[pre.len() as int] == t);
                        } else {
                            let k0 = choose|k: int|
                                0 <= k < pre.len() && #[trigger] pre[k] == u;
                            assert(sv_index@[k0] == u);
                        }
                    };
                }
            }
            t = t + 1;
        }
        proof {
            assert(sv_coef@.len() == sv_index@.len());
            assert(sv_index@.len() <= MAX_SAMPLES);
            assert forall|k: int| 0 <= k < sv_coef@.len() implies mag(
                #[trigger] sv_coef@[k] as int,
            ) <= PENALTY_LIMIT && sv_coef@[k] != 0 by {
                assert(0 <= sv_index@[k] < n);
                assert(sv_coef@[k] == coefs@[sv_index@[k] as int]);
                assert(mag(coefs@[sv_index@[k] as int] as int) <= PENALTY_LIMIT);
            };
            assert(t == n);
        }
        Svm { sv_index, sv_coef, rho, exit_reason, iterations }
    }

    /// The kernel-weighted decision value for one sample, given the kernel
    /// evaluations `kvals[k] = K(sv_k, x)` against each support vector:
    /// `sum_k coef_k * kvals_k / SCALE - rho`.
    pub fn decision_value(&self, kvals: &Vec<i128>) -> (r: i128)
        requires
            self.wf(),
            kvals@.len() == self.coefs().len(),
            forall|k: int| 0 <= k < kvals@.len() ==> mag(#[trigger] kvals@[k] as int)
                <= KERNEL_LIMIT,
        ensures
            r as int == decision_sum(self.coefs(), kvals@, self.coefs().len() as int)
                - self.bias(),
    {
        let n = self.sv_coef.len();
        let ghost term_cap: int = (PENALTY_LIMIT as int * KERNEL_LIMIT as int) / (SCALE as int);
        let mut acc: i128 = 0;
        let mut k: usize = 0;
        while k < n
            invariant
                k <= n,
                self.wf(),
                n == self.coefs().len(),
                n <= MAX_SAMPLES,
                kvals@.len() == n,
                term_cap == (PENALTY_LIMIT as int * KERNEL_LIMIT as int) / (SCALE as int),
                forall|u: int| 0 <= u < n ==> mag(#[trigger] kvals@[u] as int) <= KERNEL_LIMIT,
                acc as int == decision_sum(self.coefs(), kvals@, k as int),
                mag(acc as int) <= k * term_cap,
            decreases n - k,
        {
            proof {
                lemma_scaled_product_mag(
                    self.sv_coef@[k as int] as int,
                    kvals@[k as int] as int,
                    PENALTY_LIMIT as int,
                    KERNEL_LIMIT as int,
                );
                assert((k + 1) * term_cap == k * term_cap + term_cap) by (nonlinear_arith);
                assert(k * term_cap <= MAX_SAMPLES * term_cap) by (nonlinear_arith)
                    requires
                        0 <= k <= MAX_SAMPLES,
                        term_cap >= 0,
                ;
            }
            acc = acc + (self.sv_coef[k] * kvals[k]) / SCALE;
            k = k + 1;
        }
        proof {
            assert(n * term_cap <= MAX_SAMPLES * term_cap) by (nonlinear_arith)
                requires
                    0 <= n <= MAX_SAMPLES,
                    term_cap >= 0,
            ;
        }
        acc - self.rho
    }

    /// The bias of the decision function.
    pub fn rho(&self) -> (r: i128)
        ensures
            r == self.bias(),
    {
        self.rho
    }

    /// How the solve ended.
    pub fn exit_reason(&self) -> (r: ExitReason)
        ensures
            r == self.reason(),
    {
        self.exit_reason
    }

    /// How many pairwise updates the solve performed.
    pub fn iterations(&self) -> (r: usize)
        ensures
            r == self.updates(),
    {
        self.iterations
    }

    /// Sample indices of the support vectors, in increasing order.
    pub fn support_indices(&self) -> (r: &Vec<usize>)
        ensures
            r@ == self.indices(),
    {
        &self.sv_index
    }

    /// Effective coefficient of each support vector.
    pub fn support_coefficients(&self) -> (r: &Vec<i128>)
        ensures
            r@ == self.coefs(),
    {
        &self.sv_coef
    }
}

} // verus!
