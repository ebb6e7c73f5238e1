//! Sequential minimal optimization over the dual problem: working-set
//! selection by the most-violating pair with a second-order gain estimate,
//! box-clipped two-variable coordinate updates, incremental gradient
//! maintenance, and optional shrinking of the active set.
use vstd::prelude::*;

use crate::fixed::{
    GRAD_FRESH, GRAD_LIMIT, GRAD_STEP, GRAD_TERM, KERNEL_LIMIT, LINEAR_LIMIT, MAX_ITERATIONS,
    MAX_SAMPLES, PENALTY_LIMIT, SCALE, lemma_mul_mag, lemma_scaled_product_mag, lemma_tdiv_mag,
    mag, tdiv,
};
use crate::error::ExitReason;
use crate::kernel::GramKernel;

verus! {

/// Convergence controls for one solve.
#[derive(Clone, Copy, Debug, PartialEq, Eq, Structural)]
pub struct SolverParams {
    /// Stop once the largest feasible violation falls below this (scaled).
    pub tol: i128,
    /// Hard cap on the number of pairwise updates.
    pub max_iter: usize,
    /// Whether bound-pinned variables may be removed from the active set.
    pub shrinking: bool,
}

impl SolverParams {
    pub open spec fn wf(&self) -> bool {
        &&& 0 < self.tol <= GRAD_LIMIT
        &&& self.max_iter <= MAX_ITERATIONS
    }
}

/// The two solver states; the iteration cap is reported separately by
/// `solve` when it stops a still-running solver.
#[derive(Clone, Copy, Debug, PartialEq, Eq, Structural)]
pub enum SolverStatus {
    Running,
    Converged,
}

/// What one solver iteration did: performed the pairwise update on the
/// reported working pair; restored the full index set (or refreshed stale
/// gradients) without updating; or declared convergence.
#[derive(Clone, Copy, Debug)]
pub enum StepOutcome {
    Updated { i: usize, j: usize },
    Restored,
    Converged,
}

/// The signed kernel entry `Q[i][j] = y_i * y_j * K[i][j]`.
pub open spec fn q_val(kernel: &GramKernel, y: Seq<bool>, i: int, j: int) -> int {
    if y[i] == y[j] {
        kernel.entry_at(i, j)
    } else {
        -kernel.entry_at(i, j)
    }
}

/// Sum of the first `m` scaled products `Q[i][j] * alpha[j] / SCALE`: the
/// kernel part of gradient entry `i` as computed from scratch.
pub open spec fn kernel_sum(
    kernel: &GramKernel,
    y: Seq<bool>,
    alpha: Seq<i128>,
    i: int,
    m: int,
) -> int
    decreases m,
{
    if m <= 0 {
        0
    } else {
        kernel_sum(kernel, y, alpha, i, m - 1) + tdiv(
            q_val(kernel, y, i, m - 1) * alpha[m - 1],
            SCALE as int,
        )
    }
}

/// The gradient magnitude bound after `it` pairwise updates.
pub open spec fn grad_cap(it: int) -> int {
    GRAD_FRESH + it * GRAD_STEP
}

/// The cap never exceeds `GRAD_LIMIT` while the update count respects the
/// iteration limit.
pub proof fn lemma_grad_cap_limit(it: int)
    requires
        0 <= it <= MAX_ITERATIONS,
    ensures
        GRAD_FRESH <= grad_cap(it) <= GRAD_LIMIT,
{
    assert(it * GRAD_STEP <= MAX_ITERATIONS * GRAD_STEP) by (nonlinear_arith)
        requires
            0 <= it <= MAX_ITERATIONS,
    ;
    assert(it * GRAD_STEP >= 0) by (nonlinear_arith)
        requires
            it >= 0,
    ;
}

/// The new values of an opposite-sign pair after one coordinate update:
/// both coefficients move by the truncated Newton step along the direction
/// that keeps their difference fixed, then are clipped into their boxes.
pub open spec fn pair_step_opposite(
    g_i: int,
    g_j: int,
    a_i: int,
    a_j: int,
    c_i: int,
    c_j: int,
    quad: int,
) -> (int, int) {
    let quad_pos = if quad > 0 {
        quad
    } else {
        1
    };
    let delta = tdiv((-g_i - g_j) * (SCALE as int), quad_pos);
    let diff = a_i - a_j;
    let n_i = a_i + delta;
    let n_j = a_j + delta;
    let lo = if diff > 0 && n_j < 0 {
        (diff, 0int)
    } else if diff <= 0 && n_i < 0 {
        (0int, -diff)
    } else {
        (n_i, n_j)
    };
    if diff > c_i - c_j {
        if lo.0 > c_i {
            (c_i, c_i - diff)
        } else {
            lo
        }
    } else {
        if lo.1 > c_j {
            (c_j + diff, c_j)
        } else {
            lo
        }
    }
}

/// The new values of a same-sign pair after one coordinate update: the
/// coefficients move in opposite directions by the truncated Newton step,
/// keeping their sum fixed, then are clipped into their boxes.
pub open spec fn pair_step_same(
    g_i: int,
    g_j: int,
    a_i: int,
    a_j: int,
    c_i: int,
    c_j: int,
    quad: int,
) -> (int, int) {
    let quad_pos = if quad > 0 {
        quad
    } else {
        1
    };
    let delta = tdiv((g_i - g_j) * (SCALE as int), quad_pos);
    let sum = a_i + a_j;
    let n_i = a_i - delta;
    let n_j = a_j + delta;
    let lo = if sum > c_i {
        if n_i > c_i {
            (c_i, sum - c_i)
        } else {
            (n_i, n_j)
        }
    } else {
        if n_j < 0 {
            (sum, 0int)
        } else {
            (n_i, n_j)
        }
    };
    if sum > c_j {
        if lo.1 > c_j {
            (sum - c_j, c_j)
        } else {
            lo
        }
    } else {
        if lo.0 < 0 {
            (0int, sum)
        } else {
            lo
        }
    }
}

/// The raw pair curvature `K_ii + K_jj - 2 K_ij`.
pub open spec fn pair_quad(kernel: &GramKernel, i: int, j: int) -> int {
    kernel.entry_at(i, i) + kernel.entry_at(j, j) - 2 * kernel.entry_at(i, j)
}

/// Sentinel standing in for "no candidate seen yet" in the working-set
/// scans; far below any reachable gradient value.
pub const GAP_NONE: i128 = -0x1_0000_0000_0000_0000_0000_0000_0000;

/// Magnitude bound on the bias: the midpoint fallback can average one real
/// gradient against a sentinel, so the bound is half the sentinel range.
pub const RHO_LIMIT: i128 = 0x1_0000_0000_0000_0000_0000_0000_0000;

/// How many pairwise updates pass between two shrinking sweeps.
pub const SHRINK_EVERY: usize = 1000;

/// Partial sum of `alpha_i * (grad_i + p_i) / SCALE` over the first `m`
/// entries; half of the full sum is the dual objective value.
pub open spec fn objective_sum(alpha: Seq<i128>, grad: Seq<i128>, p: Seq<i128>, m: int) -> int
    decreases m,
{
    if m <= 0 {
        0
    } else {
        objective_sum(alpha, grad, p, m - 1) + tdiv(
            alpha[m - 1] * (grad[m - 1] + p[m - 1]),
            SCALE as int,
        )
    }
}

/// Whether index `t` can move in the "up" direction: a positive-half
/// variable below its ceiling, or a negative-half variable above zero.
pub open spec fn up_eligible(y: Seq<bool>, alpha: Seq<i128>, bound: Seq<i128>, t: int) -> bool {
    if y[t] {
        alpha[t] < bound[t]
    } else {
        alpha[t] > 0
    }
}

/// The violation of index `t` in the "up" direction.
pub open spec fn up_violation(y: Seq<bool>, grad: Seq<i128>, t: int) -> int {
    if y[t] {
        -(grad[t] as int)
    } else {
        grad[t] as int
    }
}

/// Whether index `t` can move in the "down" direction.
pub open spec fn down_eligible(y: Seq<bool>, alpha: Seq<i128>, bound: Seq<i128>, t: int) -> bool {
    if y[t] {
        alpha[t] > 0
    } else {
        alpha[t] < bound[t]
    }
}

/// The violation of index `t` in the "down" direction.
pub open spec fn down_violation(y: Seq<bool>, grad: Seq<i128>, t: int) -> int {
    if y[t] {
        grad[t] as int
    } else {
        -(grad[t] as int)
    }
}

/// The largest "up" violation over the active, up-eligible indices among
/// the first `m`; `GAP_NONE` when there is none.  A later index replaces
/// an earlier one only when strictly larger, so ties keep the lowest.
pub open spec fn max_up(
    y: Seq<bool>,
    grad: Seq<i128>,
    alpha: Seq<i128>,
    bound: Seq<i128>,
    active: Seq<bool>,
    m: int,
) -> int
    decreases m,
{
    if m <= 0 {
        GAP_NONE as int
    } else {
        let rest = max_up(y, grad, alpha, bound, active, m - 1);
        if active[m - 1] && up_eligible(y, alpha, bound, m - 1) && up_violation(y, grad, m - 1)
            > rest {
            up_violation(y, grad, m - 1)
        } else {
            rest
        }
    }
}

/// The largest "down" violation over the active, down-eligible indices
/// among the first `m`; `GAP_NONE` when there is none.
pub open spec fn max_down(
    y: Seq<bool>,
    grad: Seq<i128>,
    alpha: Seq<i128>,
    bound: Seq<i128>,
    active: Seq<bool>,
    m: int,
) -> int
    decreases m,
{
    if m <= 0 {
        GAP_NONE as int
    } else {
        let rest = max_down(y, grad, alpha, bound, active, m - 1);
        if active[m - 1] && down_eligible(y, alpha, bound, m - 1) && down_violation(y, grad, m - 1)
            > rest {
            down_violation(y, grad, m - 1)
        } else {
            rest
        }
    }
}

/// The working-set stopping criterion: no pair of active indices can still
/// produce a violation of at least `tol`.
pub open spec fn below_tolerance(
    y: Seq<bool>,
    grad: Seq<i128>,
    alpha: Seq<i128>,
    bound: Seq<i128>,
    active: Seq<bool>,
    m: int,
    tol: int,
) -> bool {
    ||| max_up(y, grad, alpha, bound, active, m) == GAP_NONE
    ||| max_down(y, grad, alpha, bound, active, m) == GAP_NONE
    ||| max_up(y, grad, alpha, bound, active, m) + max_down(y, grad, alpha, bound, active, m) < tol
}

/// A curvature made usable as a divisor: itself when positive, else one.
pub open spec fn quad_or_one(q: int) -> int {
    if q > 0 {
        q
    } else {
        1
    }
}

/// The second-order gain estimate of updating the pair `(i, t)`:
/// the squared violation sum over the (positive part of the) curvature.
pub open spec fn pair_gain(
    kernel: &GramKernel,
    y: Seq<bool>,
    grad: Seq<i128>,
    i: int,
    t: int,
) -> int {
    let gd = up_violation(y, grad, i) + down_violation(y, grad, t);
    tdiv(gd * gd, quad_or_one(pair_quad(kernel, i, t)))
}

/// Whether `t` competes for the second index of the pair once `i` is
/// fixed: active, movable downward, and with a positive violation sum.
pub open spec fn second_candidate(
    y: Seq<bool>,
    grad: Seq<i128>,
    alpha: Seq<i128>,
    bound: Seq<i128>,
    active: Seq<bool>,
    i: int,
    t: int,
) -> bool {
    &&& active[t]
    &&& down_eligible(y, alpha, bound, t)
    &&& up_violation(y, grad, i) + down_violation(y, grad, t) > 0
}

/// The working pair that one solver iteration selects: `i` is the lowest
/// active, up-eligible index attaining the largest up-violation; `j` is
/// the lowest second candidate maximizing the second-order gain; and the
/// pair's best achievable violation reaches the tolerance.
pub open spec fn selected_pair(
    kernel: &GramKernel,
    y: Seq<bool>,
    grad: Seq<i128>,
    alpha: Seq<i128>,
    bound: Seq<i128>,
    active: Seq<bool>,
    tol: int,
    i: int,
    j: int,
) -> bool {
    let n = y.len() as int;
    &&& 0 <= i < n
    &&& 0 <= j < n
    &&& i != j
    &&& active[i]
    &&& up_eligible(y, alpha, bound, i)
    &&& up_violation(y, grad, i) == max_up(y, grad, alpha, bound, active, n)
    &&& forall|t: int|
        0 <= t < i && active[t] && up_eligible(y, alpha, bound, t)
            ==> #[trigger] up_violation(y, grad, t) < up_violation(y, grad, i)
    &&& second_candidate(y, grad, alpha, bound, active, i, j)
    &&& forall|t: int|
        0 <= t < n && second_candidate(y, grad, alpha, bound, active, i, t)
            ==> #[trigger] pair_gain(kernel, y, grad, i, t) <= pair_gain(kernel, y, grad, i, j)
    &&& forall|t: int|
        0 <= t < j && second_candidate(y, grad, alpha, bound, active, i, t)
            ==> #[trigger] pair_gain(kernel, y, grad, i, t) < pair_gain(kernel, y, grad, i, j)
    &&& max_up(y, grad, alpha, bound, active, n) + max_down(y, grad, alpha, bound, active, n)
        >= tol
}

/// The bias rule: the truncated average of `y_t * grad_t` over the free
/// support vectors when any exist, otherwise the midpoint of the
/// bound-vector gradient extremes.
pub open spec fn rho_of(
    y: Seq<bool>,
    grad: Seq<i128>,
    alpha: Seq<i128>,
    bound: Seq<i128>,
    n: int,
) -> int {
    if free_count(alpha, bound, n) > 0 {
        tdiv(free_sum(y, grad, alpha, bound, n), free_count(alpha, bound, n))
    } else {
        tdiv(
            bound_above(y, grad, alpha, bound, n) + bound_below(y, grad, alpha, bound, n),
            2,
        )
    }
}

/// The shrinking criterion: a coefficient pinned at a bound whose
/// gradient, judged against the violation maxima `g1` and `g2`, says it
/// will stay pinned.
pub open spec fn shrink_away(
    y: Seq<bool>,
    grad: Seq<i128>,
    alpha: Seq<i128>,
    bound: Seq<i128>,
    t: int,
    g1: int,
    g2: int,
) -> bool {
    if alpha[t] == bound[t] {
        if y[t] {
            -(grad[t] as int) > g1
        } else {
            -(grad[t] as int) > g2
        }
    } else if alpha[t] == 0 {
        if y[t] {
            grad[t] as int > g2
        } else {
            grad[t] as int > g1
        }
    } else {
        false
    }
}

/// The sign-weighted gradient `y_t * grad_t`.
pub open spec fn y_grad(y: Seq<bool>, grad: Seq<i128>, t: int) -> int {
    if y[t] {
        grad[t] as int
    } else {
        -(grad[t] as int)
    }
}

/// Whether index `t` is strictly inside its box (a free support vector).
pub open spec fn is_free(alpha: Seq<i128>, bound: Seq<i128>, t: int) -> bool {
    0 < alpha[t] < bound[t]
}

/// Whether index `t` caps the bias from above: pinned at its upper bound
/// with a negative sign, or at zero with a positive sign.
pub open spec fn caps_above(y: Seq<bool>, alpha: Seq<i128>, bound: Seq<i128>, t: int) -> bool {
    if alpha[t] == bound[t] {
        !y[t]
    } else {
        alpha[t] == 0 && y[t]
    }
}

/// Number of free support vectors among the first `m` indices.
pub open spec fn free_count(alpha: Seq<i128>, bound: Seq<i128>, m: int) -> int
    decreases m,
{
    if m <= 0 {
        0
    } else {
        free_count(alpha, bound, m - 1) + if is_free(alpha, bound, m - 1) {
            1int
        } else {
            0int
        }
    }
}

/// Sum of `y_t * grad_t` over the free support vectors among the first `m`
/// indices.
pub open spec fn free_sum(y: Seq<bool>, grad: Seq<i128>, alpha: Seq<i128>, bound: Seq<i128>, m: int) -> int
    decreases m,
{
    if m <= 0 {
        0
    } else {
        free_sum(y, grad, alpha, bound, m - 1) + if is_free(alpha, bound, m - 1) {
            y_grad(y, grad, m - 1)
        } else {
            0int
        }
    }
}

/// The smallest `y_t * grad_t` over the bound vectors capping the bias
/// from above among the first `m` indices, starting from `RHO_LIMIT`.
pub open spec fn bound_above(y: Seq<bool>, grad: Seq<i128>, alpha: Seq<i128>, bound: Seq<i128>, m: int) -> int
    decreases m,
{
    if m <= 0 {
        RHO_LIMIT as int
    } else {
        let rest = bound_above(y, grad, alpha, bound, m - 1);
        if !is_free(alpha, bound, m - 1) && caps_above(y, alpha, bound, m - 1) && y_grad(
            y,
            grad,
            m - 1,
        ) < rest {
            y_grad(y, grad, m - 1)
        } else {
            rest
        }
    }
}

/// The largest `y_t * grad_t` over the bound vectors capping the bias
/// from below among the first `m` indices, starting from `-RHO_LIMIT`.
pub open spec fn bound_below(y: Seq<bool>, grad: Seq<i128>, alpha: Seq<i128>, bound: Seq<i128>, m: int) -> int
    decreases m,
{
    if m <= 0 {
        -(RHO_LIMIT as int)
    } else {
        let rest = bound_below(y, grad, alpha, bound, m - 1);
        if !is_free(alpha, bound, m - 1) && !caps_above(y, alpha, bound, m - 1) && y_grad(
            y,
            grad,
            m - 1,
        ) > rest {
            y_grad(y, grad, m - 1)
        } else {
            rest
        }
    }
}

/// A selected working pair together with the two violation maxima that
/// drove the choice.
struct WorkingSet {
    found: bool,
    i: usize,
    j: usize,
    gmax1: i128,
    gmax2: i128,
}

/// Mutable state of one solve: dual coefficients, incrementally maintained
/// gradient, the fixed problem data, and the active set.
pub struct SolverState {
    alpha: Vec<i128>,
    grad: Vec<i128>,
    p: Vec<i128>,
    y: Vec<bool>,
    bound: Vec<i128>,
    active: Vec<bool>,
    kernel: GramKernel,
    params: SolverParams,
    iters: usize,
    status: SolverStatus,
}

impl SolverState {
    pub closed spec fn n(&self) -> nat {
        self.alpha@.len()
    }

    pub closed spec fn alphas(&self) -> Seq<i128> {
        self.alpha@
    }

    pub closed spec fn grads(&self) -> Seq<i128> {
        self.grad@
    }

    pub closed spec fn linear(&self) -> Seq<i128> {
        self.p@
    }

    pub closed spec fn targets(&self) -> Seq<bool> {
        self.y@
    }

    pub closed spec fn bounds(&self) -> Seq<i128> {
        self.bound@
    }

    pub closed spec fn actives(&self) -> Seq<bool> {
        self.active@
    }

    pub closed spec fn gram(&self) -> &GramKernel {
        &self.kernel
    }

    pub closed spec fn config(&self) -> SolverParams {
        self.params
    }

    pub closed spec fn updates_done(&self) -> int {
        self.iters as int
    }

    pub closed spec fn state(&self) -> SolverStatus {
        self.status
    }

    /// The pair of new coefficient values that one coordinate update on
    /// `(i, j)` produces from this state.
    pub open spec fn stepped_pair(&self, i: int, j: int) -> (int, int) {
        if self.targets()[i] != self.targets()[j] {
            pair_step_opposite(
                self.grads()[i] as int,
                self.grads()[j] as int,
                self.alphas()[i] as int,
                self.alphas()[j] as int,
                self.bounds()[i] as int,
                self.bounds()[j] as int,
                pair_quad(self.gram(), i, j),
            )
        } else {
            pair_step_same(
                self.grads()[i] as int,
                self.grads()[j] as int,
                self.alphas()[i] as int,
                self.alphas()[j] as int,
                self.bounds()[i] as int,
                self.bounds()[j] as int,
                pair_quad(self.gram(), i, j),
            )
        }
    }

    /// Every dual coefficient obeys its box constraint.
    pub open spec fn boxed(alpha: Seq<i128>, bound: Seq<i128>) -> bool {
        forall|i: int| 0 <= i < alpha.len() ==> 0 <= #[trigger] alpha[i] <= bound[i]
    }

    /// Well-formedness: shapes agree, the box constraint holds, all fixed
    /// data is within the representable limits, and every gradient entry is
    /// within the cap earned by the number of updates done so far.
    pub open spec fn wf(&self) -> bool {
        let n = self.n();
        &&& self.grads().len() == n
        &&& self.linear().len() == n
        &&& self.targets().len() == n
        &&& self.bounds().len() == n
        &&& self.actives().len() == n
        &&& self.gram().wf()
        &&& self.gram().size() == n
        &&& n <= MAX_SAMPLES
        &&& self.config().wf()
        &&& self.updates_done() <= self.config().max_iter
        &&& forall|i: int| 0 <= i < n ==> 0 < #[trigger] self.bounds()[i] <= PENALTY_LIMIT
        &&& forall|i: int| 0 <= i < n ==> mag(#[trigger] self.linear()[i] as int) <= LINEAR_LIMIT
        &&& Self::boxed(self.alphas(), self.bounds())
        &&& forall|i: int|
            0 <= i < n ==> mag(#[trigger] self.grads()[i] as int) <= grad_cap(self.updates_done())
    }

    /// Build the solver state for a formulated dual problem and compute the
    /// initial gradient `p_i + sum_j Q[i][j] * alpha_j / SCALE` from scratch.
    pub fn new(
        alpha: Vec<i128>,
        linear: Vec<i128>,
        targets: Vec<bool>,
        kernel: GramKernel,
        bounds: Vec<i128>,
        params: SolverParams,
    ) -> (s: SolverState)
        requires
            kernel.wf(),
            alpha@.len() == kernel.size(),
            linear@.len() == kernel.size(),
            targets@.len() == kernel.size(),
            bounds@.len() == kernel.size(),
            params.wf(),
            forall|i: int| 0 <= i < bounds@.len() ==> 0 < #[trigger] bounds@[i] <= PENALTY_LIMIT,
            forall|i: int|
                0 <= i < linear@.len() ==> mag(#[trigger] linear@[i] as int) <= LINEAR_LIMIT,
            Self::boxed(alpha@, bounds@),
        ensures
            s.wf(),
            s.n() == kernel.size(),
            s.alphas() == alpha@,
            s.linear() == linear@,
            s.targets() == targets@,
            s.bounds() == bounds@,
            s.gram() == &kernel,
            s.config() == params,
            s.updates_done() == 0,
            s.state() == SolverStatus::Running,
            forall|i: int|
                0 <= i < s.n() ==> #[trigger] s.grads()[i] as int == linear@[i] + kernel_sum(
                    &kernel,
                    targets@,
                    alpha@,
                    i,
                    s.n() as int,
                ),
            forall|i: int| 0 <= i < s.n() ==> s.actives()[i],
    {
        proof {
            kernel.lemma_size_bounded();
        }
        let n = kernel.len();
        let mut grad: Vec<i128> = Vec::new();
        let mut active: Vec<bool> = Vec::new();
        let mut i: usize = 0;
        while i < n
            invariant
                i <= n,
                grad@.len() == i,
                active@.len() == i,
                forall|k: int| 0 <= k < i ==> #[trigger] active@[k],
                forall|k: int| 0 <= k < i ==> #[trigger] grad@[k] == 0i128,
            decreases n - i,
        {
            grad.push(0);
            active.push(true);
            i = i + 1;
        }
        proof {
            lemma_grad_cap_limit(0);
        }
        let mut s = SolverState {
            alpha,
            grad,
            p: linear,
            y: targets,
            bound: bounds,
            active,
            kernel,
            params,
            iters: 0,
            status: SolverStatus::Running,
        };
        s.recompute_gradient();
        s
    }

    /// Recompute every gradient entry from scratch as
    /// `p_i + sum_j Q[i][j] * alpha_j / SCALE`.
    fn recompute_gradient(&mut self)
        requires
            old(self).wf(),
        ensures
            final(self).wf(),
            final(self).alphas() == old(self).alphas(),
            final(self).linear() == old(self).linear(),
            final(self).targets() == old(self).targets(),
            final(self).bounds() == old(self).bounds(),
            final(self).actives() == old(self).actives(),
            final(self).gram() == old(self).gram(),
            final(self).config() == old(self).config(),
            final(self).state() == old(self).state(),
            final(self).updates_done() == old(self).updates_done(),
            final(self).n() == old(self).n(),
            final(self).grads().len() == old(self).n(),
            forall|i: int|
                0 <= i < old(self).n() ==> #[trigger] final(self).grads()[i] as int == old(self).linear()[i] + kernel_sum(
                    old(self).gram(),
                    old(self).targets(),
                    old(self).alphas(),
                    i,
                    old(self).n() as int,
                ),
            forall|i: int|
                0 <= i < old(self).n() ==> mag(#[trigger] final(self).grads()[i] as int)
                    <= GRAD_FRESH,
    {
        let n = self.alpha.len();
        let mut grad: Vec<i128> = Vec::new();
        let mut i: usize = 0;
        while i < n
            invariant
                i <= n,
                old(self).wf(),
                self == old(self),
                n == old(self).n(),
                grad@.len() == i,
                forall|k: int|
                    0 <= k < i ==> #[trigger] grad@[k] as int == self.p@[k] + kernel_sum(
                        &self.kernel,
                        self.y@,
                        self.alpha@,
                        k,
                        n as int,
                    ),
                forall|k: int| 0 <= k < i ==> mag(#[trigger] grad@[k] as int) <= GRAD_FRESH,
            decreases n - i,
        {
            let mut acc: i128 = 0;
            let mut j: usize = 0;
            while j < n
                invariant
                    j <= n,
                    i < n,
                    old(self).wf(),
                    self == old(self),
                    n == old(self).n(),
                    acc as int == kernel_sum(&self.kernel, self.y@, self.alpha@, i as int, j as int),
                    mag(acc as int) <= j * GRAD_TERM,
                decreases n - j,
            {
                let k = self.kernel.eval(i, j);
                let q: i128 = if self.y[i] == self.y[j] {
                    k
                } else {
                    -k
                };
                proof {
                    self.kernel.lemma_entry_bounded(i as int, j as int);
                    lemma_scaled_product_mag(
                        q as int,
                        self.alpha@[j as int] as int,
                        KERNEL_LIMIT as int,
                        PENALTY_LIMIT as int,
                    );
                    assert((j + 1) * GRAD_TERM == j * GRAD_TERM + GRAD_TERM) by (nonlinear_arith);
                    assert(j * GRAD_TERM <= MAX_SAMPLES * GRAD_TERM) by (nonlinear_arith)
                        requires
                            0 <= j < MAX_SAMPLES,
                    ;
                }
                acc = acc + (q * self.alpha[j]) / SCALE;
                j = j + 1;
            }
            proof {
                assert(n * GRAD_TERM <= MAX_SAMPLES * GRAD_TERM) by (nonlinear_arith)
                    requires
                        0 <= n <= MAX_SAMPLES,
                ;
            }
            grad.push(self.p[i] + acc);
            i = i + 1;
        }
        self.grad = grad;
        proof {
            lemma_grad_cap_limit(self.iters as int);
        }
    }
    /// One two-variable coordinate update on the pair `(i, j)`: take the
    /// unconstrained optimal step along the pair direction, clip it into the
    /// boxes `[0, C_i]` and `[0, C_j]`, and refresh the gradient of every
    /// active index with the two touched kernel columns.
    ///
    /// The box constraint holds again afterwards (it is part of `wf`), and
    /// the pair's equality-constraint coupling is preserved exactly: the sum
    /// of the two coefficients when the signs agree, their difference when
    /// they differ.
    #[verifier::rlimit(40)]
    pub fn update(&mut self, i: usize, j: usize)
        requires
            old(self).wf(),
            i < old(self).n(),
            j < old(self).n(),
            i != j,
            old(self).updates_done() < old(self).config().max_iter,
        ensures
            final(self).wf(),
            final(self).n() == old(self).n(),
            final(self).updates_done() == old(self).updates_done() + 1,
            final(self).linear() == old(self).linear(),
            final(self).targets() == old(self).targets(),
            final(self).bounds() == old(self).bounds(),
            final(self).actives() == old(self).actives(),
            final(self).gram() == old(self).gram(),
            final(self).config() == old(self).config(),
            final(self).state() == old(self).state(),
            final(self).alphas().len() == old(self).alphas().len(),
            forall|k: int|
                0 <= k < old(self).n() && k != i && k != j
                    ==> final(self).alphas()[k] == old(self).alphas()[k],
            old(self).targets()[i as int] == old(self).targets()[j as int]
                ==> final(self).alphas()[i as int] + final(self).alphas()[j as int]
                    == old(self).alphas()[i as int] + old(self).alphas()[j as int],
            old(self).targets()[i as int] != old(self).targets()[j as int]
                ==> final(self).alphas()[i as int] - final(self).alphas()[j as int]
                    == old(self).alphas()[i as int] - old(self).alphas()[j as int],
            final(self).alphas()[i as int] as int == old(self).stepped_pair(i as int, j as int).0,
            final(self).alphas()[j as int] as int == old(self).stepped_pair(i as int, j as int).1,
            forall|k: int|
                0 <= k < old(self).n() && old(self).actives()[k]
                    ==> #[trigger] final(self).grads()[k] as int == old(self).grads()[k]
                    + tdiv(
                    q_val(old(self).gram(), old(self).targets(), i as int, k)
                        * (final(self).alphas()[i as int] - old(self).alphas()[i as int]),
                    SCALE as int,
                )
                    + tdiv(
                    q_val(old(self).gram(), old(self).targets(), j as int, k)
                        * (final(self).alphas()[j as int] - old(self).alphas()[j as int]),
                    SCALE as int,
                ),
            forall|k: int|
                0 <= k < old(self).n() && !old(self).actives()[k]
                    ==> #[trigger] final(self).grads()[k] == old(self).grads()[k],
    {
        proof {
            lemma_grad_cap_limit(old(self).updates_done());
        }
        let y_i = self.y[i];
        let y_j = self.y[j];
        let k_ii = self.kernel.diag_entry(i);
        let k_jj = self.kernel.diag_entry(j);
        let k_ij = self.kernel.eval(i, j);
        let g_i = self.grad[i];
        let g_j = self.grad[j];
        let a_i_old = self.alpha[i];
        let a_j_old = self.alpha[j];
        let c_i = self.bound[i];
        let c_j = self.bound[j];
        let mut a_i: i128;
        let mut a_j: i128;
        if y_i != y_j {
            let quad = k_ii + k_jj - 2 * k_ij;
            let quad_pos: i128 = if quad > 0 {
                quad
            } else {
                1
            };
            let delta = ((-g_i - g_j) * SCALE) / quad_pos;
            proof {
                lemma_mul_mag((-g_i - g_j) as int, SCALE as int, 2 * GRAD_LIMIT, SCALE as int);
                lemma_tdiv_mag(
                    ((-g_i - g_j) * SCALE) as int,
                    quad_pos as int,
                    2 * GRAD_LIMIT * SCALE,
                );
            }
            let diff = a_i_old - a_j_old;
            a_i = a_i_old + delta;
            a_j = a_j_old + delta;
            if diff > 0 {
                if a_j < 0 {
                    a_j = 0;
                    a_i = diff;
                }
            } else {
                if a_i < 0 {
                    a_i = 0;
                    a_j = -diff;
                }
            }
            if diff > c_i - c_j {
                if a_i > c_i {
                    a_i = c_i;
                    a_j = c_i - diff;
                }
            } else {
                if a_j > c_j {
                    a_j = c_j;
                    a_i = c_j + diff;
                }
            }
        } else {
            let quad = k_ii + k_jj - 2 * k_ij;
            let quad_pos: i128 = if quad > 0 {
                quad
            } else {
                1
            };
            let delta = ((g_i - g_j) * SCALE) / quad_pos;
            proof {
                lemma_mul_mag((g_i - g_j) as int, SCALE as int, 2 * GRAD_LIMIT, SCALE as int);
                lemma_tdiv_mag(((g_i - g_j) * SCALE) as int, quad_pos as int, 2 * GRAD_LIMIT
                    * SCALE);
            }
            let sum = a_i_old + a_j_old;
            a_i = a_i_old - delta;
            a_j = a_j_old + delta;
            if sum > c_i {
                if a_i > c_i {
                    a_i = c_i;
                    a_j = sum - c_i;
                }
            } else {
                if a_j < 0 {
                    a_j = 0;
                    a_i = sum;
                }
            }
            if sum > c_j {
                if a_j > c_j {
                    a_j = c_j;
                    a_i = sum - c_j;
                }
            } else {
                if a_i < 0 {
                    a_i = 0;
                    a_j = sum;
                }
            }
        }
        let d_i = a_i - a_i_old;
        let d_j = a_j - a_j_old;
        self.alpha[i] = a_i;
        self.alpha[j] = a_j;
        let n = self.alpha.len();
        let ghost cap0 = grad_cap(old(self).updates_done());
        let mut k: usize = 0;
        while k < n
            invariant
                k <= n,
                old(self).wf(),
                self.kernel == old(self).kernel,
                self.p@ == old(self).p@,
                self.y@ == old(self).y@,
                self.bound@ == old(self).bound@,
                self.active@ == old(self).active@,
                self.params == old(self).params,
                self.status == old(self).status,
                self.iters == old(self).iters,
                self.alpha@ == old(self).alpha@.update(i as int, a_i).update(j as int, a_j),
                n == old(self).n(),
                0 <= a_i <= self.bound@[i as int],
                0 <= a_j <= self.bound@[j as int],
                self.grad@.len() == n,
                i < n,
                j < n,
                mag(d_i as int) <= PENALTY_LIMIT,
                mag(d_j as int) <= PENALTY_LIMIT,
                0 <= cap0 <= GRAD_LIMIT,
                cap0 == grad_cap(old(self).updates_done()),
                d_i as int == a_i - old(self).alphas()[i as int],
                d_j as int == a_j - old(self).alphas()[j as int],
                forall|t: int| k <= t < n ==> self.grad@[t] == old(self).grad@[t],
                forall|t: int|
                    0 <= t < k && old(self).active@[t] ==> #[trigger] self.grad@[t] as int == old(self).grad@[t] + tdiv(
                        q_val(&old(self).kernel, old(self).y@, i as int, t) * (d_i as int),
                        SCALE as int,
                    ) + tdiv(
                        q_val(&old(self).kernel, old(self).y@, j as int, t) * (d_j as int),
                        SCALE as int,
                    ),
                forall|t: int|
                    0 <= t < k && !old(self).active@[t] ==> #[trigger] self.grad@[t] == old(self).grad@[t],
                forall|t: int| k <= t < n ==> mag(#[trigger] self.grad@[t] as int) <= cap0,
                forall|t: int|
                    0 <= t < k ==> mag(#[trigger] self.grad@[t] as int) <= cap0 + GRAD_STEP,
            decreases n - k,
        {
            if self.active[k] {
                let q_ik = self.kernel.eval(i, k);
                let q_jk = self.kernel.eval(j, k);
                let s_ik: i128 = if self.y[i] == self.y[k] {
                    q_ik
                } else {
                    -q_ik
                };
                let s_jk: i128 = if self.y[j] == self.y[k] {
                    q_jk
                } else {
                    -q_jk
                };
                proof {
                    lemma_scaled_product_mag(
                        s_ik as int,
                        d_i as int,
                        KERNEL_LIMIT as int,
                        PENALTY_LIMIT as int,
                    );
                    lemma_scaled_product_mag(
                        s_jk as int,
                        d_j as int,
                        KERNEL_LIMIT as int,
                        PENALTY_LIMIT as int,
                    );
                }
                let g_new = self.grad[k] + (s_ik * d_i) / SCALE + (s_jk * d_j) / SCALE;
                self.grad[k] = g_new;
            }
            k = k + 1;
        }
        self.iters = self.iters + 1;
        proof {
            assert(grad_cap(old(self).updates_done() + 1) == cap0 + GRAD_STEP);
        }
    }

    /// Pick the working pair: `i` is the most-violating active index, `j`
    /// the active index maximizing the second-order estimate of the
    /// objective decrease for the pair.  Ties go to the lowest index.  A
    /// pair is reported only when the best achievable violation reaches the
    /// configured tolerance.
    fn select_working_set(&self) -> (r: WorkingSet)
        requires
            self.wf(),
        ensures
            r.found <==> !below_tolerance(
                self.targets(),
                self.grads(),
                self.alphas(),
                self.bounds(),
                self.actives(),
                self.n() as int,
                self.config().tol as int,
            ),
            r.found ==> selected_pair(
                self.gram(),
                self.targets(),
                self.grads(),
                self.alphas(),
                self.bounds(),
                self.actives(),
                self.config().tol as int,
                r.i as int,
                r.j as int,
            ),
            r.found ==> r.i < self.n() && r.j < self.n() && r.i != r.j,
            r.found ==> mag(r.gmax1 as int) <= GRAD_LIMIT && mag(r.gmax2 as int) <= GRAD_LIMIT,
            r.found ==> r.gmax1 + r.gmax2 >= self.config().tol,
            r.gmax1 as int == max_up(
                self.targets(),
                self.grads(),
                self.alphas(),
                self.bounds(),
                self.actives(),
                self.n() as int,
            ),
            r.found ==> r.gmax2 as int == max_down(
                self.targets(),
                self.grads(),
                self.alphas(),
                self.bounds(),
                self.actives(),
                self.n() as int,
            ),
    {
        proof {
            lemma_grad_cap_limit(self.iters as int);
        }
        let n = self.alpha.len();
        let mut gmax1: i128 = GAP_NONE;
        let mut i_sel: usize = 0;
        let mut found_i: bool = false;
        let mut t: usize = 0;
        while t < n
            invariant
                t <= n,
                self.wf(),
                n == self.n(),
                forall|k: int| 0 <= k < n ==> mag(#[trigger] self.grads()[k] as int) <= GRAD_LIMIT,
                gmax1 as int == max_up(
                    self.targets(),
                    self.grads(),
                    self.alphas(),
                    self.bounds(),
                    self.actives(),
                    t as int,
                ),
                found_i == (gmax1 != GAP_NONE),
                found_i ==> i_sel < n && mag(gmax1 as int) <= GRAD_LIMIT,
                found_i ==> self.actives()[i_sel as int] && up_eligible(
                    self.targets(),
                    self.alphas(),
                    self.bounds(),
                    i_sel as int,
                ) && gmax1 as int == up_violation(self.targets(), self.grads(), i_sel as int),
                forall|u: int|
                    0 <= u < t && self.actives()[u] && up_eligible(
                        self.targets(),
                        self.alphas(),
                        self.bounds(),
                        u,
                    ) ==> #[trigger] up_violation(self.targets(), self.grads(), u)
                        <= gmax1 as int,
                forall|u: int|
                    0 <= u < i_sel && self.actives()[u] && up_eligible(
                        self.targets(),
                        self.alphas(),
                        self.bounds(),
                        u,
                    ) ==> #[trigger] up_violation(self.targets(), self.grads(), u)
                        < gmax1 as int,
            decreases n - t,
        {
            if self.active[t] {
                if self.y[t] {
                    if self.alpha[t] < self.bound[t] && -self.grad[t] > gmax1 {
                        gmax1 = -self.grad[t];
                        i_sel = t;
                        found_i = true;
                    }
                } else {
                    if self.alpha[t] > 0 && self.grad[t] > gmax1 {
                        gmax1 = self.grad[t];
                        i_sel = t;
                        found_i = true;
                    }
                }
            }
            t = t + 1;
        }
        if !found_i {
            return WorkingSet { found: false, i: 0, j: 0, gmax1, gmax2: GAP_NONE };
        }
        let d_ii = self.kernel.diag_entry(i_sel);
        let mut gmax2: i128 = GAP_NONE;
        let mut j_sel: usize = 0;
        let mut found_j: bool = false;
        let mut obj_best: i128 = 0;
        let mut t: usize = 0;
        while t < n
            invariant
                t <= n,
                self.wf(),
                n == self.n(),
                i_sel < n,
                mag(gmax1 as int) <= GRAD_LIMIT,
                d_ii as int == self.gram().entry_at(i_sel as int, i_sel as int),
                mag(d_ii as int) <= KERNEL_LIMIT,
                forall|k: int| 0 <= k < n ==> mag(#[trigger] self.grads()[k] as int) <= GRAD_LIMIT,
                self.actives()[i_sel as int] && up_eligible(
                    self.targets(),
                    self.alphas(),
                    self.bounds(),
                    i_sel as int,
                ) && gmax1 as int == up_violation(self.targets(), self.grads(), i_sel as int),
                gmax1 as int == max_up(
                    self.targets(),
                    self.grads(),
                    self.alphas(),
                    self.bounds(),
                    self.actives(),
                    n as int,
                ),
                forall|u: int|
                    0 <= u < i_sel && self.actives()[u] && up_eligible(
                        self.targets(),
                        self.alphas(),
                        self.bounds(),
                        u,
                    ) ==> #[trigger] up_violation(self.targets(), self.grads(), u)
                        < gmax1 as int,
                gmax2 as int == max_down(
                    self.targets(),
                    self.grads(),
                    self.alphas(),
                    self.bounds(),
                    self.actives(),
                    t as int,
                ),
                found_j ==> j_sel < n && j_sel != i_sel,
                found_j ==> gmax2 != GAP_NONE,
                found_j ==> second_candidate(
                    self.targets(),
                    self.grads(),
                    self.alphas(),
                    self.bounds(),
                    self.actives(),
                    i_sel as int,
                    j_sel as int,
                ) && obj_best as int == pair_gain(
                    self.gram(),
                    self.targets(),
                    self.grads(),
                    i_sel as int,
                    j_sel as int,
                ),
                forall|u: int|
                    0 <= u < t && #[trigger] second_candidate(
                        self.targets(),
                        self.grads(),
                        self.alphas(),
                        self.bounds(),
                        self.actives(),
                        i_sel as int,
                        u,
                    ) ==> found_j,
                forall|u: int|
                    0 <= u < t && second_candidate(
                        self.targets(),
                        self.grads(),
                        self.alphas(),
                        self.bounds(),
                        self.actives(),
                        i_sel as int,
                        u,
                    ) ==> #[trigger] pair_gain(
                        self.gram(),
                        self.targets(),
                        self.grads(),
                        i_sel as int,
                        u,
                    ) <= obj_best as int,
                forall|u: int|
                    0 <= u < j_sel && second_candidate(
                        self.targets(),
                        self.grads(),
                        self.alphas(),
                        self.bounds(),
                        self.actives(),
                        i_sel as int,
                        u,
                    ) ==> #[trigger] pair_gain(
                        self.gram(),
                        self.targets(),
                        self.grads(),
                        i_sel as int,
                        u,
                    ) < obj_best as int,
                !found_j ==> gmax2 == GAP_NONE || gmax1 + gmax2 <= 0,
                gmax2 == GAP_NONE || mag(gmax2 as int) <= GRAD_LIMIT,
            decreases n - t,
        {
            if self.active[t] {
                let g_t = self.grad[t];
                let eligible: bool;
                let term: i128;
                if self.y[t] {
                    eligible = self.alpha[t] > 0;
                    term = g_t;
                } else {
                    eligible = self.alpha[t] < self.bound[t];
                    term = -g_t;
                }
                if eligible {
                    if term > gmax2 {
                        gmax2 = term;
                    }
                    let grad_diff = gmax1 + term;
                    if grad_diff > 0 {
                        let k_tt = self.kernel.diag_entry(t);
                        let k_it = self.kernel.eval(i_sel, t);
                        let quad: i128 = d_ii + k_tt - 2 * k_it;
                        let quad_pos: i128 = if quad > 0 {
                            quad
                        } else {
                            1
                        };
                        proof {
                            lemma_mul_mag(
                                grad_diff as int,
                                grad_diff as int,
                                2 * GRAD_LIMIT,
                                2 * GRAD_LIMIT,
                            );
                        }
                        let obj = (grad_diff * grad_diff) / quad_pos;
                        proof {
                            assert(quad as int == pair_quad(
                                self.gram(),
                                i_sel as int,
                                t as int,
                            ));
                            assert(grad_diff as int == up_violation(
                                self.targets(),
                                self.grads(),
                                i_sel as int,
                            ) + down_violation(self.targets(), self.grads(), t as int));
                            assert(obj as int == pair_gain(
                                self.gram(),
                                self.targets(),
                                self.grads(),
                                i_sel as int,
                                t as int,
                            ));
                        }
                        if !found_j || obj > obj_best {
                            obj_best = obj;
                            j_sel = t;
                            found_j = true;
                        }
                    }
                }
            }
            t = t + 1;
        }
        if found_j && gmax1 + gmax2 >= self.params.tol {
            WorkingSet { found: true, i: i_sel, j: j_sel, gmax1, gmax2 }
        } else {
            WorkingSet { found: false, i: 0, j: 0, gmax1, gmax2 }
        }
    }

    /// Remove from the active set every index whose coefficient is pinned
    /// at a bound and whose gradient says it will stay there, judged
    /// against the current violation maxima.
    fn do_shrinking(&mut self, gmax1: i128, gmax2: i128)
        requires
            old(self).wf(),
        ensures
            final(self).wf(),
            final(self).n() == old(self).n(),
            final(self).alphas() == old(self).alphas(),
            final(self).grads() == old(self).grads(),
            final(self).linear() == old(self).linear(),
            final(self).targets() == old(self).targets(),
            final(self).bounds() == old(self).bounds(),
            final(self).gram() == old(self).gram(),
            final(self).config() == old(self).config(),
            final(self).state() == old(self).state(),
            final(self).updates_done() == old(self).updates_done(),
            forall|t: int|
                0 <= t < old(self).n() ==> #[trigger] final(self).actives()[t] == (old(self).actives()[t] && !shrink_away(
                    old(self).targets(),
                    old(self).grads(),
                    old(self).alphas(),
                    old(self).bounds(),
                    t,
                    gmax1 as int,
                    gmax2 as int,
                )),
    {
        let n = self.alpha.len();
        let mut t: usize = 0;
        while t < n
            invariant
                t <= n,
                old(self).wf(),
                n == old(self).n(),
                self.alpha@ == old(self).alpha@,
                self.grad@ == old(self).grad@,
                self.p@ == old(self).p@,
                self.y@ == old(self).y@,
                self.bound@ == old(self).bound@,
                self.kernel == old(self).kernel,
                self.params == old(self).params,
                self.iters == old(self).iters,
                self.status == old(self).status,
                self.active@.len() == n,
                forall|u: int| t <= u < n ==> self.active@[u] == old(self).active@[u],
                forall|u: int|
                    0 <= u < t ==> #[trigger] self.active@[u] == (old(self).active@[u]
                        && !shrink_away(
                        old(self).targets(),
                        old(self).grads(),
                        old(self).alphas(),
                        old(self).bounds(),
                        u,
                        gmax1 as int,
                        gmax2 as int,
                    )),
            decreases n - t,
        {
            if self.active[t] {
                let g_t = self.grad[t];
                let shrink: bool;
                if self.alpha[t] == self.bound[t] {
                    shrink = if self.y[t] {
                        -g_t > gmax1
                    } else {
                        -g_t > gmax2
                    };
                } else if self.alpha[t] == 0 {
                    shrink = if self.y[t] {
                        g_t > gmax2
                    } else {
                        g_t > gmax1
                    };
                } else {
                    shrink = false;
                }
                if shrink {
                    self.active[t] = false;
                }
            }
            t = t + 1;
        }
    }

    /// Whether no index has been shrunk away.
    fn is_fully_active(&self) -> (r: bool)
        requires
            self.wf(),
        ensures
            r == (forall|i: int| 0 <= i < self.n() ==> #[trigger] self.actives()[i]),
    {
        let n = self.active.len();
        let mut t: usize = 0;
        while t < n
            invariant
                t <= n,
                self.wf(),
                n == self.n(),
                forall|k: int| 0 <= k < t ==> #[trigger] self.actives()[k],
            decreases n - t,
        {
            if !self.active[t] {
                return false;
            }
            t = t + 1;
        }
        true
    }

    /// Restore the full active set and recompute the gradient from scratch,
    /// so that the final convergence check judges the whole problem rather
    /// than a shrunk subproblem.
    fn unshrink(&mut self)
        requires
            old(self).wf(),
        ensures
            final(self).wf(),
            final(self).n() == old(self).n(),
            final(self).alphas() == old(self).alphas(),
            final(self).linear() == old(self).linear(),
            final(self).targets() == old(self).targets(),
            final(self).bounds() == old(self).bounds(),
            final(self).gram() == old(self).gram(),
            final(self).config() == old(self).config(),
            final(self).state() == old(self).state(),
            final(self).updates_done() == old(self).updates_done(),
            forall|i: int| 0 <= i < final(self).n() ==> #[trigger] final(self).actives()[i],
            forall|i: int|
                0 <= i < old(self).n() ==> #[trigger] final(self).grads()[i] as int == old(self).linear()[i] + kernel_sum(
                    old(self).gram(),
                    old(self).targets(),
                    old(self).alphas(),
                    i,
                    old(self).n() as int,
                ),
    {
        let n = self.active.len();
        let mut t: usize = 0;
        while t < n
            invariant
                t <= n,
                old(self).wf(),
                n == old(self).n(),
                self.alpha@ == old(self).alpha@,
                self.grad@ == old(self).grad@,
                self.p@ == old(self).p@,
                self.y@ == old(self).y@,
                self.bound@ == old(self).bound@,
                self.kernel == old(self).kernel,
                self.params == old(self).params,
                self.iters == old(self).iters,
                self.status == old(self).status,
                self.active@.len() == n,
                forall|k: int| 0 <= k < t ==> #[trigger] self.active@[k],
            decreases n - t,
        {
            self.active[t] = true;
            t = t + 1;
        }
        self.recompute_gradient();
    }

    /// One solver iteration.  When a working pair still violates the
    /// tolerance, the selected pair is updated (with a periodic shrinking
    /// sweep afterwards).  When the best violation is below tolerance, the
    /// solver first restores the full index set and recomputes the
    /// gradient from scratch; only if the fresh, full problem is still
    /// below tolerance does it declare convergence.
    pub fn step(&mut self) -> (r: StepOutcome)
        requires
            old(self).wf(),
            old(self).state() == SolverStatus::Running,
            old(self).updates_done() < old(self).config().max_iter,
        ensures
            final(self).wf(),
            final(self).n() == old(self).n(),
            final(self).linear() == old(self).linear(),
            final(self).targets() == old(self).targets(),
            final(self).bounds() == old(self).bounds(),
            final(self).gram() == old(self).gram(),
            final(self).config() == old(self).config(),
            Self::boxed(final(self).alphas(), final(self).bounds()),
            r matches StepOutcome::Updated { i, j } ==> i < old(self).n() && j < old(self).n()
                && i != j && selected_pair(
                old(self).gram(),
                old(self).targets(),
                old(self).grads(),
                old(self).alphas(),
                old(self).bounds(),
                old(self).actives(),
                old(self).config().tol as int,
                i as int,
                j as int,
            ) && final(self).alphas()[i as int] as int == old(self).stepped_pair(
                i as int,
                j as int,
            ).0 && final(self).alphas()[j as int] as int == old(self).stepped_pair(
                i as int,
                j as int,
            ).1 && (forall|k: int|
                0 <= k < old(self).n() && k != i && k != j
                    ==> final(self).alphas()[k] == old(self).alphas()[k]) && (forall|k: int|
                0 <= k < old(self).n() && old(self).actives()[k]
                    ==> #[trigger] final(self).grads()[k] as int == old(self).grads()[k]
                    + tdiv(
                    q_val(old(self).gram(), old(self).targets(), i as int, k)
                        * (final(self).alphas()[i as int] - old(self).alphas()[i as int]),
                    SCALE as int,
                )
                    + tdiv(
                    q_val(old(self).gram(), old(self).targets(), j as int, k)
                        * (final(self).alphas()[j as int] - old(self).alphas()[j as int]),
                    SCALE as int,
                )) && (forall|k: int|
                0 <= k < old(self).n() && !old(self).actives()[k]
                    ==> #[trigger] final(self).grads()[k] == old(self).grads()[k]) && final(self).updates_done() == old(self).updates_done() + 1 && final(self).state()
                == SolverStatus::Running,
            (r matches StepOutcome::Updated { i, j } && old(self).config().shrinking && (old(self).updates_done() + 1) % (SHRINK_EVERY as int) == 0) ==> forall|t: int|
                0 <= t < old(self).n() ==> #[trigger] final(self).actives()[t] == (old(self).actives()[t] && !shrink_away(
                    old(self).targets(),
                    final(self).grads(),
                    final(self).alphas(),
                    old(self).bounds(),
                    t,
                    max_up(
                        old(self).targets(),
                        old(self).grads(),
                        old(self).alphas(),
                        old(self).bounds(),
                        old(self).actives(),
                        old(self).n() as int,
                    ),
                    max_down(
                        old(self).targets(),
                        old(self).grads(),
                        old(self).alphas(),
                        old(self).bounds(),
                        old(self).actives(),
                        old(self).n() as int,
                    ),
                )),
            (r matches StepOutcome::Updated { i, j } && !(old(self).config().shrinking && (old(self).updates_done() + 1) % (SHRINK_EVERY as int) == 0)) ==> final(self).actives() == old(self).actives(),
            r matches StepOutcome::Restored ==> final(self).state() == SolverStatus::Running
                && final(self).updates_done() == old(self).updates_done() && final(self).alphas()
                == old(self).alphas() && below_tolerance(
                old(self).targets(),
                old(self).grads(),
                old(self).alphas(),
                old(self).bounds(),
                old(self).actives(),
                old(self).n() as int,
                old(self).config().tol as int,
            ) && (forall|k: int| 0 <= k < old(self).n() ==> #[trigger] final(self).actives()[k])
                && (forall|k: int|
                0 <= k < old(self).n() ==> #[trigger] final(self).grads()[k] as int == old(self).linear()[k] + kernel_sum(
                    old(self).gram(),
                    old(self).targets(),
                    old(self).alphas(),
                    k,
                    old(self).n() as int,
                )),
            r matches StepOutcome::Restored ==> !((forall|k: int|
                0 <= k < old(self).n() ==> #[trigger] old(self).actives()[k]) && (forall|k: int|
                0 <= k < old(self).n() ==> #[trigger] old(self).grads()[k] as int == old(self).linear()[k] + kernel_sum(
                    old(self).gram(),
                    old(self).targets(),
                    old(self).alphas(),
                    k,
                    old(self).n() as int,
                ))),
            r matches StepOutcome::Converged ==> final(self).state() == SolverStatus::Converged
                && below_tolerance(
                old(self).targets(),
                old(self).grads(),
                old(self).alphas(),
                old(self).bounds(),
                old(self).actives(),
                old(self).n() as int,
                old(self).config().tol as int,
            ) && final(self).updates_done() == old(self).updates_done() && final(self).alphas()
                == old(self).alphas() && (forall|k: int|
                0 <= k < old(self).n() ==> #[trigger] final(self).actives()[k]) && (forall|k: int|
                0 <= k < old(self).n() ==> #[trigger] final(self).grads()[k] as int == old(self).linear()[k] + kernel_sum(
                    old(self).gram(),
                    old(self).targets(),
                    old(self).alphas(),
                    k,
                    old(self).n() as int,
                )) && below_tolerance(
                final(self).targets(),
                final(self).grads(),
                final(self).alphas(),
                final(self).bounds(),
                final(self).actives(),
                final(self).n() as int,
                final(self).config().tol as int,
            ),
    {
        let sel = self.select_working_set();
        if sel.found {
            self.update(sel.i, sel.j);
            if self.params.shrinking && self.iters % SHRINK_EVERY == 0 {
                self.do_shrinking(sel.gmax1, sel.gmax2);
            }
            StepOutcome::Updated { i: sel.i, j: sel.j }
        } else {
            if self.is_fully_active() {
                self.recompute_gradient();
                let sel2 = self.select_working_set();
                if sel2.found {
                    proof {
                        if forall|k: int|
                            0 <= k < old(self).n() ==> #[trigger] old(self).grads()[k] as int
                                == old(self).linear()[k] + kernel_sum(
                                old(self).gram(),
                                old(self).targets(),
                                old(self).alphas(),
                                k,
                                old(self).n() as int,
                            ) {
                            assert(self.grads() =~= old(self).grads());
                            assert(false);
                        }
                    }
                    StepOutcome::Restored
                } else {
                    self.status = SolverStatus::Converged;
                    StepOutcome::Converged
                }
            } else {
                self.unshrink();
                StepOutcome::Restored
            }
        }
    }

    /// The bias of the decision function: the average of `y_i * grad_i`
    /// over free support vectors when any exist, otherwise the midpoint of
    /// the bound-vector gradient extremes.
    pub fn calculate_rho(&self) -> (r: i128)
        requires
            self.wf(),
        ensures
            mag(r as int) <= RHO_LIMIT,
            r as int == rho_of(
                self.targets(),
                self.grads(),
                self.alphas(),
                self.bounds(),
                self.n() as int,
            ),
    {
        proof {
            lemma_grad_cap_limit(self.iters as int);
        }
        let n = self.alpha.len();
        let mut ub: i128 = RHO_LIMIT;
        let mut lb: i128 = -RHO_LIMIT;
        let mut sum_free: i128 = 0;
        let mut n_free: usize = 0;
        let mut t: usize = 0;
        while t < n
            invariant
                t <= n,
                self.wf(),
                n == self.n(),
                forall|k: int| 0 <= k < n ==> mag(#[trigger] self.grads()[k] as int) <= GRAD_LIMIT,
                n_free <= t,
                mag(sum_free as int) <= n_free * GRAD_LIMIT,
                -RHO_LIMIT <= lb <= GRAD_LIMIT,
                -GRAD_LIMIT <= ub <= RHO_LIMIT,
                n_free as int == free_count(self.alphas(), self.bounds(), t as int),
                sum_free as int == free_sum(
                    self.targets(),
                    self.grads(),
                    self.alphas(),
                    self.bounds(),
                    t as int,
                ),
                ub as int == bound_above(
                    self.targets(),
                    self.grads(),
                    self.alphas(),
                    self.bounds(),
                    t as int,
                ),
                lb as int == bound_below(
                    self.targets(),
                    self.grads(),
                    self.alphas(),
                    self.bounds(),
                    t as int,
                ),
            decreases n - t,
        {
            let y_g: i128 = if self.y[t] {
                self.grad[t]
            } else {
                -self.grad[t]
            };
            if self.alpha[t] == self.bound[t] {
                if self.y[t] {
                    if y_g > lb {
                        lb = y_g;
                    }
                } else {
                    if y_g < ub {
                        ub = y_g;
                    }
                }
            } else if self.alpha[t] == 0 {
                if self.y[t] {
                    if y_g < ub {
                        ub = y_g;
                    }
                } else {
                    if y_g > lb {
                        lb = y_g;
                    }
                }
            } else {
                proof {
                    assert((n_free + 1) * GRAD_LIMIT == n_free * GRAD_LIMIT + GRAD_LIMIT)
                        by (nonlinear_arith);
                    assert(n_free * GRAD_LIMIT <= MAX_SAMPLES * GRAD_LIMIT) by (nonlinear_arith)
                        requires
                            0 <= n_free <= MAX_SAMPLES,
                    ;
                }
                sum_free = sum_free + y_g;
                n_free = n_free + 1;
            }
            t = t + 1;
        }
        if n_free > 0 {
            proof {
                assert(n_free * GRAD_LIMIT <= MAX_SAMPLES * GRAD_LIMIT) by (nonlinear_arith)
                    requires
                        0 <= n_free <= MAX_SAMPLES,
                ;
                lemma_tdiv_mag(sum_free as int, n_free as int, MAX_SAMPLES * GRAD_LIMIT);
            }
            sum_free / (n_free as i128)
        } else {
            (ub + lb) / 2
        }
    }

    /// The dual objective value `alpha' Q alpha / 2 + p' alpha`, computed
    /// as half the sum of `alpha_i * (grad_i + p_i)` (scaled).
    pub fn objective(&self) -> (r: i128)
        requires
            self.wf(),
        ensures
            r as int == tdiv(
                objective_sum(self.alphas(), self.grads(), self.linear(), self.n() as int),
                2,
            ),
    {
        proof {
            lemma_grad_cap_limit(self.iters as int);
        }
        let n = self.alpha.len();
        let ghost obj_term: int = (PENALTY_LIMIT as int * (GRAD_LIMIT + LINEAR_LIMIT)) / (
        SCALE as int);
        let mut acc: i128 = 0;
        let mut t: usize = 0;
        while t < n
            invariant
                t <= n,
                self.wf(),
                n == self.n(),
                obj_term == (PENALTY_LIMIT as int * (GRAD_LIMIT + LINEAR_LIMIT)) / (SCALE as int),
                forall|k: int| 0 <= k < n ==> mag(#[trigger] self.grads()[k] as int) <= GRAD_LIMIT,
                acc as int == objective_sum(self.alphas(), self.grads(), self.linear(), t as int),
                mag(acc as int) <= t * obj_term,
            decreases n - t,
        {
            proof {
                lemma_scaled_product_mag(
                    self.alpha@[t as int] as int,
                    (self.grad@[t as int] + self.p@[t as int]) as int,
                    PENALTY_LIMIT as int,
                    GRAD_LIMIT + LINEAR_LIMIT,
                );
                assert((t + 1) * obj_term == t * obj_term + obj_term) by (nonlinear_arith);
                assert(t * obj_term <= MAX_SAMPLES * obj_term) by (nonlinear_arith)
                    requires
                        0 <= t <= MAX_SAMPLES,
                        obj_term >= 0,
                ;
            }
            acc = acc + (self.alpha[t] * (self.grad[t] + self.p[t])) / SCALE;
            t = t + 1;
        }
        acc / 2
    }

    /// The current dual coefficients.
    pub fn alpha(&self) -> (r: &Vec<i128>)
        ensures
            r@ == self.alphas(),
    {
        &self.alpha
    }

    /// The current solver state.
    pub fn status(&self) -> (r: SolverStatus)
        ensures
            r == self.state(),
    {
        self.status
    }

    /// How many pairwise updates have been performed.
    pub fn iterations(&self) -> (r: usize)
        ensures
            r == self.updates_done(),
    {
        self.iters
    }

    /// Number of dual variables.
    pub fn len(&self) -> (r: usize)
        ensures
            r == self.n(),
    {
        self.alpha.len()
    }

    /// Run the solver until convergence or the iteration cap, then report
    /// the dual coefficients, the bias, the final gradients, and how the
    /// loop ended.  Every coefficient still obeys its box constraint; the
    /// bias follows the free-average / bound-midpoint rule over the final
    /// state; and when the threshold was reached, the returned
    /// coefficients satisfy the stopping criterion on the full index set,
    /// judged on gradients recomputed from scratch.
    pub fn solve(self) -> (r: Solution)
        requires
            self.wf(),
            self.state() == SolverStatus::Running,
        ensures
            r.alpha@.len() == self.n(),
            Self::boxed(r.alpha@, self.bounds()),
            mag(r.rho as int) <= RHO_LIMIT,
            r.iterations <= self.config().max_iter,
            r.exit_reason == ExitReason::ReachedIterations ==> r.iterations
                == self.config().max_iter,
            r.grads@.len() == self.n(),
            r.rho as int == rho_of(
                self.targets(),
                r.grads@,
                r.alpha@,
                self.bounds(),
                self.n() as int,
            ),
            r.exit_reason == ExitReason::ReachedThreshold ==> forall|k: int|
                0 <= k < self.n() ==> #[trigger] r.grads@[k] as int == self.linear()[k]
                    + kernel_sum(self.gram(), self.targets(), r.alpha@, k, self.n() as int),
            r.exit_reason == ExitReason::ReachedThreshold ==> below_tolerance(
                self.targets(),
                r.grads@,
                r.alpha@,
                self.bounds(),
                Seq::new(self.n(), |k: int| true),
                self.n() as int,
                self.config().tol as int,
            ),
    {
        let mut s = self;
        let max_iter = s.params.max_iter;
        let mut converged: bool = false;
        let mut restored: bool = false;
        while !converged && s.iters < max_iter
            invariant
                s.wf(),
                s.n() == self.n(),
                s.bounds() == self.bounds(),
                s.linear() == self.linear(),
                s.targets() == self.targets(),
                s.gram() == self.gram(),
                s.config() == self.config(),
                max_iter == s.config().max_iter,
                !converged ==> s.state() == SolverStatus::Running,
                converged ==> s.state() == SolverStatus::Converged && (forall|k: int|
                    0 <= k < s.n() ==> #[trigger] s.actives()[k]) && (forall|k: int|
                    0 <= k < s.n() ==> #[trigger] s.grads()[k] as int == s.linear()[k]
                        + kernel_sum(s.gram(), s.targets(), s.alphas(), k, s.n() as int))
                    && below_tolerance(
                    s.targets(),
                    s.grads(),
                    s.alphas(),
                    s.bounds(),
                    s.actives(),
                    s.n() as int,
                    s.config().tol as int,
                ),
                restored && !converged ==> (forall|k: int|
                    0 <= k < s.n() ==> #[trigger] s.actives()[k]) && (forall|k: int|
                    0 <= k < s.n() ==> #[trigger] s.grads()[k] as int == s.linear()[k]
                        + kernel_sum(s.gram(), s.targets(), s.alphas(), k, s.n() as int)),
            decreases
                    max_iter - s.iters,
                    (if converged {
                        0int
                    } else {
                        1int
                    }),
                    (if restored {
                        0int
                    } else {
                        1int
                    }),
        {
            match s.step() {
                StepOutcome::Updated { .. } => {
                    restored = false;
                },
                StepOutcome::Restored => {
                    restored = true;
                },
                StepOutcome::Converged => {
                    converged = true;
                },
            }
        }
        let rho = s.calculate_rho();
        let exit = if converged {
            ExitReason::ReachedThreshold
        } else {
            ExitReason::ReachedIterations
        };
        let ghost gsnap = s.grads();
        proof {
            if converged {
                assert(s.actives() =~= Seq::new(s.n(), |k: int| true));
            }
        }
        Solution { alpha: s.alpha, rho, exit_reason: exit, iterations: s.iters, grads: Ghost(gsnap) }
    }
}

/// What a finished solve hands to the solution extractor.
pub struct Solution {
    /// The dual coefficients at termination.
    pub alpha: Vec<i128>,
    /// The bias of the decision function.
    pub rho: i128,
    /// Whether the tolerance or the iteration cap ended the solve.
    pub exit_reason: ExitReason,
    /// How many pairwise updates were performed.
    pub iterations: usize,
    /// The gradient vector at termination (ghost: for specification only).
    pub grads: Ghost<Seq<i128>>,
}

} // verus!
