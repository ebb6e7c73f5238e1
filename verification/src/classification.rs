//! Support vector classification: the dual formulation over class signs,
//! and the fit entry point that runs the solver on it.
use vstd::prelude::*;

use crate::error::ExitReason;
use crate::fixed::{KERNEL_LIMIT, MAX_SAMPLES, PENALTY_LIMIT, SCALE, mag};
use crate::kernel::GramKernel;
use crate::model::Svm;
use crate::regression::{DualProblem, const_seq};
use crate::solver::{SolverParams, SolverState, below_tolerance, kernel_sum, rho_of};

verus! {

/// The sign-weighted coefficients `y_t * alpha_t` of a classification
/// solution.
pub open spec fn signed_seq(targets: Seq<bool>, sol: Seq<i128>) -> Seq<i128> {
    Seq::new(
        sol.len(),
        |t: int|
            if targets[t] {
                sol[t]
            } else {
                (-(sol[t] as int)) as i128
            },
    )
}

/// Whether `kern` serves the square matrix `gram` of side `n` under the
/// identity permutation.
pub open spec fn identity_gram(kern: &GramKernel, gram: Seq<Vec<i128>>, n: int) -> bool {
    &&& kern.wf()
    &&& kern.size() == n
    &&& forall|i: int| 0 <= i < n ==> kern.map_at(i) == i
    &&& forall|i: int, j: int|
        0 <= i < n && 0 <= j < n ==> #[trigger] kern.entry_at(i, j) == gram[kern.map_at(
            i,
        )]@[kern.map_at(j)] as int
}

/// What a classification fit guarantees beyond well-formedness: the model
/// is the sparse extraction of the sign-weighted coefficients of a
/// box-feasible solution of the dual over `gram` with unit linear term,
/// its bias follows the free-average / bound-midpoint rule on the final
/// gradients, the iteration cap is reported exactly, and a threshold exit
/// means the solution satisfies the stopping criterion on the full index
/// set with gradients recomputed from scratch.
pub open spec fn classification_fit_post(
    model: &Svm,
    gram: Seq<Vec<i128>>,
    targets: Seq<bool>,
    c: i128,
    params: SolverParams,
) -> bool {
    let n = targets.len() as int;
    exists|kern: GramKernel, sol: Seq<i128>, g: Seq<i128>|
        {
            &&& #[trigger] identity_gram(&kern, gram, n)
            &&& #[trigger] sol.len() == n
            &&& #[trigger] g.len() == n
            &&& (forall|t: int| 0 <= t < n ==> 0 <= #[trigger] sol[t] <= c)
            &&& model.extraction_of(signed_seq(targets, sol))
            &&& model.bias() as int == rho_of(targets, g, sol, const_seq(c, n), n)
            &&& (model.reason() == ExitReason::ReachedIterations ==> model.updates()
                == params.max_iter)
            &&& (model.reason() == ExitReason::ReachedThreshold ==> (forall|k: int|
                0 <= k < n ==> #[trigger] g[k] as int == -SCALE + kernel_sum(
                    &kern,
                    targets,
                    sol,
                    k,
                    n,
                )) && below_tolerance(
                targets,
                g,
                sol,
                const_seq(c, n),
                Seq::new(n as nat, |k: int| true),
                n,
                params.tol as int,
            ))
        }
}

/// Formulate the classification dual: zero initial coefficients, linear
/// term `-1` (one whole unit) everywhere, the given class signs, and a
/// shared box ceiling `c`.
pub fn classification_problem(targets: &Vec<bool>, c: i128) -> (pr: DualProblem)
    requires
        targets@.len() <= MAX_SAMPLES,
        0 < c <= PENALTY_LIMIT,
    ensures
        pr.alpha@.len() == targets@.len(),
        pr.linear@.len() == targets@.len(),
        pr.targets@.len() == targets@.len(),
        pr.bounds@.len() == targets@.len(),
        forall|i: int| 0 <= i < targets@.len() ==> #[trigger] pr.alpha@[i] == 0i128,
        forall|i: int| 0 <= i < targets@.len() ==> #[trigger] pr.linear@[i] == -SCALE,
        forall|i: int| 0 <= i < targets@.len() ==> #[trigger] pr.targets@[i] == targets@[i],
        forall|i: int| 0 <= i < targets@.len() ==> #[trigger] pr.bounds@[i] == c,
{
    let n = targets.len();
    let mut alpha: Vec<i128> = Vec::new();
    let mut linear: Vec<i128> = Vec::new();
    let mut signs: Vec<bool> = Vec::new();
    let mut bounds: Vec<i128> = Vec::new();
    let mut i: usize = 0;
    while i < n
        invariant
            i <= n,
            n == targets@.len(),
            alpha@.len() == i,
            linear@.len() == i,
            signs@.len() == i,
            bounds@.len() == i,
            forall|k: int| 0 <= k < i ==> #[trigger] alpha@[k] == 0i128,
            forall|k: int| 0 <= k < i ==> #[trigger] linear@[k] == -SCALE,
            forall|k: int| 0 <= k < i ==> #[trigger] signs@[k] == targets@[k],
            forall|k: int| 0 <= k < i ==> #[trigger] bounds@[k] == c,
        decreases n - i,
    {
        alpha.push(0);
        linear.push(-SCALE);
        signs.push(targets[i]);
        bounds.push(c);
        i = i + 1;
    }
    DualProblem { alpha, linear, targets: signs, bounds }
}

/// Fit a binary classifier: solve the dual over the class signs and
/// extract the sparse model with sign-weighted coefficients
/// `y_t * alpha_t`.  Every support-vector coefficient lies within
/// `[-c, c]` and refers to one of the `n` samples, in increasing order.
pub fn fit_classification(
    params: SolverParams,
    gram: Vec<Vec<i128>>,
    targets: &Vec<bool>,
    c: i128,
) -> (model: Svm)
    requires
        params.wf(),
        gram@.len() == targets@.len(),
        targets@.len() <= MAX_SAMPLES,
        forall|i: int| 0 <= i < gram@.len() ==> #[trigger] gram@[i]@.len() == gram@.len(),
        forall|i: int, j: int|
            0 <= i < gram@.len() && 0 <= j < gram@.len() ==> mag(#[trigger] gram@[i]@[j] as int)
                <= KERNEL_LIMIT,
        0 < c <= PENALTY_LIMIT,
    ensures
        model.wf(),
        forall|k: int| 0 <= k < model.indices().len() ==> #[trigger] model.indices()[k]
            < targets@.len(),
        forall|k: int| 0 <= k < model.coefs().len() ==> mag(#[trigger] model.coefs()[k] as int)
            <= c,
        classification_fit_post(&model, gram@, targets@, c, params),
{
    let n = targets.len();
    let pr = classification_problem(targets, c);
    let kernel = GramKernel::new(gram);
    let ghost gk = kernel;
    let solver = SolverState::new(pr.alpha, pr.linear, pr.targets, kernel, pr.bounds, params);
    let ghost sview_targets = solver.targets();
    let ghost sview_bounds = solver.bounds();
    let ghost sview_linear = solver.linear();
    let ghost sview_n = solver.n();
    let sol = solver.solve();
    let mut coefs: Vec<i128> = Vec::new();
    let mut t: usize = 0;
    while t < n
        invariant
            t <= n,
            n == targets@.len(),
            n <= MAX_SAMPLES,
            sol.alpha@.len() == n,
            0 < c <= PENALTY_LIMIT,
            forall|k: int| 0 <= k < n ==> 0 <= #[trigger] sol.alpha@[k] <= c,
            coefs@.len() == t,
            targets@.len() == n,
            forall|k: int| 0 <= k < t ==> mag(#[trigger] coefs@[k] as int) <= c,
            forall|k: int|
                0 <= k < t ==> #[trigger] coefs@[k] as int == (if targets@[k] {
                    sol.alpha@[k] as int
                } else {
                    -(sol.alpha@[k] as int)
                }),
        decreases n - t,
    {
        let a: i128 = if targets[t] {
            sol.alpha[t]
        } else {
            -sol.alpha[t]
        };
        coefs.push(a);
        t = t + 1;
    }
    let model = Svm::from_coefficients(&coefs, sol.rho, sol.exit_reason, sol.iterations);
    proof {
        assert forall|k: int| 0 <= k < model.coefs().len() implies mag(
            #[trigger] model.coefs()[k] as int,
        ) <= c by {
            let u = model.indices()[k] as int;
            assert(model.coefs()[k] == coefs@[u]);
            assert(mag(coefs@[u] as int) <= c);
        };
        assert(sview_targets =~= targets@);
        assert(sview_bounds =~= const_seq(c, n as int));
        assert(coefs@ =~= signed_seq(targets@, sol.alpha@));
        assert(forall|t: int| 0 <= t < n ==> 0 <= #[trigger] sol.alpha@[t] <= c);
        assert(identity_gram(&gk, gram@, n as int));
        assert(forall|k: int| 0 <= k < n ==> #[trigger] sview_linear[k] as int == -SCALE);
        assert(Seq::new(sview_n, |k: int| true) =~= Seq::new(n as nat, |k: int| true));
        assert(classification_fit_post(&model, gram@, targets@, c, params));
    }
    model
}

} // verus!
