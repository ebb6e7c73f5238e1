//! Support vector regression: the epsilon and nu formulations of the dual
//! problem, and the fit entry points that run the solver on them.
//!
//! Both formulations double the sample count: each sample contributes one
//! dual variable pushing its prediction up and one pushing it down, coupled
//! through the linear term.  The doubling lives here; the solver sees an
//! ordinary `2n`-variable dual problem.
use vstd::prelude::*;

use crate::error::SvmResult;
use crate::fixed::{
    KERNEL_LIMIT, LINEAR_LIMIT, MAX_SAMPLES, PENALTY_LIMIT, SCALE, lemma_mul_mag, lemma_sum_push,
    lemma_tdiv_mag, mag, min_int, sum_of,
};
use crate::error::ExitReason;
use crate::kernel::GramKernel;
use crate::model::Svm;
use crate::solver::{SolverParams, SolverState, below_tolerance, kernel_sum, rho_of};

verus! {

/// A formulated dual problem: initial coefficients, linear term, sign
/// vector, and per-variable box ceilings, all of one length.
pub struct DualProblem {
    /// Initial dual coefficients.
    pub alpha: Vec<i128>,
    /// Linear term of the dual objective.
    pub linear: Vec<i128>,
    /// Sign of each dual variable (`true` is the positive half).
    pub targets: Vec<bool>,
    /// Box ceiling of each dual variable.
    pub bounds: Vec<i128>,
}

/// The total coefficient budget the nu formulation starts from:
/// `c * nu * n / 2`, with one de-scaling for the product of two scaled
/// values.
pub open spec fn nu_budget(c: int, nu: int, n: int) -> int {
    (c * nu * n) / (2 * (SCALE as int))
}

/// The initial nu coefficient at index `i`: the greedy distribution of the
/// budget hands out `c` per index until it runs dry.
pub open spec fn nu_alpha_at(budget: int, c: int, i: int) -> int {
    if budget - i * c >= c {
        c
    } else if budget - i * c >= 0 {
        budget - i * c
    } else {
        0
    }
}

/// The sign vector of a doubled regression dual: the first `n` dual
/// variables form the positive half, the second `n` the negative half.
pub open spec fn signs_seq(n: int) -> Seq<bool> {
    Seq::new((2 * n) as nat, |i: int| i < n)
}

/// A constant sequence of `m` copies of `c`.
pub open spec fn const_seq(c: i128, m: int) -> Seq<i128> {
    Seq::new(m as nat, |i: int| c)
}

/// The collapse of a doubled dual solution back onto the samples:
/// entry `t` is `sol[t] - sol[n + t]`.
pub open spec fn collapse_seq(sol: Seq<i128>, n: int) -> Seq<i128> {
    Seq::new(n as nat, |t: int| (sol[t] - sol[n + t]) as i128)
}

/// The linear term of the epsilon formulation: `eps - y_i` on the
/// positive half, `eps + y_i` on the negative half.
pub open spec fn epsilon_linear(target: Seq<i128>, eps: i128) -> Seq<i128> {
    Seq::new(
        (2 * target.len()) as nat,
        |i: int|
            if i < target.len() {
                (eps - target[i]) as i128
            } else {
                (eps + target[i - target.len()]) as i128
            },
    )
}

/// The linear term of the nu formulation: `-y_i` on the positive half,
/// `y_i` on the negative half.
pub open spec fn nu_linear(target: Seq<i128>) -> Seq<i128> {
    Seq::new(
        (2 * target.len()) as nat,
        |i: int|
            if i < target.len() {
                (-(target[i] as int)) as i128
            } else {
                target[i - target.len()]
            },
    )
}

/// Whether `kern` serves the doubled index space of the square matrix
/// `gram` of side `n`: dual indices `i` and `i + n` both read row/column
/// `i` of `gram`.
pub open spec fn doubled_gram(kern: &GramKernel, gram: Seq<Vec<i128>>, n: int) -> bool {
    &&& kern.wf()
    &&& kern.size() == 2 * n
    &&& forall|i: int| 0 <= i < n ==> kern.map_at(i) == i
    &&& forall|i: int| n <= i < 2 * n ==> kern.map_at(i) == i - n
    &&& forall|i: int, j: int|
        0 <= i < 2 * n && 0 <= j < 2 * n ==> #[trigger] kern.entry_at(i, j) == gram[kern.map_at(
            i,
        )]@[kern.map_at(j)] as int
}

/// What a regression fit guarantees beyond well-formedness: the model is
/// the sparse extraction of the collapse of a box-feasible solution of
/// the doubled dual over `gram` with linear term `linear`, its bias
/// follows the free-average / bound-midpoint rule on the final gradients,
/// the iteration cap is reported exactly, and a threshold exit means the
/// solution satisfies the stopping criterion on the full index set with
/// gradients recomputed from scratch.
pub open spec fn regression_fit_post(
    model: &Svm,
    gram: Seq<Vec<i128>>,
    target: Seq<i128>,
    linear: Seq<i128>,
    c: i128,
    params: SolverParams,
) -> bool {
    let n = target.len() as int;
    exists|kern: GramKernel, sol: Seq<i128>, g: Seq<i128>|
        {
            &&& #[trigger] doubled_gram(&kern, gram, n)
            &&& #[trigger] sol.len() == 2 * n
            &&& #[trigger] g.len() == 2 * n
            &&& (forall|t: int| 0 <= t < 2 * n ==> 0 <= #[trigger] sol[t] <= c)
            &&& model.extraction_of(collapse_seq(sol, n))
            &&& model.bias() as int == rho_of(signs_seq(n), g, sol, const_seq(c, 2 * n), 2 * n)
            &&& (model.reason() == ExitReason::ReachedIterations ==> model.updates()
                == params.max_iter)
            &&& (model.reason() == ExitReason::ReachedThreshold ==> (forall|k: int|
                0 <= k < 2 * n ==> #[trigger] g[k] as int == linear[k] + kernel_sum(
                    &kern,
                    signs_seq(n),
                    sol,
                    k,
                    2 * n,
                )) && below_tolerance(
                signs_seq(n),
                g,
                sol,
                const_seq(c, 2 * n),
                Seq::new((2 * n) as nat, |k: int| true),
                2 * n,
                params.tol as int,
            ))
        }
}

/// Formulate the epsilon-SVR dual: zero initial coefficients, linear term
/// `eps - y_i` on the positive half and `eps + y_i` on the negative half,
/// and a shared box ceiling `c`.
pub fn epsilon_problem(target: &Vec<i128>, c: i128, eps: i128) -> (pr: DualProblem)
    requires
        2 * target@.len() <= MAX_SAMPLES,
        0 < c <= PENALTY_LIMIT,
        0 <= eps,
        forall|i: int|
            0 <= i < target@.len() ==> mag(#[trigger] target@[i] as int) + eps <= LINEAR_LIMIT,
    ensures
        pr.alpha@.len() == 2 * target@.len(),
        pr.linear@.len() == 2 * target@.len(),
        pr.targets@.len() == 2 * target@.len(),
        pr.bounds@.len() == 2 * target@.len(),
        forall|i: int| 0 <= i < 2 * target@.len() ==> #[trigger] pr.alpha@[i] == 0i128,
        forall|i: int| 0 <= i < 2 * target@.len() ==> #[trigger] pr.bounds@[i] == c,
        forall|i: int|
            0 <= i < target@.len() ==> #[trigger] pr.linear@[i] as int == eps - target@[i],
        forall|i: int|
            target@.len() <= i < 2 * target@.len() ==> #[trigger] pr.linear@[i] as int == eps
                + target@[i - target@.len()],
        forall|i: int| 0 <= i < target@.len() ==> #[trigger] pr.targets@[i],
        forall|i: int| target@.len() <= i < 2 * target@.len() ==> !(#[trigger] pr.targets@[i]),
{
    let n = target.len();
    let mut alpha: Vec<i128> = Vec::new();
    let mut linear: Vec<i128> = Vec::new();
    let mut targets: Vec<bool> = Vec::new();
    let mut bounds: Vec<i128> = Vec::new();
    let mut i: usize = 0;
    while i < n
        invariant
            i <= n,
            n == target@.len(),
            0 <= eps,
            forall|k: int| 0 <= k < n ==> mag(#[trigger] target@[k] as int) + eps <= LINEAR_LIMIT,
            alpha@.len() == i,
            linear@.len() == i,
            targets@.len() == i,
            bounds@.len() == i,
            forall|k: int| 0 <= k < i ==> #[trigger] alpha@[k] == 0i128,
            forall|k: int| 0 <= k < i ==> #[trigger] bounds@[k] == c,
            forall|k: int| 0 <= k < i ==> #[trigger] linear@[k] as int == eps - target@[k],
            forall|k: int| 0 <= k < i ==> #[trigger] targets@[k],
        decreases n - i,
    {
        proof {
            assert(mag(target@[i as int] as int) + eps <= LINEAR_LIMIT);
        }
        alpha.push(0);
        linear.push(eps - target[i]);
        targets.push(true);
        bounds.push(c);
        i = i + 1;
    }
    let mut i: usize = 0;
    while i < n
        invariant
            i <= n,
            n == target@.len(),
            0 <= eps,
            forall|k: int| 0 <= k < n ==> mag(#[trigger] target@[k] as int) + eps <= LINEAR_LIMIT,
            alpha@.len() == n + i,
            linear@.len() == n + i,
            targets@.len() == n + i,
            bounds@.len() == n + i,
            forall|k: int| 0 <= k < n + i ==> #[trigger] alpha@[k] == 0i128,
            forall|k: int| 0 <= k < n + i ==> #[trigger] bounds@[k] == c,
            forall|k: int| 0 <= k < n ==> #[trigger] linear@[k] as int == eps - target@[k],
            forall|k: int| 0 <= k < n ==> #[trigger] targets@[k],
            forall|k: int| 0 <= k < i ==> #[trigger] linear@[n + k] as int == eps + target@[k],
            forall|k: int| 0 <= k < i ==> !(#[trigger] targets@[n + k]),
        decreases n - i,
    {
        proof {
            assert(mag(target@[i as int] as int) + eps <= LINEAR_LIMIT);
        }
        alpha.push(0);
        linear.push(eps + target[i]);
        targets.push(false);
        bounds.push(c);
        i = i + 1;
    }
    proof {
        assert forall|k: int| n <= k < 2 * n implies #[trigger] linear@[k] as int == eps
            + target@[k - n] by {
            assert(linear@[n + (k - n)] as int == eps + target@[k - n]);
        };
        assert forall|k: int| n <= k < 2 * n implies !(#[trigger] targets@[k]) by {
            assert(!targets@[n + (k - n)]);
        };
    }
    DualProblem { alpha, linear, targets, bounds }
}

/// Formulate the nu-SVR dual: linear term `-y_i` / `y_i`, a shared box
/// ceiling `c`, and a non-trivial initial coefficient vector that
/// distributes the budget `c * nu * n / 2` greedily over each half, so the
/// total initial coefficient mass is `min(2 * budget, 2 * n * c)`.
pub fn nu_problem(target: &Vec<i128>, c: i128, nu: i128) -> (pr: DualProblem)
    requires
        2 * target@.len() <= MAX_SAMPLES,
        0 < c <= PENALTY_LIMIT,
        0 < nu <= SCALE,
        forall|i: int| 0 <= i < target@.len() ==> mag(#[trigger] target@[i] as int) <= LINEAR_LIMIT,
    ensures
        pr.alpha@.len() == 2 * target@.len(),
        pr.linear@.len() == 2 * target@.len(),
        pr.targets@.len() == 2 * target@.len(),
        pr.bounds@.len() == 2 * target@.len(),
        forall|i: int| 0 <= i < 2 * target@.len() ==> #[trigger] pr.bounds@[i] == c,
        forall|i: int|
            0 <= i < target@.len() ==> #[trigger] pr.linear@[i] as int == -(target@[i] as int),
        forall|i: int|
            target@.len() <= i < 2 * target@.len() ==> #[trigger] pr.linear@[i] as int
                == target@[i - target@.len()] as int,
        forall|i: int| 0 <= i < target@.len() ==> #[trigger] pr.targets@[i],
        forall|i: int| target@.len() <= i < 2 * target@.len() ==> !(#[trigger] pr.targets@[i]),
        forall|i: int|
            0 <= i < target@.len() ==> #[trigger] pr.alpha@[i] as int == nu_alpha_at(
                nu_budget(c as int, nu as int, target@.len() as int),
                c as int,
                i,
            ),
        forall|i: int|
            target@.len() <= i < 2 * target@.len() ==> #[trigger] pr.alpha@[i] == pr.alpha@[i
                - target@.len()],
        forall|i: int| 0 <= i < 2 * target@.len() ==> 0 <= #[trigger] pr.alpha@[i] <= c,
        sum_of(pr.alpha@) == 2 * min_int(
            nu_budget(c as int, nu as int, target@.len() as int),
            target@.len() * c,
        ),
{
    let n = target.len();
    proof {
        lemma_mul_mag(c as int, nu as int, PENALTY_LIMIT as int, SCALE as int);
        lemma_mul_mag(
            c as int * nu as int,
            n as int,
            PENALTY_LIMIT as int * SCALE as int,
            MAX_SAMPLES as int,
        );
        lemma_tdiv_mag(
            c as int * nu as int * n as int,
            2 * (SCALE as int),
            PENALTY_LIMIT as int * SCALE as int * MAX_SAMPLES as int,
        );
        assert(c as int * nu as int >= 0) by (nonlinear_arith)
            requires
                c >= 0,
                nu >= 0,
        ;
        assert(c as int * nu as int * n as int >= 0) by (nonlinear_arith)
            requires
                c as int * nu as int >= 0,
                n as int >= 0,
        ;
    }
    let budget: i128 = (c * nu * (n as i128)) / (2 * SCALE);
    let mut alpha: Vec<i128> = Vec::new();
    let mut linear: Vec<i128> = Vec::new();
    let mut targets: Vec<bool> = Vec::new();
    let mut bounds: Vec<i128> = Vec::new();
    let mut rem: i128 = budget;
    let mut i: usize = 0;
    while i < n
        invariant
            i <= n,
            n == target@.len(),
            2 * n <= MAX_SAMPLES,
            0 < c <= PENALTY_LIMIT,
            0 <= budget <= PENALTY_LIMIT * MAX_SAMPLES,
            budget == nu_budget(c as int, nu as int, n as int),
            forall|k: int| 0 <= k < n ==> mag(#[trigger] target@[k] as int) <= LINEAR_LIMIT,
            alpha@.len() == i,
            linear@.len() == i,
            targets@.len() == i,
            bounds@.len() == i,
            rem as int == if budget - i * c >= 0 {
                budget - i * c
            } else {
                0
            },
            sum_of(alpha@) == min_int(budget as int, i * c),
            forall|k: int|
                0 <= k < i ==> #[trigger] alpha@[k] as int == nu_alpha_at(
                    budget as int,
                    c as int,
                    k,
                ),
            forall|k: int| 0 <= k < i ==> 0 <= #[trigger] alpha@[k] <= c,
            forall|k: int| 0 <= k < i ==> #[trigger] bounds@[k] == c,
            forall|k: int| 0 <= k < i ==> #[trigger] linear@[k] as int == -(target@[k] as int),
            forall|k: int| 0 <= k < i ==> #[trigger] targets@[k],
        decreases n - i,
    {
        let a: i128 = if rem < c {
            rem
        } else {
            c
        };
        proof {
            lemma_sum_push(alpha@, a);
            assert((i + 1) * c == i * c + c) by (nonlinear_arith);
        }
        alpha.push(a);
        linear.push(-target[i]);
        targets.push(true);
        bounds.push(c);
        rem = rem - a;
        i = i + 1;
    }
    let mut i: usize = 0;
    while i < n
        invariant
            i <= n,
            n == target@.len(),
            2 * n <= MAX_SAMPLES,
            0 < c <= PENALTY_LIMIT,
            budget == nu_budget(c as int, nu as int, n as int),
            forall|k: int| 0 <= k < n ==> mag(#[trigger] target@[k] as int) <= LINEAR_LIMIT,
            alpha@.len() == n + i,
            linear@.len() == n + i,
            targets@.len() == n + i,
            bounds@.len() == n + i,
            sum_of(alpha@) == min_int(budget as int, n * c) + min_int(budget as int, i * c),
            forall|k: int|
                0 <= k < n ==> #[trigger] alpha@[k] as int == nu_alpha_at(
                    budget as int,
                    c as int,
                    k,
                ),
            forall|k: int| 0 <= k < i ==> #[trigger] alpha@[n + k] == alpha@[k],
            forall|k: int| 0 <= k < n + i ==> 0 <= #[trigger] alpha@[k] <= c,
            forall|k: int| 0 <= k < n + i ==> #[trigger] bounds@[k] == c,
            forall|k: int| 0 <= k < n ==> #[trigger] linear@[k] as int == -(target@[k] as int),
            forall|k: int| 0 <= k < n ==> #[trigger] targets@[k],
            forall|k: int| 0 <= k < i ==> #[trigger] linear@[n + k] as int == target@[k] as int,
            forall|k: int| 0 <= k < i ==> !(#[trigger] targets@[n + k]),
        decreases n - i,
    {
        let a = alpha[i];
        proof {
            lemma_sum_push(alpha@, a);
            assert((i + 1) * c == i * c + c) by (nonlinear_arith);
        }
        alpha.push(a);
        linear.push(target[i]);
        targets.push(false);
        bounds.push(c);
        i = i + 1;
    }
    proof {
        assert forall|k: int| n <= k < 2 * n implies #[trigger] linear@[k] as int == target@[k
            - n] as int by {
            assert(linear@[n + (k - n)] as int == target@[k - n] as int);
        };
        assert forall|k: int| n <= k < 2 * n implies !(#[trigger] targets@[k]) by {
            assert(!targets@[n + (k - n)]);
        };
        assert forall|k: int| n <= k < 2 * n implies #[trigger] alpha@[k] == alpha@[k - n] by {
            assert(alpha@[n + (k - n)] == alpha@[k - n]);
        };
    }
    DualProblem { alpha, linear, targets, bounds }
}

/// Collapse the doubled dual solution back onto the original samples:
/// the effective coefficient of sample `t` is `alpha_t - alpha_{t+n}`.
fn collapse_doubled(alpha: &Vec<i128>, n: usize, c: i128) -> (r: Vec<i128>)
    requires
        alpha@.len() == 2 * n,
        2 * n <= MAX_SAMPLES,
        0 < c <= PENALTY_LIMIT,
        forall|t: int| 0 <= t < 2 * n ==> 0 <= #[trigger] alpha@[t] <= c,
    ensures
        r@.len() == n,
        forall|t: int| 0 <= t < n ==> #[trigger] r@[t] as int == alpha@[t] - alpha@[n + t],
        forall|t: int| 0 <= t < n ==> mag(#[trigger] r@[t] as int) <= c,
{
    let mut r: Vec<i128> = Vec::new();
    let mut t: usize = 0;
    while t < n
        invariant
            t <= n,
            alpha@.len() == 2 * n,
            2 * n <= MAX_SAMPLES,
            0 < c <= PENALTY_LIMIT,
            forall|k: int| 0 <= k < 2 * n ==> 0 <= #[trigger] alpha@[k] <= c,
            r@.len() == t,
            forall|k: int| 0 <= k < t ==> #[trigger] r@[k] as int == alpha@[k] - alpha@[n + k],
            forall|k: int| 0 <= k < t ==> mag(#[trigger] r@[k] as int) <= c,
        decreases n - t,
    {
        r.push(alpha[t] - alpha[n + t]);
        t = t + 1;
    }
    r
}

/// Fit epsilon-SVR: formulate the doubled dual with tolerance band `eps`
/// and shared penalty `c`, solve it, and extract the sparse model.  Every
/// support-vector coefficient lies within `[-c, c]` and refers to one of
/// the `n` samples, in increasing index order.
pub fn fit_epsilon(
    params: SolverParams,
    gram: Vec<Vec<i128>>,
    target: &Vec<i128>,
    c: i128,
    p: i128,
) -> (model: Svm)
    requires
        params.wf(),
        gram@.len() == target@.len(),
        2 * target@.len() <= MAX_SAMPLES,
        forall|i: int| 0 <= i < gram@.len() ==> #[trigger] gram@[i]@.len() == gram@.len(),
        forall|i: int, j: int|
            0 <= i < gram@.len() && 0 <= j < gram@.len() ==> mag(#[trigger] gram@[i]@[j] as int)
                <= KERNEL_LIMIT,
        0 < c <= PENALTY_LIMIT,
        0 <= p,
        forall|i: int|
            0 <= i < target@.len() ==> mag(#[trigger] target@[i] as int) + p <= LINEAR_LIMIT,
    ensures
        model.wf(),
        forall|k: int| 0 <= k < model.indices().len() ==> #[trigger] model.indices()[k]
            < target@.len(),
        forall|k: int| 0 <= k < model.coefs().len() ==> mag(#[trigger] model.coefs()[k] as int)
            <= c,
        regression_fit_post(&model, gram@, target@, epsilon_linear(target@, p), c, params),
{
    let n = target.len();
    let pr = epsilon_problem(target, c, p);
    proof {
        assert forall|k: int| 0 <= k < 2 * n implies mag(#[trigger] pr.linear@[k] as int)
            <= LINEAR_LIMIT by {
            if k < n {
                assert(pr.linear@[k] as int == p - target@[k]);
                assert(mag(target@[k] as int) + p <= LINEAR_LIMIT);
            } else {
                assert(pr.linear@[n + (k - n)] as int == p + target@[k - n]);
                assert(mag(target@[k - n] as int) + p <= LINEAR_LIMIT);
            }
        };
    }
    let kernel = GramKernel::doubled(gram);
    let ghost gk = kernel;
    let solver = SolverState::new(pr.alpha, pr.linear, pr.targets, kernel, pr.bounds, params);
    let ghost sview_targets = solver.targets();
    let ghost sview_bounds = solver.bounds();
    let ghost sview_linear = solver.linear();
    let ghost sview_n = solver.n();
    let sol = solver.solve();
    let coefs = collapse_doubled(&sol.alpha, n, c);
    let model = Svm::from_coefficients(&coefs, sol.rho, sol.exit_reason, sol.iterations);
    proof {
        assert forall|k: int| 0 <= k < model.coefs().len() implies mag(
            #[trigger] model.coefs()[k] as int,
        ) <= c by {
            let t = model.indices()[k] as int;
            assert(model.coefs()[k] == coefs@[t]);
            assert(mag(coefs@[t] as int) <= c);
        };
        let np2: int = 2 * (n as int);
        assert(sview_targets =~= signs_seq(n as int));
        assert(sview_bounds =~= const_seq(c, np2));
        assert(sview_linear =~= epsilon_linear(target@, p));
        assert(coefs@ =~= collapse_seq(sol.alpha@, n as int));
        assert(forall|t: int| 0 <= t < np2 ==> 0 <= #[trigger] sol.alpha@[t] <= c);
        assert(doubled_gram(&gk, gram@, n as int));
        assert(Seq::new(sview_n, |k: int| true) =~= Seq::new(np2 as nat, |k: int| true));
        assert(regression_fit_post(&model, gram@, target@, epsilon_linear(target@, p), c, params));
    }
    model
}

/// Fit nu-SVR: formulate the doubled dual with the budgeted initial
/// coefficients, solve it, and extract the sparse model.  The guarantees
/// mirror `fit_epsilon`.
pub fn fit_nu(
    params: SolverParams,
    gram: Vec<Vec<i128>>,
    target: &Vec<i128>,
    c: i128,
    nu: i128,
) -> (model: Svm)
    requires
        params.wf(),
        gram@.len() == target@.len(),
        2 * target@.len() <= MAX_SAMPLES,
        forall|i: int| 0 <= i < gram@.len() ==> #[trigger] gram@[i]@.len() == gram@.len(),
        forall|i: int, j: int|
            0 <= i < gram@.len() && 0 <= j < gram@.len() ==> mag(#[trigger] gram@[i]@[j] as int)
                <= KERNEL_LIMIT,
        0 < c <= PENALTY_LIMIT,
        0 < nu <= SCALE,
        forall|i: int| 0 <= i < target@.len() ==> mag(#[trigger] target@[i] as int) <= LINEAR_LIMIT,
    ensures
        model.wf(),
        forall|k: int| 0 <= k < model.indices().len() ==> #[trigger] model.indices()[k]
            < target@.len(),
        forall|k: int| 0 <= k < model.coefs().len() ==> mag(#[trigger] model.coefs()[k] as int)
            <= c,
        regression_fit_post(&model, gram@, target@, nu_linear(target@), c, params),
{
    let n = target.len();
    let pr = nu_problem(target, c, nu);
    proof {
        assert forall|k: int| 0 <= k < 2 * n implies mag(#[trigger] pr.linear@[k] as int)
            <= LINEAR_LIMIT by {
            if k < n {
                assert(pr.linear@[k] as int == -(target@[k] as int));
                assert(mag(target@[k] as int) <= LINEAR_LIMIT);
            } else {
                assert(pr.linear@[n + (k - n)] as int == target@[k - n] as int);
                assert(mag(target@[k - n] as int) <= LINEAR_LIMIT);
            }
        };
    }
    let kernel = GramKernel::doubled(gram);
    let ghost gk = kernel;
    let solver = SolverState::new(pr.alpha, pr.linear, pr.targets, kernel, pr.bounds, params);
    let ghost sview_targets = solver.targets();
    let ghost sview_bounds = solver.bounds();
    let ghost sview_linear = solver.linear();
    let ghost sview_n = solver.n();
    let sol = solver.solve();
    let coefs = collapse_doubled(&sol.alpha, n, c);
    let model = Svm::from_coefficients(&coefs, sol.rho, sol.exit_reason, sol.iterations);
    proof {
        assert forall|k: int| 0 <= k < model.coefs().len() implies mag(
            #[trigger] model.coefs()[k] as int,
        ) <= c by {
            let t = model.indices()[k] as int;
            assert(model.coefs()[k] == coefs@[t]);
            assert(mag(coefs@[t] as int) <= c);
        };
        let np2: int = 2 * (n as int);
        assert(sview_targets =~= signs_seq(n as int));
        assert(sview_bounds =~= const_seq(c, np2));
        assert(sview_linear =~= nu_linear(target@));
        assert(coefs@ =~= collapse_seq(sol.alpha@, n as int));
        assert(forall|t: int| 0 <= t < np2 ==> 0 <= #[trigger] sol.alpha@[t] <= c);
        assert(doubled_gram(&gk, gram@, n as int));
        assert(Seq::new(sview_n, |k: int| true) =~= Seq::new(np2 as nat, |k: int| true));
        assert(regression_fit_post(&model, gram@, target@, nu_linear(target@), c, params));
    }
    model
}

/// Whether `gram` is a square matrix of side `n`.
pub open spec fn gram_matches(gram: Seq<Vec<i128>>, n: int) -> bool {
    &&& gram.len() == n
    &&& forall|i: int| 0 <= i < n ==> #[trigger] gram[i]@.len() == n
}

/// Hyperparameters of a regression training call: exactly one of the
/// epsilon pair `(c, eps)` and the nu pair `(c, nu)` should be set, plus
/// the solver's convergence controls.
#[derive(Clone, Copy, Debug)]
pub struct SvmParams {
    /// Penalty and tolerance band for the epsilon formulation.
    pub c: Option<(i128, i128)>,
    /// Penalty and support-vector fraction for the nu formulation.
    pub nu: Option<(i128, i128)>,
    /// Convergence controls handed to the solver.
    pub solver_params: SolverParams,
}

impl SvmParams {
    /// An empty parameter set: a formulation must be chosen before fitting.
    pub fn new(solver_params: SolverParams) -> (r: SvmParams)
        ensures
            r.c.is_none(),
            r.nu.is_none(),
            r.solver_params == solver_params,
    {
        SvmParams { c: None, nu: None, solver_params }
    }

    /// Select the epsilon formulation with penalty `c` and band `eps`.
    pub fn c_eps(self, c: i128, eps: i128) -> (r: SvmParams)
        ensures
            r.c == Some((c, eps)),
            r.nu.is_none(),
            r.solver_params == self.solver_params,
    {
        SvmParams { c: Some((c, eps)), nu: None, solver_params: self.solver_params }
    }

    /// Select the nu formulation with penalty `c` and fraction `nu`.
    pub fn nu_eps(self, c: i128, nu: i128) -> (r: SvmParams)
        ensures
            r.nu == Some((c, nu)),
            r.c.is_none(),
            r.solver_params == self.solver_params,
    {
        SvmParams { c: None, nu: Some((c, nu)), solver_params: self.solver_params }
    }

    /// Train on a precomputed Gram matrix and continuous targets.
    ///
    /// Fails with `ShapeMismatch` exactly when `gram` is not a square
    /// matrix matching the number of targets, and with
    /// `MissingParameters` exactly when the shape is fine but neither
    /// formulation was selected; otherwise the selected formulation is
    /// fitted and returned.
    pub fn fit_regression(&self, gram: Vec<Vec<i128>>, target: &Vec<i128>) -> (r: Result<
        Svm,
        SvmResult,
    >)
        requires
            self.solver_params.wf(),
                2 * target@.len() <= MAX_SAMPLES,
            forall|i: int, j: int|
                0 <= i < gram@.len() && 0 <= j < gram@[i]@.len() ==> mag(
                    #[trigger] gram@[i]@[j] as int,
                ) <= KERNEL_LIMIT,
            self.c matches Some((cv, eps)) ==> 0 < cv <= PENALTY_LIMIT && 0 <= eps && forall|
                i: int,
            |
                0 <= i < target@.len() ==> mag(#[trigger] target@[i] as int) + eps <= LINEAR_LIMIT,
            self.c.is_none() ==> (self.nu matches Some((cv, nu)) ==> 0 < cv <= PENALTY_LIMIT && 0
                < nu <= SCALE && forall|i: int|
                0 <= i < target@.len() ==> mag(#[trigger] target@[i] as int) <= LINEAR_LIMIT),
        ensures
            r.is_err() <==> (!gram_matches(gram@, target@.len() as int) || (self.c.is_none()
                && self.nu.is_none())),
            r == Result::<Svm, SvmResult>::Err(SvmResult::ShapeMismatch) <==> !gram_matches(
                gram@,
                target@.len() as int,
            ),
            r == Result::<Svm, SvmResult>::Err(SvmResult::MissingParameters) <==> (gram_matches(
                gram@,
                target@.len() as int,
            ) && self.c.is_none() && self.nu.is_none()),
            r matches Ok(m) ==> ({
                &&& m.wf()
                &&& forall|k: int|
                    0 <= k < m.indices().len() ==> #[trigger] m.indices()[k] < target@.len()
                &&& (self.c matches Some((cv, eps)) ==> regression_fit_post(
                    &m,
                    gram@,
                    target@,
                    epsilon_linear(target@, eps),
                    cv,
                    self.solver_params,
                ) && forall|k: int|
                    0 <= k < m.coefs().len() ==> mag(#[trigger] m.coefs()[k] as int) <= cv)
                &&& (self.c.is_none() ==> (self.nu matches Some((cv, nuv))
                    ==> regression_fit_post(
                    &m,
                    gram@,
                    target@,
                    nu_linear(target@),
                    cv,
                    self.solver_params,
                ) && forall|k: int|
                    0 <= k < m.coefs().len() ==> mag(#[trigger] m.coefs()[k] as int) <= cv))
            }),
    {
        let n = target.len();
        if gram.len() != n {
            return Err(SvmResult::ShapeMismatch);
        }
        let mut i: usize = 0;
        while i < n
            invariant
                i <= n,
                n == target@.len(),
                gram@.len() == n,
                forall|k: int| 0 <= k < i ==> #[trigger] gram@[k]@.len() == n,
            decreases n - i,
        {
            if gram[i].len() != n {
                return Err(SvmResult::ShapeMismatch);
            }
            i = i + 1;
        }
        match self.c {
            Some((cv, eps)) => Ok(fit_epsilon(self.solver_params, gram, target, cv, eps)),
            None => match self.nu {
                Some((cv, nu)) => Ok(fit_nu(self.solver_params, gram, target, cv, nu)),
                None => Err(SvmResult::MissingParameters),
            },
        }
    }
}

} // verus!
