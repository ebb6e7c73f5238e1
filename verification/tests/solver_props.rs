//! Properties of the solver loop observed step by step: the box constraint
//! after every update, the non-increasing dual objective, determinism of a
//! whole fit, and shrinking being a performance choice rather than a
//! behavioral one.
use linfa::fixed::SCALE;
use linfa::kernel::GramKernel;
use linfa::regression::{SvmParams, epsilon_problem};
use linfa::solver::{SolverParams, SolverState, SolverStatus, StepOutcome};

fn scale(x: f64) -> i128 {
    (x * SCALE as f64).round() as i128
}

fn linspace(lo: f64, hi: f64, n: usize) -> Vec<f64> {
    let mut out: Vec<f64> = Vec::new();
    for i in 0..n {
        out.push(lo + (hi - lo) * (i as f64) / ((n - 1) as f64));
    }
    out
}

fn linear_gram(xs: &[f64]) -> Vec<Vec<i128>> {
    let mut gram: Vec<Vec<i128>> = Vec::new();
    for a in xs {
        let mut row: Vec<i128> = Vec::new();
        for b in xs {
            row.push(scale(a * b));
        }
        gram.push(row);
    }
    gram
}

fn gaussian_gram(xs: &[f64], eps: f64) -> Vec<Vec<i128>> {
    let mut gram: Vec<Vec<i128>> = Vec::new();
    for a in xs {
        let mut row: Vec<i128> = Vec::new();
        for b in xs {
            let d2: f64 = (a - b) * (a - b);
            row.push(scale((-d2 / eps).exp()));
        }
        gram.push(row);
    }
    gram
}

fn line_solver(n: usize, c: f64, eps: f64, tol: i128, max_iter: usize) -> SolverState {
    let xs = linspace(0.0, 10.0, n);
    let gram = linear_gram(&xs);
    let targets: Vec<i128> = xs.iter().map(|x| scale(*x)).collect();
    let pr = epsilon_problem(&targets, scale(c), scale(eps));
    let kernel = GramKernel::doubled(gram);
    let params = SolverParams { tol, max_iter, shrinking: false };
    SolverState::new(pr.alpha, pr.linear, pr.targets, kernel, pr.bounds, params)
}

#[test]
fn box_constraint_holds_after_every_update() {
    let c: i128 = scale(2.0);
    let mut state = line_solver(25, 2.0, 0.01, scale(0.001), 2000);
    let mut steps: usize = 0;
    while matches!(state.status(), SolverStatus::Running) && state.iterations() < 2000 {
        let _ = state.step();
        steps += 1;
        for a in state.alpha().iter() {
            assert!(0 <= *a && *a <= c);
        }
    }
    assert!(steps > 0);
}

#[test]
fn dual_objective_never_increases() {
    let mut state = line_solver(25, 2.0, 0.01, scale(0.001), 2000);
    let mut prev: i128 = state.objective();
    let mut updates: usize = 0;
    while matches!(state.status(), SolverStatus::Running) && state.iterations() < 2000 {
        match state.step() {
            StepOutcome::Updated { .. } => {
                updates += 1;
                let cur: i128 = state.objective();
                assert!(
                    cur <= prev,
                    "objective rose from {} to {} at update {}",
                    prev,
                    cur,
                    updates
                );
                prev = cur;
            }
            StepOutcome::Restored => {
                // the gradients were recomputed from scratch, so re-read
                // the objective before judging the next update
                prev = state.objective();
            }
            StepOutcome::Converged => break,
        }
    }
    assert!(updates > 0);
}

#[test]
fn rho_falls_back_to_the_bound_midpoint() {
    // One sample, zero band, zero initial coefficients: both dual
    // variables sit at their lower bound, so the bias is the midpoint of
    // the two bound-vector gradients.  With target 1 the gradients are
    // -1 and +1 (whole units), and both sign-weighted values are -1.
    let targets: Vec<i128> = vec![scale(1.0)];
    let pr = epsilon_problem(&targets, scale(1.0), 0);
    let kernel = GramKernel::doubled(vec![vec![scale(1.0)]]);
    let params = SolverParams { tol: scale(0.001), max_iter: 100, shrinking: false };
    let state = SolverState::new(pr.alpha, pr.linear, pr.targets, kernel, pr.bounds, params);

    assert_eq!(state.calculate_rho(), -scale(1.0));
    assert_eq!(state.objective(), 0);
}

#[test]
fn identical_inputs_give_bit_identical_fits() {
    let xs = linspace(0.0, 10.0, 60);
    let targets: Vec<i128> = xs.iter().map(|x| scale(*x)).collect();
    let params = SolverParams { tol: scale(0.001), max_iter: 20_000, shrinking: true };

    let first = SvmParams::new(params)
        .c_eps(scale(2.0), scale(0.01))
        .fit_regression(linear_gram(&xs), &targets)
        .unwrap();
    let second = SvmParams::new(params)
        .c_eps(scale(2.0), scale(0.01))
        .fit_regression(linear_gram(&xs), &targets)
        .unwrap();

    assert_eq!(first.rho(), second.rho());
    assert_eq!(first.support_indices(), second.support_indices());
    assert_eq!(first.support_coefficients(), second.support_coefficients());
    assert_eq!(first.iterations(), second.iterations());
}

#[test]
fn shrinking_changes_performance_not_the_answer() {
    let xs = linspace(0.0, 10.0, 100);
    let gram = gaussian_gram(&xs, 10.0);
    let targets: Vec<i128> = xs.iter().map(|x| scale(*x)).collect();
    let tol: i128 = scale(0.0005);

    let with_shrinking = SvmParams::new(SolverParams { tol, max_iter: 50_000, shrinking: true })
        .nu_eps(scale(2.0), scale(0.2))
        .fit_regression(gram.clone(), &targets)
        .unwrap();
    let without = SvmParams::new(SolverParams { tol, max_iter: 50_000, shrinking: false })
        .nu_eps(scale(2.0), scale(0.2))
        .fit_regression(gram, &targets)
        .unwrap();

    let slack: i128 = scale(0.01);
    assert!((with_shrinking.rho() - without.rho()).abs() <= slack);

    let mut dense_a: Vec<i128> = vec![0; xs.len()];
    for (k, t) in with_shrinking.support_indices().iter().enumerate() {
        dense_a[*t] = with_shrinking.support_coefficients()[k];
    }
    let mut dense_b: Vec<i128> = vec![0; xs.len()];
    for (k, t) in without.support_indices().iter().enumerate() {
        dense_b[*t] = without.support_coefficients()[k];
    }
    for t in 0..xs.len() {
        assert!((dense_a[t] - dense_b[t]).abs() <= slack);
    }
    // Both runs pass the sweep threshold, so shrinking really engaged.
    assert!(without.iterations() > 1000);
}
