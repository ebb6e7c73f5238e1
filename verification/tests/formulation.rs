//! Exact checks on the problem formulations, the solution extractor, the
//! error surface, and the small configuration types.
use linfa::classification::{classification_problem, fit_classification};
use linfa::error::SvmResult;
use linfa::fixed::SCALE;
use linfa::kernel::GramKernel;
use linfa::model::Svm;
use linfa::pca::PcaParams;
use linfa::regression::{SvmParams, epsilon_problem, nu_problem};
use linfa::solver::SolverParams;
use linfa::trees::SplitQuality;
use linfa::error::ExitReason;

fn scale(x: f64) -> i128 {
    (x * SCALE as f64).round() as i128
}

fn default_params() -> SolverParams {
    SolverParams { tol: scale(0.001), max_iter: 50_000, shrinking: false }
}

#[test]
fn epsilon_problem_builds_the_doubled_dual() {
    let targets: Vec<i128> = vec![scale(1.0), scale(-2.0)];
    let c: i128 = scale(2.0);
    let eps: i128 = scale(0.01);
    let pr = epsilon_problem(&targets, c, eps);

    assert_eq!(pr.alpha, vec![0, 0, 0, 0]);
    assert_eq!(pr.bounds, vec![c, c, c, c]);
    assert_eq!(pr.targets, vec![true, true, false, false]);
    assert_eq!(
        pr.linear,
        vec![eps - scale(1.0), eps - scale(-2.0), eps + scale(1.0), eps + scale(-2.0)]
    );
}

#[test]
fn nu_problem_distributes_the_whole_budget() {
    let targets: Vec<i128> = vec![scale(1.0), scale(2.0), scale(3.0), scale(4.0), scale(5.0)];
    let n: i128 = 5;
    let c: i128 = scale(2.0);
    let nu: i128 = scale(0.5);
    let pr = nu_problem(&targets, c, nu);

    let budget: i128 = (c * nu * n) / (2 * SCALE);
    let capacity: i128 = n * c;
    let expected: i128 = 2 * budget.min(capacity);
    let total: i128 = pr.alpha.iter().sum();
    assert_eq!(total, expected);

    // The greedy distribution pins each entry: c while the budget lasts,
    // then the remainder, then zero, mirrored on both halves.
    assert_eq!(pr.alpha[0], c);
    assert_eq!(pr.alpha[1], budget - c);
    assert_eq!(pr.alpha[2], 0);
    assert_eq!(pr.alpha[3], 0);
    assert_eq!(pr.alpha[4], 0);
    for i in 0..5usize {
        assert_eq!(pr.alpha[i + 5], pr.alpha[i]);
    }
    assert_eq!(pr.linear[0], -scale(1.0));
    assert_eq!(pr.linear[5], scale(1.0));
}

#[test]
fn nu_problem_budget_with_single_sample() {
    let targets: Vec<i128> = vec![scale(3.0)];
    let c: i128 = scale(1.0);
    let nu: i128 = scale(1.0);
    let pr = nu_problem(&targets, c, nu);

    let budget: i128 = (c * nu * 1) / (2 * SCALE);
    let total: i128 = pr.alpha.iter().sum();
    assert_eq!(total, 2 * budget.min(c));
    assert_eq!(pr.alpha, vec![budget, budget]);
}

#[test]
fn classification_problem_uses_unit_linear_term() {
    let labels: Vec<bool> = vec![true, false, true];
    let c: i128 = scale(1.5);
    let pr = classification_problem(&labels, c);

    assert_eq!(pr.alpha, vec![0, 0, 0]);
    assert_eq!(pr.linear, vec![-SCALE, -SCALE, -SCALE]);
    assert_eq!(pr.targets, labels);
    assert_eq!(pr.bounds, vec![c, c, c]);
}

#[test]
fn missing_parameters_is_reported() {
    let targets: Vec<i128> = vec![scale(1.0), scale(2.0)];
    let gram: Vec<Vec<i128>> = vec![vec![SCALE, 0], vec![0, SCALE]];
    let r = SvmParams::new(default_params()).fit_regression(gram, &targets);
    assert!(matches!(r, Err(SvmResult::MissingParameters)));
}

#[test]
fn shape_mismatch_is_reported() {
    let targets: Vec<i128> = vec![scale(1.0), scale(2.0)];
    let wide: Vec<Vec<i128>> = vec![vec![SCALE, 0, 0], vec![0, SCALE, 0]];
    let r = SvmParams::new(default_params()).c_eps(scale(1.0), 0).fit_regression(wide, &targets);
    assert!(matches!(r, Err(SvmResult::ShapeMismatch)));

    let short: Vec<Vec<i128>> = vec![vec![SCALE, 0], vec![0, SCALE], vec![0, 0]];
    let r2 = SvmParams::new(default_params()).c_eps(scale(1.0), 0).fit_regression(short, &targets);
    assert!(matches!(r2, Err(SvmResult::ShapeMismatch)));
}

#[test]
fn extractor_keeps_exactly_the_nonzero_coefficients() {
    let coefs: Vec<i128> = vec![2 * SCALE, 0, -3 * SCALE, 0];
    let rho: i128 = SCALE / 2;
    let model = Svm::from_coefficients(&coefs, rho, ExitReason::ReachedThreshold, 7);

    assert_eq!(model.support_indices(), &vec![0usize, 2usize]);
    assert_eq!(model.support_coefficients(), &vec![2 * SCALE, -3 * SCALE]);
    assert_eq!(model.rho(), rho);
    assert_eq!(model.iterations(), 7);

    // decision = (2 * 1) + (-3 * 1) - 1/2 = -3/2, all in whole units.
    let kvals: Vec<i128> = vec![SCALE, SCALE];
    assert_eq!(model.decision_value(&kvals), -SCALE - SCALE / 2);
}

#[test]
fn doubled_kernel_folds_the_index_space() {
    let gram: Vec<Vec<i128>> = vec![vec![scale(1.0), scale(0.5)], vec![scale(0.5), scale(2.0)]];
    let k = GramKernel::doubled(gram);
    assert_eq!(k.len(), 4);
    assert_eq!(k.eval(0, 1), scale(0.5));
    assert_eq!(k.eval(2, 3), scale(0.5));
    assert_eq!(k.eval(0, 3), scale(0.5));
    assert_eq!(k.eval(1, 1), scale(2.0));
    assert_eq!(k.diag_entry(3), scale(2.0));
}

#[test]
fn separable_labels_are_classified() {
    let xs: Vec<f64> = vec![-2.0, -1.0, 1.0, 2.0];
    let labels: Vec<bool> = vec![false, false, true, true];
    let mut gram: Vec<Vec<i128>> = Vec::new();
    for a in &xs {
        let mut row: Vec<i128> = Vec::new();
        for b in &xs {
            row.push(scale(a * b));
        }
        gram.push(row);
    }
    let model = fit_classification(default_params(), gram, &labels, scale(1.0));

    for (i, x) in xs.iter().enumerate() {
        let mut kvals: Vec<i128> = Vec::new();
        for t in model.support_indices().iter() {
            kvals.push(scale(xs[*t] * x));
        }
        let d: i128 = model.decision_value(&kvals);
        assert_eq!(d > 0, labels[i]);
    }
}

#[test]
fn empty_problem_fits_to_an_empty_model() {
    let targets: Vec<i128> = Vec::new();
    let gram: Vec<Vec<i128>> = Vec::new();
    let model = SvmParams::new(default_params())
        .c_eps(scale(1.0), 0)
        .fit_regression(gram, &targets)
        .unwrap();
    assert!(model.support_indices().is_empty());
    assert_eq!(model.rho(), 0);
    assert!(matches!(model.exit_reason(), ExitReason::ReachedThreshold));
}

#[test]
fn pca_params_remember_the_embedding_size() {
    let params = PcaParams::new(3);
    assert_eq!(params.embedding_size(), 3);
}

#[test]
fn split_quality_variants_are_distinct() {
    assert!(SplitQuality::Gini != SplitQuality::Entropy);
    assert_eq!(SplitQuality::Gini, SplitQuality::Gini);
}
