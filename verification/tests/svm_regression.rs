//! Regression fits on precomputed kernels: the classic line fits, in both
//! formulations, judged by mean squared error in real units.
use linfa::fixed::SCALE;
use linfa::model::Svm;
use linfa::regression::SvmParams;
use linfa::solver::SolverParams;

fn scale(x: f64) -> i128 {
    (x * SCALE as f64).round() as i128
}

fn unscale(v: i128) -> f64 {
    v as f64 / SCALE as f64
}

fn linspace(lo: f64, hi: f64, n: usize) -> Vec<f64> {
    let mut out: Vec<f64> = Vec::new();
    for i in 0..n {
        out.push(lo + (hi - lo) * (i as f64) / ((n - 1) as f64));
    }
    out
}

fn gaussian_gram(xs: &[f64], eps: f64) -> Vec<Vec<i128>> {
    let mut gram: Vec<Vec<i128>> = Vec::new();
    for a in xs {
        let mut row: Vec<i128> = Vec::new();
        for b in xs {
            let d2: f64 = (a - b) * (a - b);
            row.push(scale((-d2 / eps).exp()));
        }
        gram.push(row);
    }
    gram
}

fn linear_gram(xs: &[f64]) -> Vec<Vec<i128>> {
    let mut gram: Vec<Vec<i128>> = Vec::new();
    for a in xs {
        let mut row: Vec<i128> = Vec::new();
        for b in xs {
            row.push(scale(a * b));
        }
        gram.push(row);
    }
    gram
}

fn default_params() -> SolverParams {
    SolverParams { tol: scale(0.001), max_iter: 50_000, shrinking: false }
}

/// Predict every sample with `kernel(x_i, x)` evaluations against the
/// support vectors, and return the mean squared error against `targets`.
fn mse(model: &Svm, xs: &[f64], targets: &[f64], gaussian: Option<f64>) -> f64 {
    let idx = model.support_indices().clone();
    let mut total: f64 = 0.0;
    for (i, x) in xs.iter().enumerate() {
        let mut kvals: Vec<i128> = Vec::new();
        for t in idx.iter() {
            let k: f64 = match gaussian {
                Some(eps) => {
                    let d2: f64 = (xs[*t] - x) * (xs[*t] - x);
                    (-d2 / eps).exp()
                }
                None => xs[*t] * x,
            };
            kvals.push(scale(k));
        }
        let pred: f64 = unscale(model.decision_value(&kvals));
        let err: f64 = pred - targets[i];
        total += err * err;
    }
    total / xs.len() as f64
}

#[test]
fn test_linear_epsilon_regression() {
    let target = linspace(0.0, 10.0, 100);
    let gram = gaussian_gram(&target, 50.0);
    let targets_scaled: Vec<i128> = target.iter().map(|t| scale(*t)).collect();

    let model = SvmParams::new(default_params())
        .nu_eps(scale(2.0), scale(0.01))
        .fit_regression(gram, &targets_scaled)
        .unwrap();

    assert!(mse(&model, &target, &target, Some(50.0)) < 1e-2);
}

#[test]
fn test_linear_nu_regression() {
    let target = linspace(0.0, 10.0, 100);
    let gram = gaussian_gram(&target, 50.0);
    let targets_scaled: Vec<i128> = target.iter().map(|t| scale(*t)).collect();

    let model = SvmParams::new(default_params())
        .nu_eps(scale(2.0), scale(0.01))
        .fit_regression(gram, &targets_scaled)
        .unwrap();

    assert!(mse(&model, &target, &target, Some(50.0)) < 1e-2);
}

#[test]
fn test_regression_linear_kernel() {
    // simple 2d straight line
    let targets = linspace(0.0, 10.0, 100);
    let gram = linear_gram(&targets);
    let targets_scaled: Vec<i128> = targets.iter().map(|t| scale(*t)).collect();

    // Test the precomputed dot product in the linear kernel case
    let model = SvmParams::new(default_params())
        .nu_eps(scale(2.0), scale(0.01))
        .fit_regression(gram, &targets_scaled)
        .unwrap();

    assert!(mse(&model, &targets, &targets, None) < 1e-2);
}

#[test]
fn epsilon_fit_on_line_within_iteration_cap() {
    // Linear kernel, 100 points on y = x over [0, 10], epsilon formulation
    // with C = 2 and eps = 0.01: converges within 1000 updates and fits.
    let xs = linspace(0.0, 10.0, 100);
    let gram = linear_gram(&xs);
    let targets_scaled: Vec<i128> = xs.iter().map(|t| scale(*t)).collect();
    let params = SolverParams { tol: scale(0.001), max_iter: 1000, shrinking: false };

    let model = SvmParams::new(params)
        .c_eps(scale(2.0), scale(0.01))
        .fit_regression(gram, &targets_scaled)
        .unwrap();

    assert!(matches!(model.exit_reason(), linfa::error::ExitReason::ReachedThreshold));
    assert!(model.iterations() <= 1000);
    assert!(mse(&model, &xs, &xs, None) < 1e-2);
}

#[test]
fn zero_band_epsilon_fit_doubles_back_to_plain_regression() {
    // With eps = 0 the doubled formulation reduces to an ordinary fit:
    // y = 2x over [0, 10] with C = 10 leaves mean squared residual below 1e-2.
    let xs = linspace(0.0, 10.0, 100);
    let targets: Vec<f64> = xs.iter().map(|x| 2.0 * x).collect();
    let gram = linear_gram(&xs);
    let targets_scaled: Vec<i128> = targets.iter().map(|t| scale(*t)).collect();

    let model = SvmParams::new(default_params())
        .c_eps(scale(10.0), 0)
        .fit_regression(gram, &targets_scaled)
        .unwrap();

    assert!(mse(&model, &xs, &targets, None) < 1e-2);
}
