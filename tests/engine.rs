use stochastic_processes::integrator::{
    build_path, check_bounds, check_milstein, integrate, simulate_euler_maruyama,
    simulate_milstein, time_grid, NormalSource, SimulationError,
};
use stochastic_processes::path::SimulatedPath;
use stochastic_processes::processes::{StochasticProcess, Wiener};

/// Seeded normal increments: a 64-bit LCG and the Box-Muller transform.
struct SeededNormal {
    state: u64,
}

impl SeededNormal {
    fn new(seed: u64) -> Self {
        SeededNormal { state: seed }
    }

    fn uniform(&mut self) -> f64 {
        self.state = self
            .state
            .wrapping_mul(6364136223846793005)
            .wrapping_add(1442695040888963407);
        ((self.state >> 11) as f64 + 0.5) / ((1u64 << 53) as f64)
    }

    fn standard_normal(&mut self) -> f64 {
        let u1 = self.uniform();
        let u2 = self.uniform();
        (-2.0 * u1.ln()).sqrt() * (2.0 * std::f64::consts::PI * u2).cos()
    }
}

impl NormalSource<f64> for SeededNormal {
    fn next_batch(&mut self, n: usize) -> Vec<f64> {
        (0..n).map(|_| self.standard_normal()).collect()
    }
}

/// Hands out a fixed batch, and counts the requests.
struct Fixed(Vec<f64>, usize);

impl NormalSource<f64> for Fixed {
    fn next_batch(&mut self, n: usize) -> Vec<f64> {
        assert_eq!(n, self.0.len());
        self.1 += 1;
        self.0.clone()
    }
}

/// Fails the test if it is ever asked for increments.
struct Untouchable;

impl NormalSource<f64> for Untouchable {
    fn next_batch(&mut self, _n: usize) -> Vec<f64> {
        panic!("the increment source was queried")
    }
}

fn euler(
    drift: impl Fn(f64) -> f64,
    diffusion: impl Fn(f64) -> f64,
) -> impl Fn(f64, f64, f64, f64) -> f64 {
    move |t, t_next, x, dw| x + drift(x) * (t_next - t) + diffusion(x) * dw
}

fn milstein(
    drift: impl Fn(f64) -> f64,
    diffusion: impl Fn(f64) -> f64,
    derivative: impl Fn(f64) -> f64,
) -> impl Fn(f64, f64, f64, f64) -> f64 {
    move |t, t_next, x, dw| {
        let h = t_next - t;
        x + drift(x) * h + diffusion(x) * dw + 0.5 * diffusion(x) * derivative(x) * (dw * dw - h)
    }
}

fn scaled(dt: f64) -> impl Fn(f64) -> f64 {
    move |z| z * dt.sqrt()
}

fn grid(t_0: f64, dt: f64) -> impl Fn(usize) -> f64 {
    move |i| t_0 + dt * (i as f64)
}

#[test]
fn zero_steps_rejected() {
    assert_eq!(check_bounds(0, true), Err(SimulationError::NoSteps));
    assert_eq!(check_bounds(0, false), Err(SimulationError::NoSteps));
}

#[test]
fn empty_interval_rejected() {
    assert_eq!(check_bounds(5, false), Err(SimulationError::EmptyInterval));
}

#[test]
fn good_bounds_accepted() {
    assert_eq!(check_bounds(1, true), Ok(()));
}

#[test]
fn milstein_needs_derivative_first() {
    assert_eq!(
        check_milstein(false, 0, false),
        Err(SimulationError::MissingDiffusionDerivative)
    );
    assert_eq!(check_milstein(true, 0, true), Err(SimulationError::NoSteps));
    assert_eq!(check_milstein(true, 3, true), Ok(()));
}

#[test]
fn grid_has_exact_end_points() {
    let (t_0, t_n, n) = (0.1f64, 0.7f64, 3usize);
    let dt = (t_n - t_0) / n as f64;
    let times = time_grid(t_0, t_n, n, grid(t_0, dt));
    assert_eq!(times.len(), n + 1);
    assert_eq!(times[0], t_0);
    assert_eq!(times[n], t_n);
    for i in 0..n {
        assert!(((times[i + 1] - times[i]) - dt).abs() < 1e-12);
    }
}

#[test]
fn grid_of_one_step() {
    let times = time_grid(2.0f64, 5.0, 1, grid(2.0, 3.0));
    assert_eq!(times, vec![2.0, 5.0]);
}

#[test]
fn grid_interior_points() {
    let times = time_grid(0.0f64, 1.0, 4, grid(0.0, 0.25));
    assert_eq!(times, vec![0.0, 0.25, 0.5, 0.75, 1.0]);
}

#[test]
fn wiener_recurrence_adds_increments() {
    let times = vec![0.0f64, 0.5, 1.0, 1.5];
    let increments = vec![0.25f64, -0.5, 1.0];
    let values = integrate(2.0, &times, &increments, euler(|_| 0.0, |_| 1.0));
    assert_eq!(values, vec![2.0, 2.25, 1.75, 2.75]);
}

#[test]
fn euler_step_exact_value() {
    // Ornstein-Uhlenbeck with theta = 2, mu = 1, sigma = 0.5 from x = 3 over h = 0.25.
    let times = vec![0.0f64, 0.25];
    let increments = vec![0.5f64];
    let values = integrate(3.0, &times, &increments, euler(|x| 2.0 * (1.0 - x), |_| 0.5));
    assert_eq!(values, vec![3.0, 2.25]);
}

#[test]
fn milstein_step_exact_value() {
    // Geometric Brownian motion with mu = 0, sigma = 1: derivative of the diffusion is 1.
    let times = vec![0.0f64, 0.5];
    let increments = vec![0.5f64];
    let values = integrate(1.0, &times, &increments, milstein(|_| 0.0, |x| x, |_| 1.0));
    // 1 + 0.5 + 0.5 * (0.25 - 0.5)
    assert_eq!(values, vec![1.0, 1.375]);
}

#[test]
fn wiener_variance_matches_interval() {
    let mut source = SeededNormal::new(7);
    let (t_0, t_n, n) = (0.0f64, 2.0f64, 40usize);
    let dt = (t_n - t_0) / n as f64;
    let runs = 4000;
    let mut ends = Vec::new();
    for _ in 0..runs {
        let path = simulate_euler_maruyama(
            0.5, t_0, t_n, n, t_0 < t_n, &mut source, scaled(dt), grid(t_0, dt),
            euler(|_| 0.0, |_| 1.0),
        )
        .unwrap();
        ends.push(path.value(n) - 0.5);
    }
    let mean = ends.iter().sum::<f64>() / runs as f64;
    let var = ends.iter().map(|e| (e - mean) * (e - mean)).sum::<f64>() / (runs - 1) as f64;
    assert!((var - (t_n - t_0)).abs() < 0.2, "variance {}", var);
}

#[test]
fn seeded_runs_are_identical() {
    let run = || {
        let mut source = SeededNormal::new(42);
        simulate_euler_maruyama(
            1.0f64, 0.0, 1.0, 25, true, &mut source, scaled(0.04), grid(0.0, 0.04),
            euler(|x| 0.3 * x, |x| 0.2 * x),
        )
        .unwrap()
    };
    let a = run();
    let b = run();
    assert_eq!(a.len(), b.len());
    for i in 0..a.len() {
        assert_eq!(a.point(i).0.to_bits(), b.point(i).0.to_bits());
        assert_eq!(a.point(i).1.to_bits(), b.point(i).1.to_bits());
    }
}

#[test]
fn milstein_equals_euler_for_zero_derivative() {
    let increments = vec![0.3f64, -0.7, 0.1, 1.2, -0.4];
    let drift = |x: f64| 1.5 * (0.2 - x);
    let a = build_path(0.8, 0.0, 1.0, 5, &increments, grid(0.0, 0.2), euler(drift, |_| 0.4));
    let b = build_path(
        0.8, 0.0, 1.0, 5, &increments, grid(0.0, 0.2),
        milstein(drift, |_| 0.4, |_| 0.0),
    );
    assert_eq!(a.values(), b.values());
    assert_eq!(a.times(), b.times());
}

#[test]
fn gbm_scenario() {
    let increments = vec![0.1f64, -0.2, 0.3, -0.1, 0.05, 0.2, -0.3, 0.1, 0.0, -0.05];
    let mut source = Fixed(increments, 0);
    let (t_0, t_n, n) = (0.0f64, 1.0f64, 10usize);
    let dt = (t_n - t_0) / n as f64;
    let path = simulate_euler_maruyama(
        1.0, t_0, t_n, n, t_0 < t_n, &mut source, scaled(dt), grid(t_0, dt),
        euler(|x| 0.0 * x, |x| 1.0 * x),
    )
    .unwrap();
    assert_eq!(path.len(), 11);
    assert_eq!(path.point(0), (0.0, 1.0));
    assert_eq!(path.time(10), 1.0);
    assert!(path.values().iter().all(|v| v.is_finite()));
    assert!((path.value(1) - (1.0 + 0.1 * 0.1f64.sqrt())).abs() < 1e-12);
    assert_eq!(source.1, 1);
}

#[test]
fn zero_steps_never_draws() {
    let r = simulate_euler_maruyama(
        1.0f64, 0.0, 1.0, 0, true, &mut Untouchable, scaled(f64::INFINITY), grid(0.0, 0.0),
        euler(|_| 0.0, |_| 1.0),
    );
    assert_eq!(r.err(), Some(SimulationError::NoSteps));
    let r = simulate_milstein(
        true, 1.0f64, 0.0, 1.0, 0, true, &mut Untouchable, scaled(f64::INFINITY), grid(0.0, 0.0),
        milstein(|_| 0.0, |x| x, |_| 1.0),
    );
    assert_eq!(r.err(), Some(SimulationError::NoSteps));
}

#[test]
fn backward_interval_never_draws() {
    let r = simulate_euler_maruyama(
        1.0f64, 1.0, 0.5, 4, 1.0 < 0.5, &mut Untouchable, scaled(-0.125), grid(1.0, -0.125),
        euler(|_| 0.0, |_| 1.0),
    );
    assert_eq!(r.err(), Some(SimulationError::EmptyInterval));
}

#[test]
fn milstein_without_derivative_never_draws() {
    let r = simulate_milstein(
        false, 1.0f64, 0.0, 1.0, 4, true, &mut Untouchable, scaled(0.25), grid(0.0, 0.25),
        milstein(|_| 0.0, |_| 1.0, |_| 0.0),
    );
    assert_eq!(r.err(), Some(SimulationError::MissingDiffusionDerivative));
}

#[test]
fn milstein_simulation_runs() {
    let mut source = Fixed(vec![0.5, -0.5], 0);
    let path = simulate_milstein(
        true, 1.0f64, 0.0, 1.0, 2, true, &mut source, |z: f64| z, grid(0.0, 0.5),
        milstein(|_| 0.0, |x| x, |_| 1.0),
    )
    .unwrap();
    assert_eq!(path.values(), &vec![1.0, 1.375, 1.375 - 0.6875 + 1.375 * 0.5 * (0.25 - 0.5)]);
    assert_eq!(path.times(), &vec![0.0, 0.5, 1.0]);
}

#[test]
fn draws_are_scaled_by_root_of_step() {
    let mut source = Fixed(vec![1.0, -2.0], 0);
    let path = simulate_euler_maruyama(
        3.0f64, 0.0, 0.5, 2, true, &mut source, scaled(0.25), grid(0.0, 0.25),
        euler(|_| 0.0, |_| 1.0),
    )
    .unwrap();
    assert_eq!(path.values(), &vec![3.0, 3.5, 2.5]);
    assert_eq!(source.1, 1);
}

#[test]
fn path_parts_round_trip() {
    let path = SimulatedPath::from_parts(vec![0u32, 1, 2], vec![10u32, 11, 12]);
    assert_eq!(path.len(), 3);
    assert_eq!(path.point(1), (1, 11));
    assert_eq!(path.time(2), 2);
    assert_eq!(path.value(0), 10);
    let (t, v) = path.into_parts();
    assert_eq!(t, vec![0, 1, 2]);
    assert_eq!(v, vec![10, 11, 12]);
}

#[test]
fn wiener_is_a_process() {
    fn takes<P: StochasticProcess>(_p: &P) -> bool {
        true
    }
    let w = Wiener::new();
    assert_eq!(w, Wiener {});
    assert!(takes(&w));
}
