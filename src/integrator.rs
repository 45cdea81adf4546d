use vstd::prelude::*;
use crate::path::{SimulatedPath, times_of, values_of};

verus! {

/// Why a simulation produced no path.
#[derive(Clone, Copy, Debug, PartialEq, Eq)]
pub enum SimulationError {
    /// The step count is zero.
    NoSteps,
    /// The end time does not lie after the start time.
    EmptyInterval,
    /// Milstein was asked of a model that supplies no diffusion derivative.
    MissingDiffusionDerivative,
}

/// The random source of one simulation: independent standard normal draws,
/// which the simulation scales into Wiener increments.
pub trait NormalSource<T> {
    /// Draws `n` independent samples of the standard normal distribution.
    fn next_batch(&mut self, n: usize) -> (r: Vec<T>)
        ensures
            r@.len() == n,
    ;
}

/// `increments[i]` is an outcome of `scale` on `draws[i]`, for each `i`.
pub open spec fn is_scaled<T, C: Fn(T) -> T>(scale: C, draws: Seq<T>, increments: Seq<T>) -> bool {
    &&& increments.len() == draws.len()
    &&& forall|i: int| 0 <= i < draws.len() ==> scale.ensures((#[trigger] draws[i],), increments[i])
}

/// `times` is the uniform grid of `n` steps from `t_0` to `t_n`: both ends
/// exactly, and `grid_point(i)` at each interior index.
pub open spec fn is_time_grid<T, G: Fn(usize) -> T>(
    grid_point: G,
    t_0: T,
    t_n: T,
    n: nat,
    times: Seq<T>,
) -> bool {
    &&& times.len() == n + 1
    &&& times[0] == t_0
    &&& times[n as int] == t_n
    &&& forall|i: int| 0 < i < n ==> grid_point.ensures((i as usize,), #[trigger] times[i])
}

/// `values` starts at `x_0`, and each next value is an outcome of `step` on
/// the step's two times, the current value and the step's increment.
pub open spec fn follows_recurrence<T, F: Fn(T, T, T, T) -> T>(
    step: F,
    x_0: T,
    times: Seq<T>,
    increments: Seq<T>,
    values: Seq<T>,
) -> bool {
    &&& times.len() == increments.len() + 1
    &&& values.len() == times.len()
    &&& values[0] == x_0
    &&& forall|i: int|
        0 <= i < increments.len() ==> step.ensures(
            (times[i], times[i + 1], values[i], #[trigger] increments[i]),
            values[i + 1],
        )
}

/// `points` is the path of `n` steps from `(t_0, x_0)` to time `t_n` driven by
/// `increments`.
pub open spec fn is_simulated_path<T, G: Fn(usize) -> T, F: Fn(T, T, T, T) -> T>(
    grid_point: G,
    step: F,
    x_0: T,
    t_0: T,
    t_n: T,
    n: nat,
    increments: Seq<T>,
    points: Seq<(T, T)>,
) -> bool {
    &&& is_time_grid(grid_point, t_0, t_n, n, times_of(points))
    &&& follows_recurrence(step, x_0, times_of(points), increments, values_of(points))
}

/// `grid_point` has at most one outcome for each index.
pub open spec fn grid_is_deterministic<T, G: Fn(usize) -> T>(grid_point: G) -> bool {
    forall|i: usize, a: T, b: T|
        #[trigger] grid_point.ensures((i,), a) && #[trigger] grid_point.ensures((i,), b) ==> a == b
}

/// `step` has at most one outcome for each input.
pub open spec fn step_is_deterministic<T, F: Fn(T, T, T, T) -> T>(step: F) -> bool {
    forall|args: (T, T, T, T), a: T, b: T|
        #[trigger] step.ensures(args, a) && #[trigger] step.ensures(args, b) ==> a == b
}

/// The outcome of the checks on a step count and an interval.
pub open spec fn bounds_outcome(n: usize, forward: bool) -> Result<(), SimulationError> {
    if n == 0 {
        Err(SimulationError::NoSteps)
    } else if !forward {
        Err(SimulationError::EmptyInterval)
    } else {
        Ok(())
    }
}

/// Checks the bounds of a simulation: at least one step, and an end time after
/// the start time (`forward` is `t_0 < t_n`).
pub fn check_bounds(n: usize, forward: bool) -> (r: Result<(), SimulationError>)
    ensures
        r == bounds_outcome(n, forward),
{
    if n == 0 {
        Err(SimulationError::NoSteps)
    } else if !forward {
        Err(SimulationError::EmptyInterval)
    } else {
        Ok(())
    }
}

/// Checks what Milstein needs: a diffusion derivative, then the bounds.
pub fn check_milstein(has_derivative: bool, n: usize, forward: bool) -> (r: Result<
    (),
    SimulationError,
>)
    ensures
        !has_derivative ==> r == Err::<(), SimulationError>(
            SimulationError::MissingDiffusionDerivative,
        ),
        has_derivative ==> r == bounds_outcome(n, forward),
{
    if !has_derivative {
        Err(SimulationError::MissingDiffusionDerivative)
    } else {
        check_bounds(n, forward)
    }
}

/// Builds the time grid of `n` steps from `t_0` to `t_n`. The end points are
/// set exactly, so rounding in `grid_point` cannot move the last time away
/// from `t_n`.
pub fn time_grid<T: Copy, G: Fn(usize) -> T>(t_0: T, t_n: T, n: usize, grid_point: G) -> (r: Vec<
    T,
>)
    requires
        1 <= n < usize::MAX,
        forall|i: usize| 0 < i < n ==> #[trigger] grid_point.requires((i,)),
    ensures
        is_time_grid(grid_point, t_0, t_n, n as nat, r@),
{
    let mut times: Vec<T> = Vec::new();
    times.push(t_0);
    let mut i: usize = 1;
    while i < n
        invariant
            1 <= i <= n,
            n < usize::MAX,
            forall|j: usize| 0 < j < n ==> #[trigger] grid_point.requires((j,)),
            times@.len() == i,
            times@[0] == t_0,
            forall|j: int| 0 < j < i ==> grid_point.ensures((j as usize,), #[trigger] times@[j]),
        decreases n - i,
    {
        let t = grid_point(i);
        times.push(t);
        i = i + 1;
    }
    times.push(t_n);
    times
}

/// Runs the step recurrence: `values[0] = x_0`, and `values[i + 1]` is
/// `step(times[i], times[i + 1], values[i], increments[i])`, computed in
/// increasing `i`.
pub fn integrate<T: Copy, F: Fn(T, T, T, T) -> T>(
    x_0: T,
    times: &Vec<T>,
    increments: &Vec<T>,
    step: F,
) -> (r: Vec<T>)
    requires
        times@.len() == increments@.len() + 1,
        forall|args: (T, T, T, T)| #[trigger] step.requires(args),
    ensures
        follows_recurrence(step, x_0, times@, increments@, r@),
{
    let mut values: Vec<T> = Vec::new();
    values.push(x_0);
    let mut x = x_0;
    let mut i: usize = 0;
    while i < increments.len()
        invariant
            times@.len() == increments@.len() + 1,
            forall|args: (T, T, T, T)| #[trigger] step.requires(args),
            0 <= i <= increments@.len(),
            values@.len() == i + 1,
            values@[0] == x_0,
            x == values@[i as int],
            forall|j: int|
                0 <= j < i ==> step.ensures(
                    (times@[j], times@[j + 1], values@[j], #[trigger] increments@[j]),
                    values@[j + 1],
                ),
        decreases increments@.len() - i,
    {
        let next = step(times[i], times[i + 1], x, increments[i]);
        values.push(next);
        x = next;
        i = i + 1;
    }
    values
}

/// A path of `n` steps has `n + 1` points, starts at `(t_0, x_0)` and ends
/// at time `t_n` exactly.
pub proof fn lemma_path_ends<T, G: Fn(usize) -> T, F: Fn(T, T, T, T) -> T>(
    grid_point: G,
    step: F,
    x_0: T,
    t_0: T,
    t_n: T,
    n: nat,
    increments: Seq<T>,
    points: Seq<(T, T)>,
)
    requires
        is_simulated_path(grid_point, step, x_0, t_0, t_n, n, increments, points),
    ensures
        points.len() == n + 1,
        points[0] == (t_0, x_0),
        points[n as int].0 == t_n,
{
    assert(times_of(points)[0] == points[0].0);
    assert(values_of(points)[0] == points[0].1);
    assert(times_of(points)[n as int] == points[n as int].0);
}

/// Builds the path of `n` steps from `(t_0, x_0)` to time `t_n`, driven by
/// the given increments.
pub fn build_path<T: Copy, G: Fn(usize) -> T, F: Fn(T, T, T, T) -> T>(
    x_0: T,
    t_0: T,
    t_n: T,
    n: usize,
    increments: &Vec<T>,
    grid_point: G,
    step: F,
) -> (r: SimulatedPath<T>)
    requires
        1 <= n < usize::MAX,
        increments@.len() == n,
        forall|i: usize| 0 < i < n ==> #[trigger] grid_point.requires((i,)),
        forall|args: (T, T, T, T)| #[trigger] step.requires(args),
    ensures
        is_simulated_path(grid_point, step, x_0, t_0, t_n, n as nat, increments@, r@),
        r@.len() == n + 1,
        r@[0] == (t_0, x_0),
        r@[n as int].0 == t_n,
{
    let times = time_grid(t_0, t_n, n, grid_point);
    let values = integrate(x_0, &times, increments, step);
    let r = SimulatedPath::from_parts(times, values);
    proof {
        lemma_path_ends(grid_point, step, x_0, t_0, t_n, n as nat, increments@, r@);
    }
    r
}

/// Turns each draw into an increment through `scale`.
pub fn scale_draws<T: Copy, C: Fn(T) -> T>(draws: &Vec<T>, scale: C) -> (r: Vec<T>)
    requires
        forall|z: T| #[trigger] scale.requires((z,)),
    ensures
        is_scaled(scale, draws@, r@),
{
    let mut increments: Vec<T> = Vec::new();
    let mut i: usize = 0;
    while i < draws.len()
        invariant
            forall|z: T| #[trigger] scale.requires((z,)),
            0 <= i <= draws@.len(),
            increments@.len() == i,
            forall|j: int| 0 <= j < i ==> scale.ensures((#[trigger] draws@[j],), increments@[j]),
        decreases draws@.len() - i,
    {
        let w = scale(draws[i]);
        increments.push(w);
        i = i + 1;
    }
    increments
}

/// `points` is the path of `n` steps from `(t_0, x_0)` to time `t_n` driven by
/// the increments that `scale` makes of `draws`.
pub open spec fn is_drawn_path<
    T,
    C: Fn(T) -> T,
    G: Fn(usize) -> T,
    F: Fn(T, T, T, T) -> T,
>(
    scale: C,
    grid_point: G,
    step: F,
    x_0: T,
    t_0: T,
    t_n: T,
    n: nat,
    draws: Seq<T>,
    points: Seq<(T, T)>,
) -> bool {
    &&& draws.len() == n
    &&& exists|increments: Seq<T>|
        #[trigger] is_scaled(scale, draws, increments) && is_simulated_path(
            grid_point,
            step,
            x_0,
            t_0,
            t_n,
            n,
            increments,
            points,
        )
}

/// Draws `n` samples from the source, scales them and builds the path.
fn run<T: Copy, S: NormalSource<T>, C: Fn(T) -> T, G: Fn(usize) -> T, F: Fn(T, T, T, T) -> T>(
    x_0: T,
    t_0: T,
    t_n: T,
    n: usize,
    source: &mut S,
    scale: C,
    grid_point: G,
    step: F,
) -> (r: SimulatedPath<T>)
    requires
        1 <= n < usize::MAX,
        forall|z: T| #[trigger] scale.requires((z,)),
        forall|i: usize| 0 < i < n ==> #[trigger] grid_point.requires((i,)),
        forall|args: (T, T, T, T)| #[trigger] step.requires(args),
    ensures
        exists|draws: Seq<T>|
            #[trigger] is_drawn_path(scale, grid_point, step, x_0, t_0, t_n, n as nat, draws, r@),
        r@.len() == n + 1,
        r@[0] == (t_0, x_0),
        r@[n as int].0 == t_n,
{
    let draws = source.next_batch(n);
    let increments = scale_draws(&draws, scale);
    let path = build_path(x_0, t_0, t_n, n, &increments, grid_point, step);
    assert(is_scaled(scale, draws@, increments@));
    assert(is_drawn_path(scale, grid_point, step, x_0, t_0, t_n, n as nat, draws@, path@));
    path
}

/// Simulates a path by Euler-Maruyama. `forward` is `t_0 < t_n`, `scale(z)`
/// the increment `z * sqrt(dt)` of a standard normal draw `z` over the step
/// length `dt = (t_n - t_0) / n`, `grid_point(i)` the interior time
/// `t_0 + i * dt`, and `step(t, t_next, x, dw)` the scheme's next value
/// `x + drift * (t_next - t) + diffusion * dw`.
///
/// Bad bounds are reported before the source is asked for anything; on good
/// bounds the source is asked once, for `n` draws, and a path comes back.
pub fn simulate_euler_maruyama<
    T: Copy,
    S: NormalSource<T>,
    C: Fn(T) -> T,
    G: Fn(usize) -> T,
    F: Fn(T, T, T, T) -> T,
>(
    x_0: T,
    t_0: T,
    t_n: T,
    n: usize,
    forward: bool,
    source: &mut S,
    scale: C,
    grid_point: G,
    step: F,
) -> (r: Result<SimulatedPath<T>, SimulationError>)
    requires
        n < usize::MAX,
        forall|z: T| #[trigger] scale.requires((z,)),
        forall|i: usize| 0 < i < n ==> #[trigger] grid_point.requires((i,)),
        forall|args: (T, T, T, T)| #[trigger] step.requires(args),
    ensures
        bounds_outcome(n, forward) is Err ==> {
            &&& r is Err
            &&& r->Err_0 == bounds_outcome(n, forward)->Err_0
            &&& *final(source) == *old(source)
        },
        bounds_outcome(n, forward) is Ok ==> r is Ok,
        r is Ok ==> exists|draws: Seq<T>|
            #[trigger] is_drawn_path(
                scale,
                grid_point,
                step,
                x_0,
                t_0,
                t_n,
                n as nat,
                draws,
                r->Ok_0@,
            ),
        r is Ok ==> {
            &&& r->Ok_0@.len() == n + 1
            &&& r->Ok_0@[0] == (t_0, x_0)
            &&& r->Ok_0@[n as int].0 == t_n
        },
{
    match check_bounds(n, forward) {
        Err(e) => Err(e),
        Ok(()) => {
            let path = run(x_0, t_0, t_n, n, source, scale, grid_point, step);
            let r = Ok(path);
            assert(r->Ok_0@ == path@);
            r
        },
    }
}

/// Simulates a path by Milstein. The arguments are those of
/// `simulate_euler_maruyama`, with `step` the Milstein step
/// `x + drift * h + diffusion * dw + diffusion * diffusion' * (dw^2 - h) / 2`
/// for `h = t_next - t`, and `has_derivative` whether the model supplies the
/// derivative `diffusion'` of its diffusion in `x`.
///
/// A missing derivative, then bad bounds, are reported before the source is
/// asked for anything; otherwise the source is asked once, for `n` draws, and
/// a path comes back.
pub fn simulate_milstein<
    T: Copy,
    S: NormalSource<T>,
    C: Fn(T) -> T,
    G: Fn(usize) -> T,
    F: Fn(T, T, T, T) -> T,
>(
    has_derivative: bool,
    x_0: T,
    t_0: T,
    t_n: T,
    n: usize,
    forward: bool,
    source: &mut S,
    scale: C,
    grid_point: G,
    step: F,
) -> (r: Result<SimulatedPath<T>, SimulationError>)
    requires
        n < usize::MAX,
        forall|z: T| #[trigger] scale.requires((z,)),
        forall|i: usize| 0 < i < n ==> #[trigger] grid_point.requires((i,)),
        forall|args: (T, T, T, T)| #[trigger] step.requires(args),
    ensures
        !has_derivative ==> {
            &&& r is Err
            &&& r->Err_0 == SimulationError::MissingDiffusionDerivative
            &&& *final(source) == *old(source)
        },
        has_derivative && bounds_outcome(n, forward) is Err ==> {
            &&& r is Err
            &&& r->Err_0 == bounds_outcome(n, forward)->Err_0
            &&& *final(source) == *old(source)
        },
        has_derivative && bounds_outcome(n, forward) is Ok ==> r is Ok,
        r is Ok ==> exists|draws: Seq<T>|
            #[trigger] is_drawn_path(
                scale,
                grid_point,
                step,
                x_0,
                t_0,
                t_n,
                n as nat,
                draws,
                r->Ok_0@,
            ),
        r is Ok ==> {
            &&& r->Ok_0@.len() == n + 1
            &&& r->Ok_0@[0] == (t_0, x_0)
            &&& r->Ok_0@[n as int].0 == t_n
        },
{
    match check_milstein(has_derivative, n, forward) {
        Err(e) => Err(e),
        Ok(()) => {
            let path = run(x_0, t_0, t_n, n, source, scale, grid_point, step);
            let r = Ok(path);
            assert(r->Ok_0@ == path@);
            r
        },
    }
}

/// Each value of a recurrence run through `other` equals the one run through
/// `step`, when `step` has one outcome per input and every outcome of `other`
/// is one of `step`.
proof fn lemma_values_agree<T, F: Fn(T, T, T, T) -> T, H: Fn(T, T, T, T) -> T>(
    step: F,
    other: H,
    x_0: T,
    times: Seq<T>,
    increments: Seq<T>,
    a: Seq<T>,
    b: Seq<T>,
    k: nat,
)
    requires
        step_is_deterministic(step),
        forall|args: (T, T, T, T), y: T| #[trigger] other.ensures(args, y) ==> step.ensures(args, y),
        follows_recurrence(step, x_0, times, increments, a),
        follows_recurrence(other, x_0, times, increments, b),
        k < a.len(),
    ensures
        a[k as int] == b[k as int],
    decreases k,
{
    if k > 0 {
        let i = k - 1;
        lemma_values_agree(step, other, x_0, times, increments, a, b, i as nat);
        let w = increments[i];
        assert(step.ensures((times[i], times[i + 1], a[i], w), a[i + 1]));
        assert(other.ensures((times[i], times[i + 1], b[i], w), b[i + 1]));
    }
}

/// Two paths on the same grid agree when their recurrences do.
proof fn lemma_points_agree<T, G: Fn(usize) -> T, F: Fn(T, T, T, T) -> T, H: Fn(T, T, T, T) -> T>(
    grid_point: G,
    step: F,
    other: H,
    x_0: T,
    t_0: T,
    t_n: T,
    n: nat,
    increments: Seq<T>,
    a: Seq<(T, T)>,
    b: Seq<(T, T)>,
)
    requires
        grid_is_deterministic(grid_point),
        step_is_deterministic(step),
        forall|args: (T, T, T, T), y: T| #[trigger] other.ensures(args, y) ==> step.ensures(args, y),
        is_simulated_path(grid_point, step, x_0, t_0, t_n, n, increments, a),
        is_simulated_path(grid_point, other, x_0, t_0, t_n, n, increments, b),
    ensures
        a == b,
{
    let ta = times_of(a);
    let tb = times_of(b);
    assert forall|i: int| 0 <= i < ta.len() implies ta[i] == tb[i] by {
        if 0 < i < n {
            assert(grid_point.ensures((i as usize,), ta[i]));
            assert(grid_point.ensures((i as usize,), tb[i]));
        }
    }
    assert(ta =~= tb);
    let va = values_of(a);
    let vb = values_of(b);
    assert forall|i: int| 0 <= i < va.len() implies va[i] == vb[i] by {
        lemma_values_agree(step, other, x_0, ta, increments, va, vb, i as nat);
    }
    assert(a =~= b) by {
        assert forall|i: int| 0 <= i < a.len() implies a[i] == b[i] by {
            assert(ta[i] == tb[i] && va[i] == vb[i]);
        }
    }
}

/// Determinism: two paths built from the same start value, bounds and
/// increments, through a grid and a step that each have one outcome per
/// input, are the same path.
pub proof fn lemma_path_determined<T, G: Fn(usize) -> T, F: Fn(T, T, T, T) -> T>(
    grid_point: G,
    step: F,
    x_0: T,
    t_0: T,
    t_n: T,
    n: nat,
    increments: Seq<T>,
    a: Seq<(T, T)>,
    b: Seq<(T, T)>,
)
    requires
        grid_is_deterministic(grid_point),
        step_is_deterministic(step),
        is_simulated_path(grid_point, step, x_0, t_0, t_n, n, increments, a),
        is_simulated_path(grid_point, step, x_0, t_0, t_n, n, increments, b),
    ensures
        a == b,
{
    lemma_points_agree(grid_point, step, step, x_0, t_0, t_n, n, increments, a, b);
}

/// A step whose outcomes are those of another step gives that step's path:
/// a Milstein step whose correction term vanishes on every input, as it does
/// when the diffusion derivative is zero, yields the Euler-Maruyama path for
/// the same increments.
pub proof fn lemma_vanishing_correction<
    T,
    G: Fn(usize) -> T,
    F: Fn(T, T, T, T) -> T,
    H: Fn(T, T, T, T) -> T,
>(
    grid_point: G,
    euler: F,
    milstein: H,
    x_0: T,
    t_0: T,
    t_n: T,
    n: nat,
    increments: Seq<T>,
    a: Seq<(T, T)>,
    b: Seq<(T, T)>,
)
    requires
        grid_is_deterministic(grid_point),
        step_is_deterministic(euler),
        forall|args: (T, T, T, T), y: T|
            #[trigger] milstein.ensures(args, y) ==> euler.ensures(args, y),
        is_simulated_path(grid_point, euler, x_0, t_0, t_n, n, increments, a),
        is_simulated_path(grid_point, milstein, x_0, t_0, t_n, n, increments, b),
    ensures
        a == b,
{
    lemma_points_agree(grid_point, euler, milstein, x_0, t_0, t_n, n, increments, a, b);
}

} // verus!
