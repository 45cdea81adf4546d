use vstd::prelude::*;

verus! {

/// A simulated path: the points `(t_i, x_i)` for `i` in `0..=n`, kept as two
/// aligned sequences of times and values.
pub struct SimulatedPath<T> {
    times: Vec<T>,
    values: Vec<T>,
}

impl<T> View for SimulatedPath<T> {
    type V = Seq<(T, T)>;

    closed spec fn view(&self) -> Seq<(T, T)> {
        Seq::new(self.times@.len(), |i: int| (self.times@[i], self.values@[i]))
    }
}

/// The times of a sequence of points.
pub open spec fn times_of<T>(points: Seq<(T, T)>) -> Seq<T> {
    points.map_values(|p: (T, T)| p.0)
}

/// The values of a sequence of points.
pub open spec fn values_of<T>(points: Seq<(T, T)>) -> Seq<T> {
    points.map_values(|p: (T, T)| p.1)
}

impl<T> SimulatedPath<T> {
    #[verifier::type_invariant]
    spec fn aligned(&self) -> bool {
        self.times@.len() == self.values@.len()
    }

    /// Joins aligned sequences of times and values into a path.
    pub fn from_parts(times: Vec<T>, values: Vec<T>) -> (r: SimulatedPath<T>)
        requires
            times@.len() == values@.len(),
        ensures
            times_of(r@) == times@,
            values_of(r@) == values@,
    {
        let r = SimulatedPath { times, values };
        assert(times_of(r@) =~= r.times@);
        assert(values_of(r@) =~= r.values@);
        r
    }

    /// The number of points, `n + 1` for a path of `n` steps.
    pub fn len(&self) -> (r: usize)
        ensures
            r == self@.len(),
    {
        self.times.len()
    }

    /// The times `t_0, ..., t_n`.
    pub fn times(&self) -> (r: &Vec<T>)
        ensures
            r@ == times_of(self@),
    {
        assert(times_of(self@) =~= self.times@);
        &self.times
    }

    /// The values `x_0, ..., x_n`.
    pub fn values(&self) -> (r: &Vec<T>)
        ensures
            r@ == values_of(self@),
    {
        proof {
            use_type_invariant(self);
        }
        assert(values_of(self@) =~= self.values@);
        &self.values
    }

    /// Splits the path into its times and its values.
    pub fn into_parts(self) -> (r: (Vec<T>, Vec<T>))
        ensures
            r.0@ == times_of(self@),
            r.1@ == values_of(self@),
    {
        proof {
            use_type_invariant(&self);
        }
        assert(times_of(self@) =~= self.times@);
        assert(values_of(self@) =~= self.values@);
        (self.times, self.values)
    }
}

impl<T: Copy> SimulatedPath<T> {
    /// The point `(t_i, x_i)`.
    pub fn point(&self, i: usize) -> (r: (T, T))
        requires
            i < self@.len(),
        ensures
            r == self@[i as int],
    {
        proof {
            use_type_invariant(self);
        }
        (self.times[i], self.values[i])
    }

    /// The time `t_i`.
    pub fn time(&self, i: usize) -> (r: T)
        requires
            i < self@.len(),
        ensures
            r == self@[i as int].0,
    {
        self.times[i]
    }

    /// The value `x_i`.
    pub fn value(&self, i: usize) -> (r: T)
        requires
            i < self@.len(),
        ensures
            r == self@[i as int].1,
    {
        proof {
            use_type_invariant(self);
        }
        self.values[i]
    }
}

} // verus!
