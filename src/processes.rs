use vstd::prelude::*;

verus! {

/// Base trait for a stochastic process.
pub trait StochasticProcess {}

/// The Wiener process (standard Brownian motion): drift 0 and diffusion 1.
#[derive(Clone, Copy, Debug, PartialEq, Eq)]
pub struct Wiener {}

impl Wiener {
    /// Create a standard Wiener process.
    pub fn new() -> (r: Wiener)
        ensures
            r == (Wiener {}),
    {
        Wiener {}
    }
}

impl StochasticProcess for Wiener {}

} // verus!
