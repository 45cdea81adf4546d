//! Simulation of sample paths of scalar stochastic differential equations
//! `dx = drift(t, x) dt + diffusion(t, x) dW`.
//!
//! The library holds the integration engine: the checks on the simulation
//! bounds, the uniform time grid with its exact end points, and the step
//! recurrence that Euler-Maruyama and Milstein share. It is generic over the
//! number type of the path, so the arithmetic of a scheme and the Gaussian
//! draws are supplied by the caller.

pub mod integrator;
pub mod path;
pub mod processes;
