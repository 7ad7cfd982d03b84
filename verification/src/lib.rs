//! Random walks on a grid: transition kernels, the dynamic program that
//! propagates them through time, and the walkers that sample paths from it.
//!
//! A [`kernel::Kernel`] holds the weights of one step.  A dynamic program
//! ([`dp`]) holds, for every time up to its time limit, the probability of
//! being at each cell of a grid around the origin; it is put together by
//! [`dp::builder::DynamicProgramBuilder`], filled by `compute`, and can be
//! saved and restored ([`dp::store`]).  A walker ([`walker`]) goes back
//! through a computed program from a target to the origin and returns the
//! way as a [`walk::Walk`].
//!
//! Probabilities are kept as 64-bit words whose meaning is given by an
//! [`arithmetic::Arithmetic`], and the random draws of the walkers are made
//! by a [`walker::Sampler`].  Everything that the library computes is stated
//! over these two, and holds for each of their implementations.

pub mod arithmetic;
pub mod dataset;
pub mod dp;
pub mod grid;
pub mod kernel;
pub mod walk;
pub mod walker;
