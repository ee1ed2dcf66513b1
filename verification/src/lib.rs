//! Structural core of a small gravitational many-body simulation with
//! tapering comet trails.
//!
//! Everything here is independent of the number type: scalars are carried as
//! values of a type parameter `T`, and the floating-point kernels (force law,
//! integrator stages, curve geometry) are supplied by the caller.  What this
//! crate fixes, and proves, is the shape of the computation: how the state is
//! traversed, how the trail history is sampled and bounded, and in which
//! order the ribbon outline is emitted.

pub mod body;
pub mod canvas;
pub mod console;
pub mod helper;
pub mod physics;
pub mod system;
pub mod vector;
