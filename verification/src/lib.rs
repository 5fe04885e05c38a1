//! A small tensor library with reverse-mode automatic differentiation.
//!
//! Tensors are shape/stride-indexed views over flat storage; operations run
//! eagerly and append one backward step each to a recording tape; `backward`
//! on a traced scalar replays the tape in reverse and returns a gradient
//! buffer for every participating tensor, keyed by tensor identity.
//!
//! The element type is abstract: kernels are written once against the
//! `Scalar` interface, whose executable operations are pinned to spec-level
//! counterparts, so every contract states exactly which folds of which
//! elements, in which order, produced each output slot.

pub mod device;
pub mod grid;
pub mod kernels;
pub mod laws;
pub mod nn;
pub mod ops;
pub mod pool;
pub mod rng;
pub mod scalar;
pub mod shapes;
pub mod tape;
pub mod tensor;
