//! Semi-supervised label propagation on dense weighted graphs.
//!
//! Given the weights of a graph and the labels of a few of its nodes, a model
//! spreads the labels along the edges and scores every label at every node.
//! Two models are offered: [`CAMLP`], confidence-aware modulated label
//! propagation, and [`LGC`], label propagation with local and global
//! consistency. Both are generic over the [`Scalar`] that weights and scores
//! are held in; [`Fixed`] is one that is exact integer arithmetic throughout.

pub mod camlp;
pub mod dense;
pub mod error;
pub mod fixed;
pub mod lgc;
pub mod matrix;
pub mod model;
pub mod propagate;
pub mod scalar;
pub mod seed;

pub use camlp::CAMLP;
pub use error::PropagationError;
pub use fixed::Fixed;
pub use lgc::LGC;
pub use matrix::Matrix;
pub use scalar::{NonNegativeClosed, Scalar};
