//! Sequence-based spatially balanced sampling: the integer core of the
//! exact-area GRTS sampler (scrambled Sobol points, Morton codes, quadtree
//! partitioning and ranking).

pub mod bits;
pub mod hash;
pub mod morton;
pub mod sobol;
pub mod ranking;
pub mod sampler;
pub mod shape;
pub mod clip;
pub mod quadtree;
pub mod balance;
pub mod wkb_layout;
pub mod frame;
