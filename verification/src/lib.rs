//! A verified pairwise-Euclidean-distance operator for a fixed-point tensor
//! model, with a forward kernel, a backward (gradient) kernel, an autodiff
//! node state machine, a kernel-binding cache, and chart configuration.

pub mod chart;
pub mod graph;
pub mod kernels;
pub mod matrix;
pub mod num;
