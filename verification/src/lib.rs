//! A small machine-learning toolkit whose core is a kernelized support
//! vector machine trainer: the dual quadratic program is solved by
//! sequential minimal optimization (SMO) over scaled-integer arithmetic,
//! with the box constraint on every dual coefficient proved to hold after
//! every update.
pub mod classification;
pub mod error;
pub mod fixed;
pub mod kernel;
pub mod model;
pub mod pca;
pub mod regression;
pub mod solver;
pub mod trees;
