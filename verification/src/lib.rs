//! Optimizers, learning-rate schedules and layers for neural networks.
//!
//! Everything is written over an arithmetic that the caller chooses
//! ([`number`]), and every contract says which operations are carried out on which
//! numbers, and in which order.

pub mod activation;
pub mod backend;
pub mod batch_norm;
pub mod dict;
pub mod error;
pub mod fixed;
pub mod layout;
pub mod linear;
pub mod module;
pub mod norm;
pub mod normalization;
pub mod number;
pub mod optim;
pub mod padding;
pub mod pixel_shuffle;
pub mod pooling;
pub mod tensor;
pub mod text;
