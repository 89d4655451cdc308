//! A small supervised-learning toolkit: dataset loading and preparation for a
//! single-hidden-layer backpropagation network and a single-layer perceptron.
//!
//! This crate holds the verified data pipeline: the MNIST-style byte-stream
//! readers, the tabular (CSV) row parser, the seeded shuffle and the
//! train/test split, together with the dataset helpers (class counting,
//! one-hot targets) that the classifier is built on.

pub mod dataset;
pub mod error;
pub mod fisher_iris;
pub mod mnist;
pub mod parse;
pub mod sampling;
