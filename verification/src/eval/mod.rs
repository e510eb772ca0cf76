//! Evaluation features of single board positions.

pub mod features;
pub mod simple;
pub mod score;
pub mod deep;
