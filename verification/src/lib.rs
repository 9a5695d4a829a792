//! Sampling a Möbius strip surface on an exact parameter grid.
//!
//! Parameter values are carried as integers over a caller-chosen power-of-two
//! scale, so the spacing of a generated range and the layout of the sampling
//! grid are exact and fully specified. Converting the scaled values to
//! machine reals and evaluating the trigonometric coordinate formulas is the
//! caller's side of the boundary.

pub mod grid;
pub mod output;
pub mod range;
