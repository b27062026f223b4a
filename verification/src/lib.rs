//! Geometric and interaction core of a hex-grid virtual tabletop.
//!
//! The crate is organised around these pieces:
//! - [`hex`]: axial hex coordinates with exact rational interpolation and
//!   cube rounding;
//! - [`cell`]: cells and their two-layer (committed/display) color model;
//! - [`grid`]: the cell set, the coordinate/pixel transform and the
//!   line/box/neighbour queries;
//! - [`draw`]: the pointer-gesture state machine that paints cells and
//!   previews ("hints") pending gestures;
//! - [`token`]: token data and the breadth-first placement search that
//!   assigns tokens to free cells;
//! - [`initiative_tracker`]: turn-order data and turn-change detection.
//!
//! All pixel positions and interpolation parameters are held as exact
//! fixed-point integers, so every geometric statement below is a theorem
//! rather than an approximation.

pub mod cell;
pub mod draw;
pub mod grid;
pub mod hex;
pub mod initiative_tracker;
pub mod token;
