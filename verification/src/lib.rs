//! Escape-time fractals rendered as terminal text.
//!
//! The crate holds the decisions of the renderer: which formula a name
//! selects, how a viewport becomes a grid of samples, how often a formula is
//! applied, when a magnitude counts as bounded, and which glyph a cell gets.
//! Complex arithmetic itself is left to the caller, who hands magnitudes and
//! scaled bounds over as IEEE 754 bit patterns.
pub mod binary64;
pub mod driver;
pub mod error;
pub mod evaluator;
pub mod raster;
pub mod registry;
pub mod sampler;
