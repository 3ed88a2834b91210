//! Flattening of a hierarchical layout library into filled Gerber regions.
//!
//! `layout` holds the library of named structures, `flatten` resolves
//! structure references into one flat `Pattern` per layer, and `gerber`
//! turns a pattern into the plotter's command stream and its bytes.
pub mod flatten;
pub mod geometry;
pub mod gerber;
pub mod layout;
