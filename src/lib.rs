//! Offline asset compiler: turns a resource manifest and its asset texts into a
//! packed binary container plus matching C header and source text.
pub mod container;
pub mod palette;
pub mod resources;
pub mod text;
