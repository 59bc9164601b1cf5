//! Theme lifecycle engine of a theme manager for a tiling Wayland compositor.
//!
//! The library decides; the program around it performs the file system,
//! network and process work that the decisions call for.

pub mod ansi;
pub mod identity;
pub mod text;
pub mod manifest;
pub mod index;
pub mod cache;
pub mod dots;
pub mod placement;
pub mod installed;
pub mod registry;
pub mod cli;
pub mod combined;
pub mod subtheme;
