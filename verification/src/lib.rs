//! Compiles vector icon assets into themed, multi-resolution bitmap icon packs.
//!
//! The pipeline classifies the paths of a vector icon into semantic layer
//! roles (primary / secondary / overlay), resolves the most specific fill for
//! every item by walking its hierarchical tag path, and renders the full
//! cross-product of palettes, themes, categories, scales and items into PNG
//! images, stopping at the first failure.

pub mod classify;
pub mod dict;
pub mod mappings;
pub mod orchestrate;
pub mod palette;
pub mod reflect;
pub mod render;
pub mod resolve;
pub mod strutil;
pub mod svg;
pub mod tags;
pub mod taxonomy;
