//! The rewriting core of a streaming HTML rewriter: a bounded output buffer,
//! validation of tag and attribute names, a case-insensitive attribute store,
//! content insertion around elements, and the rendering of a mutated element.
pub mod buffer;
pub mod encoding;
pub mod name;
pub mod attributes;
pub mod content;
pub mod element;
pub mod render;
