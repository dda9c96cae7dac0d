//! Converts the tree of a Markdown document into the blocks of a word
//! processor document: headings, paragraphs of styled runs, list items,
//! captioned images, and references to figures and tables.
//!
//! The conversion takes two passes over the tree. The first
//! ([`image_reference_collector`]) numbers the figures and tables; the second
//! ([`emitter`]) builds the document and resolves every reference
//! ([`references`]) against all that the first has collected, so that a
//! reference may stand before what it refers to. [`parser`] runs the two in
//! order.
//!
//! The library reads no files and writes none: the caller hands it the tree
//! ([`node`]) and the image files, and packs the [`document`] that comes back.
//! It prints nothing either: what a pass meets and goes on from, such as a key
//! defined twice, it hands out as [`diagnostics`].

pub mod diagnostics;
pub mod document;
pub mod emitter;
pub mod image_reference_collector;
pub mod json;
pub mod metadata;
pub mod node;
pub mod parser;
pub mod references;
pub mod text;
pub mod traverser;
