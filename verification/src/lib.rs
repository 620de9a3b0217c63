//! A verified PDF parser and page-geometry pipeline.
//!
//! The crate turns the raw bytes of a PDF file into renderable 2-D geometry:
//! it reconstructs the cross-reference table, decodes indirect objects into a
//! typed object tree, parses page content streams into painting operators, and
//! drives a graphics state machine that accumulates path events for a
//! downstream tessellator.
//!
//! All quantities that the file format expresses as decimal reals are held
//! in fixed-point micro-units (millionths), so every computation is exact
//! integer arithmetic with verified bounds.
//!
//! A loaded document is immutable, so no mutating accessors exist; and
//! text-string bytes pass through to the consumer undecoded, since glyph
//! and text-encoding work sits with the renderer downstream.

pub mod color;
pub mod content;
pub mod debug_text;
pub mod document;
pub mod draw_state;
pub mod error;
pub mod geom;
pub mod graphics_state;
pub mod numbers;
pub mod object;
pub mod parse;
pub mod path_builder;
pub mod pdf;
pub mod scan;
pub mod shared;
pub mod strings;
pub mod tessellation;
pub mod utils;
pub mod xref;

use vstd::prelude::*;

verus! {

/// Object number of an indirect PDF object.
pub type ObjectNumber = u32;

/// Generation number of an indirect PDF object.
pub type GenerationNumber = u16;

/// Identifier of an indirect object: object number and generation number.
pub type ObjectId = (u32, u16);

} // verus!
