//! Verified core of a monospace text renderer: a plain-text bitmap-font
//! decoder, a character grid that maps typed text to atlas cells, and exact
//! rational quad geometry for the glyph mesh handed to a rendering backend.

use vstd::prelude::*;

pub mod frac;
pub mod geometry;
pub mod grid;
pub mod image;
pub mod mesh;
