//! A small layout engine for a simplified CSS box model.
//!
//! A styled document tree is turned into a tree of boxes, the vertical margins
//! of adjoining boxes are collapsed, every box receives its geometry, and the
//! result is flattened into a list of paint commands.

pub mod css;
pub mod dom;
pub mod floats;
pub mod geometry;
pub mod html;
pub mod layout;
pub mod paint;
pub mod scan;
pub mod style;
