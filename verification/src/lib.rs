//! A small block-flow layout engine: cascade a stylesheet onto a document
//! tree, build the tree of boxes, and solve the geometry of block boxes.
//! Lengths are whole pixels.

pub mod css;
pub mod dom;
pub mod table;
pub mod style;
pub mod geometry;
pub mod layout;
pub mod boxtree;
pub mod painting;
pub mod html;
pub mod canvas;
