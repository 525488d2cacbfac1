//! Cell styling for column-oriented tables: colour arithmetic, per-cell style
//! state and HTML rendering.
pub mod colors;
pub mod error;
pub mod fixed;
pub mod gradient;
pub mod html;
pub mod normalize;
pub mod renderer;
pub mod styler;
pub mod text;
pub mod text_map;
