//! Glyph outline, component resolution, modal hosting and save sequencing
//! logic of a font editor, with their contracts.

pub mod outline;
pub mod font;
pub mod modal;
pub mod save;
