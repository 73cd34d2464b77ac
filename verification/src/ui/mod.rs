//! What is drawn, and where: geometry, texts and glyphs.
pub mod card;
pub mod format;
pub mod gpu;
pub mod graph;
pub mod layout;
pub mod line;
pub mod procs;
pub mod screen;
