//! A character-grid drawing editor: a sparse grid of characters edited through a
//! cursor, the key bindings and input modes that drive it, the code-based entry of
//! box-drawing glyphs, and the frame buffer into which the grid is rendered.

pub mod canvas;
pub mod chars;
pub mod editor;
pub mod keymap;
pub mod pragmata_pro_input;
pub mod text_area;
