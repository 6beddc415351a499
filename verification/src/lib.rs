//! Card data rendered as set files for a card-design editor.
pub mod ability;
pub mod archive;
pub mod args;
pub mod card;
pub mod document;
pub mod encoding;
pub mod mana;
pub mod read_back;
pub mod reading;
pub mod set_file;
pub mod text;
pub mod translate;
