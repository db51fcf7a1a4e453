//! Abbreviation expansion for a text editor.
//!
//! On each typed character the engine inspects the word immediately before
//! every cursor of the current selection; where that word is a registered
//! abbreviation it is replaced by its expansion followed by the typed
//! character, in one transaction covering all cursors.

pub mod abbreviations;
pub mod movement;
pub mod selection;
pub mod text;
pub mod transaction;

pub use abbreviations::Abbreviations;
