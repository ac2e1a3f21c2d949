//! Core logic of the digital garden desktop: WAD map parsing, note
//! navigation history, search scoring, the command palette and assorted
//! text utilities, each with a machine-checked contract.
pub mod command_palette;
pub mod digital_garden;
pub mod palette;
pub mod text;
pub mod wad;
pub mod about;
pub mod apps;
pub mod instant;
pub mod windows;
