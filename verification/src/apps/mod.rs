//! The small desktop tools: the pure parts of each (labels, filters,
//! record parsing); their windows are drawn by the user interface.
pub mod binary_clock;
pub mod calculator;
pub mod canvas_view;
pub mod collections;
pub mod palette_studio;
pub mod projects;
pub mod timestamp_converter;
pub mod wad_viewer;
pub mod workouts;
