//! The editing engine of a stylus-driven text editor: a coordinate-addressed
//! text buffer with reversible edits, a classifier that turns raw pen ink into
//! editing intents, a nearest-neighbour shape recognizer, and the session state
//! machine that ties them together.

pub mod cell;
pub mod coord;
pub mod extents;
pub mod grid;
pub mod history;
pub mod hwr;
pub mod ink;
pub mod ink_type;
pub mod metrics;
pub mod selection;
pub mod strings;
pub mod suggest;
pub mod text;
pub mod text_buffer;
pub mod text_stuff;
pub mod text_window;
pub mod tokenizer;
