//! Notebooks whose cells are edited as one text.
//!
//! A notebook is read from a document, shown as the excerpts of the buffers of its cells, run by a
//! kernel or answered by a language model, one cell at a time.

pub mod buffer;
pub mod cell;
pub mod cell_summary;
pub mod cell_update;
pub mod cells;
pub mod chat;
pub mod chat_turn;
pub mod common;
pub mod editing;
pub mod editor;
pub mod json;
pub mod jupyter;
pub mod kernel;
pub mod kernel_spec;
pub mod laws;
pub mod multi_buffer;
pub mod notebook;
pub mod notebook_builder;
pub mod open;
pub mod order;
pub mod output;
pub mod output_reading;
pub mod room;
pub mod run;
pub mod selection;
pub mod summary;
pub mod text;
pub mod viewer;
