//! Runtime core of a declarative desktop UI toolkit.
//!
//! The library owns the logic of the single UI event loop: translating raw
//! platform events into the toolkit's logical event vocabulary, compiling a
//! flat list of command descriptors into a hierarchical menu together with a
//! lookup table from menu-item identity to command path, and the FIFO work
//! queue through which background threads schedule work on the loop thread.
//! The windowing system and the GPU backend are external collaborators: the
//! platform layer feeds plain values in and carries the returned actions out.

pub mod commands;
pub mod event;
pub mod event_loop;
pub mod menu;
pub mod views;
pub mod work_queue;
