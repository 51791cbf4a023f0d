//! Portal rendering core: a stencil-masked multi-pass draw sequencer that
//! composites the view through a linked pair of portals into the main frame,
//! together with the small path, parsing and timing helpers around it.

pub mod sequencer;
pub mod world;
pub mod text;
pub mod paths;
pub mod result;
pub mod parse;
pub mod clock;
pub mod log_level;
pub mod obj;
