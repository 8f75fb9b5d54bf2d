//! What holds of the passes beyond what each function promises of itself.

pub mod ranges;
pub mod targets;
pub mod exits;
pub mod parsing;
pub mod writing;
pub mod routines;
pub mod labels;
pub mod stack;
pub mod lines;
