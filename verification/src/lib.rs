//! A terminal viewer for git history: the state machine, the parsers and the
//! text layout behind it, with their contracts.

pub mod app;
pub mod git;
pub mod model;
pub mod text;
pub mod ui;
