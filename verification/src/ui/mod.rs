//! What the views show, as styled text.

pub mod bars;
pub mod blame_view;
pub mod diff_view;
pub mod diffstat;
pub mod format;
pub mod help;
pub mod highlight;
pub mod layout;
pub mod log_view;
pub mod refs_view;
pub mod style;
