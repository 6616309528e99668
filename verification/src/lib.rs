//! Line-oriented substring search: given a query and a body of text, the
//! scanner reports every line in which the query occurs after case folding,
//! together with the 1-based row and column of the first matching window.
//! A small renderer turns each match into the fixed `RR-CC | line` output
//! format.

pub mod casing;
pub mod config;
pub mod laws;
pub mod render;
pub mod scan;
pub mod textlines;

pub use casing::CaseFold;
pub use config::Config;
pub use render::decimal_string;
pub use render::pad;
pub use render::render_match;
pub use scan::search;
pub use scan::Line;
