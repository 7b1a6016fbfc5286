//! User-interface state that does not depend on drawing.

pub mod chart;
pub mod dashboard;
pub mod settings;
