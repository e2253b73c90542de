//! Rendering core for a terminal status line: Unicode display-width
//! measurement, proportional and natural column layout, and styled
//! cell emission through an ANSI text adapter and a structured span
//! adapter that share one composed layout.

pub mod cells;
pub mod context;
pub mod gitinfo;
pub mod layout;
pub mod render;
pub mod session;
pub mod snapshot;
pub mod style;
pub mod text;
pub mod width;
