//! Verified core of a statistics viewer for MeshCore radio nodes.
pub mod app;
pub mod cli;
pub mod laws;
pub mod model;
pub mod serial;
pub mod text;
pub mod ui;
