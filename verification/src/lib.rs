//! dd3 — the verified core of a 3D Docker container visualizer for the
//! terminal: key handling, Docker state classification, configuration
//! decisions, terminal capability detection and the kitty graphics wire
//! format.

pub mod app;
pub mod text;
pub mod theme;
pub mod docker;
pub mod kitty;
pub mod action;
pub mod term;
pub mod config;
pub mod render3d;
