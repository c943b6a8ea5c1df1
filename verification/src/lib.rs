//! Decision logic of a middle-button drag-to-scroll tool for TrackPoint devices:
//! device naming, per-device configuration, the press/drag/release state machine,
//! tray menu labels and commands.

pub mod text;
pub mod names;
pub mod config;
pub mod engine;
pub mod menu;
pub mod input;
pub mod laws;
