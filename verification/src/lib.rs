//! Settings model, configuration file format and run-time decisions of a
//! mouse automation tool.

pub mod text;
pub mod settings;
pub mod config;
pub mod config_laws;
pub mod presets;
pub mod shared;
pub mod hotkey;
pub mod clicker;
pub mod display;
pub mod clicker_laws;
