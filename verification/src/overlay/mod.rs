//! The overlay subsystem: the settings menu's model of the shared ini, the
//! rewriter that writes it back, and the small pieces of state the menu
//! draws from.
pub mod config;
pub mod cursor;
pub mod dynmodel;
pub mod model;
pub mod presets;
pub mod reread;
pub mod rewrite;
pub mod store;
pub mod theme;
