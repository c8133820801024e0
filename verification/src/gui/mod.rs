//! What the window shows, without the drawing.

pub mod browser;
pub mod config;
pub mod connect;
pub mod format;
pub mod monitor;
pub mod plot_view;
