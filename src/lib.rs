//! The window-management engine of a tiling X11 window manager: the model of
//! monitors, tags, windows and focus, the layout engine, and the reducer that
//! turns X events and client commands into state changes and X requests.

pub mod geometry;
pub mod window;
pub mod history;
pub mod layout;
pub mod monitor;
pub mod color;
pub mod modkey;
pub mod config;
pub mod monitors;
pub mod command;
pub mod wm;
