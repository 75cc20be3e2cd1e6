//! Logic of a DDC/CI monitor brightness controller: reading ddcutil's
//! output, the monitor model, the settings, and the decisions behind the
//! main window, the preferences window, the tray icon, the autostart entry
//! and the command line.
use vstd::prelude::*;

pub mod autostart;
pub mod cli;
pub mod config;
pub mod ddc;
pub mod debounce;
pub mod monitor;
pub mod preferences;
pub mod text;
pub mod tray;
pub mod window;
