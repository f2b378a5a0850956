//! Panel layout and window docking logic of a tiling frame for desktop windows.
pub mod layout;
pub mod dock;
pub mod config;
pub mod win_util;
pub mod frame;
pub mod drag;
pub mod paint;
