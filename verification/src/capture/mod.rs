//! Screens, and pictures of them.

pub mod dxgi;
pub mod frame;
pub mod linux;
pub mod virtual_display;
