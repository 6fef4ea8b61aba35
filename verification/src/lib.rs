//! The verified core of the YaWC Wayland compositor: its configuration (decoding
//! results resolved to values, key bindings, where the file lives), the choice of
//! backend and of the DRM connector, mode and device, the frames-per-second overlay and
//! its frame-time window, and the layout of log lines.

pub mod backend;
pub mod config;
pub mod fps_counter;
pub mod fps_texture;
pub mod simple_config;
pub mod logging;
pub mod numeric;
pub mod text;
pub mod udev;
