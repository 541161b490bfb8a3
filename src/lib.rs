//! Pick one on-screen window by pointing at it on a per-monitor overlay.
//!
//! The library holds the verified core: the window/monitor snapshot and its
//! monitor-local regions, hit testing, the overlay pixel buffer, the
//! per-monitor surface lifecycle and the session that drives it from
//! windowing-system announcements and pointer events, the region text codec
//! and the window-rule text.
pub mod geometry;
pub mod snapshot;
pub mod render;
pub mod buffer_surface;
pub mod state;
pub mod registry;
pub mod region_text;
pub mod hyprland_config;

