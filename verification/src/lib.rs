//! Verified core of a small status dashboard for a 480×320 RGB565 panel:
//! framebuffer shadow with dirty-region tracking, drawing primitives, field
//! widgets, touch gesture recognition, metric parsers and page control.

pub mod config;
pub mod fb;
pub mod render;
pub mod textutil;
pub mod touch;
pub mod metrics;
pub mod text;
pub mod label;
pub mod pages;
pub mod screenshot;
pub mod ipc;
