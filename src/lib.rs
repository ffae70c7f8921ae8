//! Keyboard-driven navigation of a region of the screen: the action
//! vocabulary, the configuration grammar and its resolution against a key
//! layout, the geometry of the active region, the bookkeeping of the
//! overlay's framebuffer, and the controller that turns key events into
//! changes of the region and commands for a virtual pointer.
pub mod app;
pub mod config;
pub mod geometry;
pub mod parse;
pub mod render;
