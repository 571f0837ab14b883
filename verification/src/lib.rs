//! Verified core of a terminal ASCII video viewer and caller: character sets,
//! the ASCII frame wire format, grid export, persisted settings, the relay
//! text protocol and the keyboard-driven interface state.
pub mod text;
pub mod charsets;
pub mod render;
pub mod replies;
pub mod background;
pub mod camera;
pub mod audio;
pub mod net;
pub mod orient;
pub mod export;
pub mod folders;
pub mod tui;
pub mod config;
pub mod viewer;
