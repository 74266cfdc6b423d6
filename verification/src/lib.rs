//! Verified core of the `jepa` runtime: wire formats, media sniffing, catalog and
//! manifest rules, access control and the small state machines around them.

pub mod agent;
pub mod api;
pub mod auth;
pub mod camera;
pub mod canvas;
pub mod catalog;
pub mod clip;
mod clock;
pub mod companion;
pub mod config;
pub mod data_uri;
pub mod download;
pub mod frame;
pub mod gate;
pub mod keyed;
pub mod manifest;
pub mod media;
pub mod named;
pub mod projection;
pub mod protocol;
pub mod registry;
pub mod robot;
pub mod text;
pub mod types;
pub mod vit;
pub mod wav;
pub mod window;
