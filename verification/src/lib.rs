//! Core of a spatial application launcher.
//!
//! The crate covers the launcher's decision logic: parsing desktop-entry
//! files, resolving and ranking icon candidates, a content-addressed cache
//! for rasterized vector icons, the launch handshake decisions, and the
//! per-item activation state machine that turns a drag-and-release gesture
//! into a launch. All I/O (directory scanning, file reading and writing,
//! process spawning, the host-environment handshake) lives outside this
//! crate; these modules work on plain values handed in by the caller.

pub mod activation;
pub mod application;
pub mod cache;
pub mod hex;
pub mod icon;
pub mod strutil;
pub mod xdg;
