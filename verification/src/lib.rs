//! Verified core of a visual file manager: path algebra, listing order,
//! entry metadata, mount points, navigation state, the widget documents the
//! host renders, and the control channel's framing and decoding.
#![allow(unused_imports)]

pub mod text;
pub mod paths;
pub mod fs_engine;
pub mod listing;
pub mod state;
pub mod server;
pub mod control;
pub mod manifest;
pub mod osc;
pub mod schema;
pub mod mounts;
