//! Core logic of the MPortal media conversion daemon: configuration values,
//! media-file recognition, output naming, conversion planning and the
//! decisions of the watch loop.

pub mod basic;
pub mod config;
pub mod control;
pub mod convert;
pub mod daemon;
pub mod paths;
pub mod text;
pub mod utils;
