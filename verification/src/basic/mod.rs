//! The self-contained variant of the daemon: portals are called paths, carry one
//! option string, and converted files are named `<stem>.converted.<ext>`.

pub mod config;
pub mod utils;
