//! Configuration of the self-contained daemon.

use vstd::prelude::*;
use crate::config::{config_file_in, ConfigError};

verus! {

/// One watched folder and how the media files that appear in it are converted.
pub struct Path {
    pub input_folder: String,
    pub output_folder: String,
    pub output_format: String,
    /// Encoder options placed after the input.
    pub arguments: String,
}

/// The whole configuration.
pub struct Config {
    pub path: Vec<Path>,
}

impl Default for Config {
    /// One entry with placeholder folders, `mp4` output and a single space as options.
    fn default() -> (c: Self)
        ensures
            c.path@.len() == 1,
            c.path@[0].input_folder@ == "path to the input/folder"@,
            c.path@[0].output_folder@ == "path to the output/folder"@,
            c.path@[0].output_format@ == "mp4"@,
            c.path@[0].arguments@ == " "@,
    {
        let p = Path {
            input_folder: String::from_str("path to the input/folder"),
            output_folder: String::from_str("path to the output/folder"),
            output_format: String::from_str("mp4"),
            arguments: String::from_str(" "),
        };
        let mut path: Vec<Path> = Vec::new();
        path.push(p);
        Config { path }
    }
}

/// The configuration file `MPortal/config.toml` inside the platform's per-user directory
/// `base_dir`, as for the daemon (see `crate::config::config_path`).
pub fn config_path(base_dir: Option<String>) -> (res: Result<String, ConfigError>)
    ensures
        match base_dir {
            Some(b) => res matches Ok(p) && p@ == config_file_in(b@),
            None => res == Err::<String, ConfigError>(ConfigError::DirectoryNotFound),
        },
{
    crate::config::config_path(base_dir)
}

} // verus!
