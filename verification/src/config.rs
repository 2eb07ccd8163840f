//! The daemon's configuration: a list of portals, each a watched input folder with the
//! output folder, target format and encoder options of its conversions.

use vstd::prelude::*;
use crate::paths::{join, path_joined};

verus! {

/// One watched folder and how the media files that appear in it are converted.
pub struct Portal {
    pub portal_name: String,
    pub input_folder: String,
    pub output_folder: String,
    pub output_format: String,
    pub input_options: String,
    pub output_options: String,
}

/// The whole configuration.
pub struct Config {
    pub portal: Vec<Portal>,
}

/// The input folder that the configuration written on first start names; it is a
/// placeholder for the user to replace.
pub open spec fn placeholder_input_folder() -> Seq<char> {
    "/path/to/the/input/folder"@
}

/// The output folder that the configuration written on first start names.
pub open spec fn placeholder_output_folder() -> Seq<char> {
    "/path/to/the/output/folder"@
}

impl Default for Config {
    /// One portal with no name, the placeholder folders, `mp4` output and no options.
    fn default() -> (c: Self)
        ensures
            c.portal@.len() == 1,
            c.portal@[0].portal_name@ == Seq::<char>::empty(),
            c.portal@[0].input_folder@ == placeholder_input_folder(),
            c.portal@[0].output_folder@ == placeholder_output_folder(),
            c.portal@[0].output_format@ == "mp4"@,
            c.portal@[0].input_options@ == Seq::<char>::empty(),
            c.portal@[0].output_options@ == Seq::<char>::empty(),
    {
        let p = Portal {
            portal_name: String::new(),
            input_folder: String::from_str("/path/to/the/input/folder"),
            output_folder: String::from_str("/path/to/the/output/folder"),
            output_format: String::from_str("mp4"),
            input_options: String::new(),
            output_options: String::new(),
        };
        let mut portal: Vec<Portal> = Vec::new();
        portal.push(p);
        Config { portal }
    }
}

/// Why the configuration file could not be located.
#[derive(Debug, PartialEq, Eq, Structural)]
pub enum ConfigError {
    /// The platform reports no per-user directory to keep the configuration in.
    DirectoryNotFound,
}

/// The location of the configuration file inside the directory `base`.
pub open spec fn config_file_in(base: Seq<char>) -> Seq<char> {
    path_joined(path_joined(base, "MPortal"@), "config.toml"@)
}

/// `base/MPortal/config.toml`.
pub fn config_path_under(base: &str) -> (res: String)
    ensures
        res@ == config_file_in(base@),
{
    let dir = join(base, "MPortal");
    join(dir.as_str(), "config.toml")
}

/// The configuration file `MPortal/config.toml` inside the platform's per-user directory
/// `base_dir` (the documents directory on Windows, the configuration directory
/// elsewhere, as the caller reads it from the environment); an error when the platform
/// reports none.
pub fn config_path(base_dir: Option<String>) -> (res: Result<String, ConfigError>)
    ensures
        match base_dir {
            Some(b) => res matches Ok(p) && p@ == config_file_in(b@),
            None => res == Err::<String, ConfigError>(ConfigError::DirectoryNotFound),
        },
{
    match base_dir {
        Some(base) => Ok(config_path_under(base.as_str())),
        None => Err(ConfigError::DirectoryNotFound),
    }
}

} // verus!
