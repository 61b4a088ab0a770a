//! The viewer's configuration (`tp.toml`): which directory to read images
//! from and whether tile indexes are shown 1-based, with the fallbacks used
//! when the file is absent or malformed and the precedence of a directory
//! given on the command line.

use vstd::prelude::*;
use vstd::string::*;

verus! {

/// Settings read from the configuration file.
pub struct Config {
    /// Directory to read images from.
    pub dir: String,
    /// When true, tile indexes are shown and copied 1-based.
    pub one_based_index: bool,
}

/// The directory used when none is configured: `assets`.
pub open spec fn default_dir_text() -> Seq<char> {
    seq!['a', 's', 's', 'e', 't', 's']
}

/// What reading the configuration file came to.
pub enum ConfigSource {
    /// The file could not be read (most often: it does not exist).
    Unreadable,
    /// The file was read but is not valid configuration.
    Malformed,
    /// The file was read and parsed.
    Parsed(Config),
}

/// The directory used when none is configured.
pub fn default_dir() -> (dir: String)
    ensures
        dir@ == default_dir_text(),
{
    let dir = String::from_str("assets");
    proof {
        reveal_strlit("assets");
    }
    assert(dir@ =~= default_dir_text());
    dir
}

impl Default for Config {
    /// Images from `assets`, indexes 0-based.
    fn default() -> (config: Self)
        ensures
            config.dir@ == default_dir_text(),
            !config.one_based_index,
    {
        Config { dir: default_dir(), one_based_index: false }
    }
}

/// The configuration in effect: the parsed file when there is one, the
/// defaults when the file is missing, unreadable or malformed.
pub fn load_config(source: ConfigSource) -> (config: Config)
    ensures
        match source {
            ConfigSource::Parsed(parsed) => config == parsed,
            _ => config.dir@ == default_dir_text() && !config.one_based_index,
        },
{
    match source {
        ConfigSource::Parsed(parsed) => parsed,
        _ => Config::default(),
    }
}

/// The directory to read images from: one given on the command line takes
/// precedence over the configured one.
pub fn image_directory(cli_arg: Option<String>, configured: String) -> (dir: String)
    ensures
        dir@ == match cli_arg {
            Some(arg) => arg@,
            None => configured@,
        },
{
    match cli_arg {
        Some(arg) => arg,
        None => configured,
    }
}

} // verus!
