//! Local directory policy: where downloads, configuration and links
//! live. Each function takes the relevant environment override and the
//! platform's fallback directory as explicit values and applies the
//! first-match-wins precedence; reading the environment itself is left
//! to the caller.
use vstd::prelude::*;

use crate::target::{spec_target_chars, Target};
use crate::text::{join_path, spec_join};

verus! {

pub const CONFIG_DIR_NOT_FOUND: &'static str = "Can't find an appropriate directory for config. Searched $NODEUP_CONFIG/settings.toml -> $XDG_CONFIG_HOME/nodeup/settings.toml -> $HOME/.config/nodeup/settings.toml";

pub const DOWNLOAD_DIR_NOT_FOUND: &'static str = "Can't find an appropriate directory for node binaries. Searched $NODEUP_DOWNLOADS -> $XDG_DATA_HOME/nodeup -> $HOME/.local/share/nodeup";

pub const LINKS_DIR_NOT_FOUND: &'static str = "Can't find an appropriate directory for nodeup symlinks. Searched $NODEUP_LINKS -> $XDG_BIN_HOME/nodeup/links -> $HOME/.local/bin";

/// A required directory could not be determined, or an operation on a
/// local file failed.
#[derive(Debug, Clone)]
pub enum LocalError {
    NotFound(&'static str),
    IO { path: String, message: String },
}

/// The directory where downloaded builds are stored: the environment
/// override when set, else `nodeup` under the platform data directory.
pub fn download_dir(env_downloads: Option<String>, os_data_dir: Option<String>) -> (r: Result<
    String,
    LocalError,
>)
    ensures
        match env_downloads {
            Some(d) => r matches Ok(p) && p@ == d@,
            None => match os_data_dir {
                Some(d) => r matches Ok(p) && p@ == spec_join(d@, "nodeup"@),
                None => r matches Err(LocalError::NotFound(m)) && m@ == DOWNLOAD_DIR_NOT_FOUND@,
            },
        },
{
    match env_downloads {
        Some(d) => Ok(d),
        None => match os_data_dir {
            Some(d) => Ok(join_path(d.as_str(), "nodeup")),
            None => Err(LocalError::NotFound(DOWNLOAD_DIR_NOT_FOUND)),
        },
    }
}

/// The installation directory of one build: the download directory with
/// the target's canonical name as its last component.
pub fn target_path(download_dir: &str, target: &Target) -> (r: String)
    ensures
        r@ == spec_join(download_dir@, spec_target_chars(*target)),
{
    let name = target.to_string();
    join_path(download_dir, name.as_str())
}

/// The configuration directory: the environment override when set, else
/// `nodeup` under the platform configuration directory.
pub fn config_dir(env_config: Option<String>, os_config_dir: Option<String>) -> (r: Result<
    String,
    LocalError,
>)
    ensures
        match env_config {
            Some(d) => r matches Ok(p) && p@ == d@,
            None => match os_config_dir {
                Some(d) => r matches Ok(p) && p@ == spec_join(d@, "nodeup"@),
                None => r matches Err(LocalError::NotFound(m)) && m@ == CONFIG_DIR_NOT_FOUND@,
            },
        },
{
    match env_config {
        Some(d) => Ok(d),
        None => match os_config_dir {
            Some(d) => Ok(join_path(d.as_str(), "nodeup")),
            None => Err(LocalError::NotFound(CONFIG_DIR_NOT_FOUND)),
        },
    }
}

/// The settings file inside the configuration directory.
pub fn config_file(config_dir: &str) -> (r: String)
    ensures
        r@ == spec_join(config_dir@, "settings.toml"@),
{
    join_path(config_dir, "settings.toml")
}

/// The directory holding the shim links: the environment override when
/// set, else `.local/bin` under the home directory.
pub fn links(env_links: Option<String>, home_dir: Option<String>) -> (r: Result<
    String,
    LocalError,
>)
    ensures
        match env_links {
            Some(d) => r matches Ok(p) && p@ == d@,
            None => match home_dir {
                Some(d) => r matches Ok(p) && p@ == spec_join(
                    spec_join(d@, ".local"@),
                    "bin"@,
                ),
                None => r matches Err(LocalError::NotFound(m)) && m@ == LINKS_DIR_NOT_FOUND@,
            },
        },
{
    match env_links {
        Some(d) => Ok(d),
        None => match home_dir {
            Some(d) => {
                let local = join_path(d.as_str(), ".local");
                Ok(join_path(local.as_str(), "bin"))
            },
            None => Err(LocalError::NotFound(LINKS_DIR_NOT_FOUND)),
        },
    }
}

} // verus!
