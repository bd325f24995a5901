//! File locations under the manager's own names: a second, flatter
//! naming policy that resolves whole file paths rather than directories.
//! As in `local`, environment overrides and platform fallbacks come in
//! as explicit values.
use vstd::prelude::*;

use crate::local::{LocalError, CONFIG_DIR_NOT_FOUND, DOWNLOAD_DIR_NOT_FOUND, LINKS_DIR_NOT_FOUND};
use crate::target::{spec_target_chars, Target};
use crate::text::{join_path, spec_join};

verus! {

pub const HOME_DIR_NOT_FOUND: &'static str = "Error getting home directory";

/// The manager's own directory under the home directory.
pub fn get(home_dir: Option<String>) -> (r: Result<String, LocalError>)
    ensures
        match home_dir {
            Some(d) => r matches Ok(p) && p@ == spec_join(d@, ".nodeup"@),
            None => r matches Err(LocalError::NotFound(m)) && m@ == HOME_DIR_NOT_FOUND@,
        },
{
    match home_dir {
        Some(d) => Ok(join_path(d.as_str(), ".nodeup")),
        None => Err(LocalError::NotFound(HOME_DIR_NOT_FOUND)),
    }
}

/// The directory where downloaded builds are stored: the environment
/// override when set, else `nodeup` under the platform data directory.
pub fn download_dir(env_downloads: Option<String>, os_data_dir: Option<String>) -> (r: Result<
    String,
    LocalError,
>)
    ensures
        match env_downloads {
            Some(d) => r matches Ok(p) && p@ == d@,
            None => match os_data_dir {
                Some(d) => r matches Ok(p) && p@ == spec_join(d@, "nodeup"@),
                None => r matches Err(LocalError::NotFound(m)) && m@ == DOWNLOAD_DIR_NOT_FOUND@,
            },
        },
{
    match env_downloads {
        Some(d) => Ok(d),
        None => match os_data_dir {
            Some(d) => Ok(join_path(d.as_str(), "nodeup")),
            None => Err(LocalError::NotFound(DOWNLOAD_DIR_NOT_FOUND)),
        },
    }
}

/// The installation directory of one build.
pub fn target_path(download_dir: &str, target: &Target) -> (r: String)
    ensures
        r@ == spec_join(download_dir@, spec_target_chars(*target)),
{
    let name = target.to_string();
    join_path(download_dir, name.as_str())
}

/// The settings file: directly under the environment override when set,
/// else under `nodeup` in the platform configuration directory.
pub fn config(env_config: Option<String>, os_config_dir: Option<String>) -> (r: Result<
    String,
    LocalError,
>)
    ensures
        match env_config {
            Some(d) => r matches Ok(p) && p@ == spec_join(d@, "settings.toml"@),
            None => match os_config_dir {
                Some(d) => r matches Ok(p) && p@ == spec_join(
                    spec_join(d@, "nodeup"@),
                    "settings.toml"@,
                ),
                None => r matches Err(LocalError::NotFound(m)) && m@ == CONFIG_DIR_NOT_FOUND@,
            },
        },
{
    match env_config {
        Some(d) => Ok(join_path(d.as_str(), "settings.toml")),
        None => match os_config_dir {
            Some(d) => {
                let base = join_path(d.as_str(), "nodeup");
                Ok(join_path(base.as_str(), "settings.toml"))
            },
            None => Err(LocalError::NotFound(CONFIG_DIR_NOT_FOUND)),
        },
    }
}

/// The directory holding the shim links: the first of the two
/// environment overrides when set, else `.local/bin` under home.
pub fn links(
    env_links: Option<String>,
    env_xdg_bin: Option<String>,
    home_dir: Option<String>,
) -> (r: Result<String, LocalError>)
    ensures
        match env_links {
            Some(d) => r matches Ok(p) && p@ == d@,
            None => match env_xdg_bin {
                Some(d) => r matches Ok(p) && p@ == spec_join(
                    spec_join(d@, "nodeup"@),
                    "links"@,
                ),
                None => match home_dir {
                    Some(d) => r matches Ok(p) && p@ == spec_join(
                        spec_join(d@, ".local"@),
                        "bin"@,
                    ),
                    None => r matches Err(LocalError::NotFound(m)) && m@ == LINKS_DIR_NOT_FOUND@,
                },
            },
        },
{
    match env_links {
        Some(d) => Ok(d),
        None => match env_xdg_bin {
            Some(d) => {
                let base = join_path(d.as_str(), "nodeup");
                Ok(join_path(base.as_str(), "links"))
            },
            None => match home_dir {
                Some(d) => {
                    let local = join_path(d.as_str(), ".local");
                    Ok(join_path(local.as_str(), "bin"))
                },
                None => Err(LocalError::NotFound(LINKS_DIR_NOT_FOUND)),
            },
        },
    }
}

} // verus!
