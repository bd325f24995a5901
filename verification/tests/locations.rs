use nodeup::local;
use nodeup::nodeup_files;
use nodeup::target::{Target, Version};

fn some(s: &str) -> Option<String> {
    Some(String::from(s))
}

#[test]
fn download_dir_prefers_the_environment_override() {
    assert_eq!(local::download_dir(some("/tmp/nodeup"), some("/data")).unwrap(), "/tmp/nodeup");
    assert_eq!(local::download_dir(None, some("/tmp/other-nodeup")).unwrap(), "/tmp/other-nodeup/nodeup");
    assert!(local::download_dir(None, None).is_err());
}

#[test]
fn config_locations_cascade() {
    assert_eq!(local::config_dir(some("/tmp/config"), some("/xdg")).unwrap(), "/tmp/config");
    assert_eq!(local::config_dir(None, some("/tmp/xdg-config")).unwrap(), "/tmp/xdg-config/nodeup");
    assert!(local::config_dir(None, None).is_err());
    assert_eq!(local::config_file("/tmp/config"), "/tmp/config/settings.toml");
}

#[test]
fn links_fall_back_to_the_home_directory() {
    assert_eq!(local::links(some("/tmp/links"), some("/home/u")).unwrap(), "/tmp/links");
    assert_eq!(local::links(None, some("/tmp/home")).unwrap(), "/tmp/home/.local/bin");
    assert!(local::links(None, None).is_err());
}

#[test]
fn target_paths_use_the_canonical_name() {
    let target = Target::from_version(Version { major: 12, minor: 9, patch: 1 });
    assert_eq!(
        local::target_path("/data/nodeup", &target),
        "/data/nodeup/node-v12.9.1-linux-x64",
    );
    assert_eq!(
        nodeup_files::target_path("/data/nodeup", &target),
        "/data/nodeup/node-v12.9.1-linux-x64",
    );
}

#[test]
fn nodeup_files_find_download_dir() {
    let actual = nodeup_files::download_dir(some("/tmp/nodeup"), None).unwrap();
    assert_eq!(actual, "/tmp/nodeup");

    let actual = nodeup_files::download_dir(None, some("/tmp/other-nodeup")).unwrap();
    assert_eq!(actual, "/tmp/other-nodeup/nodeup");

    let actual = nodeup_files::download_dir(None, some("/home/u/.local/share")).unwrap();
    assert_eq!(actual, "/home/u/.local/share/nodeup");
}

#[test]
fn nodeup_files_find_config_dir() {
    let actual = nodeup_files::config(some("/tmp/config"), None).unwrap();
    assert_eq!(actual, "/tmp/config/settings.toml");

    let actual = nodeup_files::config(None, some("/tmp/xdg-config")).unwrap();
    assert_eq!(actual, "/tmp/xdg-config/nodeup/settings.toml");

    let actual = nodeup_files::config(None, some("/home/u/.config")).unwrap();
    assert_eq!(actual, "/home/u/.config/nodeup/settings.toml");
}

#[test]
fn nodeup_files_linking() {
    let actual = nodeup_files::links(some("/tmp/links"), None, None).unwrap();
    assert_eq!(actual, "/tmp/links");

    let actual = nodeup_files::links(None, some("/tmp/xdg-links"), None).unwrap();
    assert_eq!(actual, "/tmp/xdg-links/nodeup/links");

    let actual = nodeup_files::links(None, None, some("/tmp/home")).unwrap();
    assert_eq!(actual, "/tmp/home/.local/bin");

    assert!(nodeup_files::links(None, None, None).is_err());
}

#[test]
fn the_manager_dir_hangs_off_home() {
    assert_eq!(nodeup_files::get(some("/home/u")).unwrap(), "/home/u/.nodeup");
    assert!(nodeup_files::get(None).is_err());
}
