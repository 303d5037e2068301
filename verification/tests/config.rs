use lsl::action::{Action, ActionOf};
use lsl::config::{
    ensure_dirs, get_distro_dir, get_distro_path, get_merged_path, get_run_path, DistroConfig,
    DistroMap, GlobalConfig,
};
use lsl::path::{is_under_home, join_path};
use lsl::task::Steps;

fn distro(name: &str) -> DistroConfig {
    DistroConfig {
        name: name.to_string(),
        path: get_distro_dir(name),
        ip_address: "dhcp".to_string(),
        mac_address: "02:42:0a:58:00:01".to_string(),
        default_user: "root".to_string(),
    }
}

fn actions(steps: &Steps) -> Vec<&Action> {
    (0..steps.len()).map(|i| steps.action(i)).collect()
}

#[test]
fn paths_are_joined() {
    assert_eq!(join_path("/a", "b"), "/a/b");
    assert_eq!(join_path("/a/", "b"), "/a/b");
    assert_eq!(join_path("/a", "/b"), "/b");
    assert_eq!(join_path("", "b"), "b");
    assert_eq!(join_path("/a", ""), "/a/");
}

#[test]
fn relative_parts_stay_below() {
    assert!(join_path("/var/lib/lsl", "distros").starts_with("/var/lib/lsl/"));
}

#[test]
fn home_directories_are_told_apart() {
    assert!(is_under_home("/home"));
    assert!(is_under_home("/home/kim/src"));
    assert!(!is_under_home("/homes"));
    assert!(!is_under_home("/root"));
    assert!(!is_under_home("/"));
    assert!(!is_under_home(""));
    assert!(!is_under_home("home/kim"));
    assert!(is_under_home("//home/kim"));
    assert!(is_under_home("/./home//kim"));
    assert!(is_under_home("/home/"));
    assert!(!is_under_home("/../home"));
    assert!(!is_under_home("/.home"));
    assert!(!is_under_home("/srv/home"));
}

#[test]
fn distro_dir_is_below_the_store() {
    assert_eq!(get_distro_dir("kali"), "/var/lib/lsl/distros/kali");
    assert_eq!(get_distro_path("kali", "rootfs"), "/var/lib/lsl/distros/kali/rootfs");
    assert_eq!(get_merged_path("kali", "etc/hosts"), "/var/lib/lsl/distros/kali/merged/etc/hosts");
    assert_eq!(get_run_path("kali.pid"), "/var/lib/lsl/run/kali.pid");
    assert_eq!(GlobalConfig::config_path(), "/var/lib/lsl/config.json");
}

#[test]
fn directories_differ_by_name() {
    assert_ne!(get_distro_dir("a"), get_distro_dir("b"));
}

#[test]
fn a_map_keeps_one_entry_per_name() {
    let mut map = DistroMap::new();
    assert!(map.is_empty());
    map.insert("a".to_string(), distro("a"));
    map.insert("b".to_string(), distro("b"));
    let mut other = distro("a");
    other.ip_address = "10.0.0.9".to_string();
    map.insert("a".to_string(), other);
    assert_eq!(map.len(), 2);
    assert_eq!(map.name_at(0), "a");
    assert_eq!(map.distro_at(0).ip_address, "10.0.0.9");
    assert_eq!(map.get("b"), Some(&distro("b")));
    assert_eq!(map.get("c"), None);
    assert!(map.contains_key("b"));
    map.remove("a");
    map.remove("a");
    assert!(!map.contains_key("a"));
    assert_eq!(map.first_key(), Some("b".to_string()));
    map.remove("b");
    assert_eq!(map.first_key(), None);
}

#[test]
fn removal_undoes_insertion() {
    let mut map = DistroMap::new();
    map.insert("a".to_string(), distro("a"));
    let before = map.clone();
    map.insert("b".to_string(), distro("b"));
    assert_ne!(map, before);
    map.remove("b");
    assert_eq!(map, before);
}

#[test]
fn a_missing_configuration_is_empty() {
    assert_eq!(GlobalConfig::load(None), GlobalConfig::default());
    let mut config = GlobalConfig::default();
    config.register("kali", distro("kali"));
    assert_eq!(GlobalConfig::load(Some(config.clone())), config);
}

#[test]
fn new_distributions_are_numbered() {
    let mut config = GlobalConfig::default();
    let first = config.describe("kali");
    assert_eq!(first.path, "/var/lib/lsl/distros/kali");
    assert_eq!(first.ip_address, "dhcp");
    assert_eq!(first.mac_address, "02:42:0a:58:00:01");
    assert_eq!(first.default_user, "root");
    config.register("kali", first);
    assert_eq!(config.describe("arch").mac_address, "02:42:0a:58:00:02");
}

#[test]
fn the_first_distribution_is_the_default() {
    let mut config = GlobalConfig::default();
    config.register("kali", distro("kali"));
    config.register("arch", distro("arch"));
    assert_eq!(config.default_distro, Some("kali".to_string()));
}

#[test]
fn the_default_moves_on_when_it_is_removed() {
    let mut config = GlobalConfig::default();
    config.register("kali", distro("kali"));
    config.register("arch", distro("arch"));
    config.forget("kali");
    assert_eq!(config.default_distro, Some("arch".to_string()));
    assert!(!config.distros.contains_key("kali"));
    config.forget("arch");
    assert_eq!(config.default_distro, None);
    config.register("arch", distro("arch"));
    config.register("kali", distro("kali"));
    config.forget("kali");
    assert_eq!(config.default_distro, Some("arch".to_string()));
}

#[test]
fn only_registered_distributions_become_the_default() {
    let mut config = GlobalConfig::default();
    config.register("kali", distro("kali"));
    config.register("arch", distro("arch"));
    assert!(config.make_default("arch"));
    assert_eq!(config.default_distro, Some("arch".to_string()));
    assert!(!config.make_default("void"));
    assert_eq!(config.default_distro, Some("arch".to_string()));
}

#[test]
fn users_are_assigned() {
    let mut config = GlobalConfig::default();
    config.register("kali", distro("kali"));
    assert_eq!(config.default_user("kali"), "root");
    config.assign_user("kali", "kim");
    assert_eq!(config.default_user("kali"), "kim");
    config.assign_user("void", "kim");
    assert_eq!(config.distros.len(), 1);
    assert_eq!(config.default_user("void"), "root");
}

#[test]
fn saving_makes_the_directory_first() {
    let mut config = GlobalConfig::default();
    config.register("kali", distro("kali"));
    let steps = config.clone().save();
    assert_eq!(
        actions(&steps),
        [
            &ActionOf::CreateDirs { path: "/var/lib/lsl".to_string() },
            &ActionOf::StoreConfig { path: "/var/lib/lsl/config.json".to_string(), config },
        ]
    );
}

#[test]
fn the_directories_of_the_store() {
    let steps = ensure_dirs();
    let dir = |part: &str| ActionOf::CreateDirs { path: format!("/var/lib/lsl/{}", part) };
    assert_eq!(actions(&steps), [&dir("distros"), &dir("cache"), &dir("run")]);
}
