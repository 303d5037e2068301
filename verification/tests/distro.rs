use lsl::action::{Action, ActionOf, Fault, FaultKind, Reply, ReplyOf, Value, ValueOf};
use lsl::config::{DistroConfig, GlobalConfig};
use lsl::distro::{
    format_hosts, get_latest_kali_path, import_distro, install_kali, setup_distro_user,
    unregister_distro,
};
use lsl::task::{Plan, Task, TaskOf};
use lsl::text::is_before;

/// Runs a task against a host and tells what was asked of it and how it ended.
fn play<P: Plan>(
    task: Task<P>,
    mut host: impl FnMut(&Action) -> Reply,
) -> (Vec<String>, Result<Value, Fault>) {
    let mut task = task;
    let mut seen = Vec::new();
    loop {
        let reply = match task.pending() {
            Some(action) => {
                seen.push(brief(action));
                host(action)
            }
            None => break,
        };
        task = task.resume(reply);
    }
    match task {
        TaskOf::Over { result } => (seen, result),
        TaskOf::Active { .. } => panic!("the task waits for nothing"),
    }
}

/// An error of the host.
fn failed(text: &str) -> Reply {
    ReplyOf::Failed { kind: FaultKind::Host { code: 5 }, error: text.to_string() }
}

/// An action in short.
fn brief(action: &Action) -> String {
    match action {
        ActionOf::Say { lead, text, tail, .. } => format!("say {}{}{}", lead, text, tail),
        ActionOf::Warn { lead, text, tail, .. } => format!("warn {}{}{}", lead, text, tail),
        ActionOf::Run { program, args } => format!("{} {}", program, args.join(" ")),
        ActionOf::Capture { program, args } => format!("{} {}", program, args.join(" ")),
        ActionOf::Exists { path } => format!("exists {}", path),
        ActionOf::ReadText { path } => format!("read {}", path),
        ActionOf::ReadBytes { path } => format!("read {}", path),
        ActionOf::WriteText { path, text } => format!("write {} {:?}", path, text),
        ActionOf::AppendText { path, text } => format!("append {} {:?}", path, text),
        ActionOf::InGuest { pid, args } => format!("in {}: {}", pid, args.join(" ")),
        _ => format!("{:?}", action),
    }
}

const INDEX: &[u8] = b"alpine;edge;amd64;default;1;/images/alpine/\nkali;current;amd64;default;20260519;/images/kali/20260519/\n";

fn two() -> GlobalConfig {
    let mut config = GlobalConfig::default();
    let kali = config.describe("kali");
    config.register("kali", kali);
    let arch = config.describe("arch");
    config.register("arch", arch);
    config
}

fn stored(seen: &[String]) -> &String {
    seen.iter().find(|a| a.starts_with("StoreConfig")).unwrap()
}

#[test]
fn the_latest_image_is_listed_in_the_index() {
    assert_eq!(get_latest_kali_path(INDEX), Ok("/images/kali/20260519/".to_string()));
    let short = b"kali;current;amd64;default;x\nkali;current;amd64;default;y;/z/\n";
    assert_eq!(get_latest_kali_path(short), Ok("/z/".to_string()));
    let missing = get_latest_kali_path(b"kali;current;arm64;default;x;/z/\n").unwrap_err();
    assert_eq!(missing.kind, FaultKind::NotFound);
    assert_eq!(missing.message, "Kali amd64 default image not found in index-system");
    let unreadable = get_latest_kali_path(b"\xff\nkali;current;amd64;default;y;/z/\n").unwrap_err();
    assert_eq!(unreadable.kind, FaultKind::InvalidData);
    let later = b"kali;current;amd64;default;y;/z/\n\xff\n";
    assert_eq!(get_latest_kali_path(later), Ok("/z/".to_string()));
}

#[test]
fn of_several_images_the_latest_is_taken() {
    let line = |date: &str, path: &str| format!("kali;current;amd64;default;{};{}\n", date, path);
    let rising = line("20260518_17:14", "/a/") + &line("20260519_17:14", "/b/");
    assert_eq!(get_latest_kali_path(rising.as_bytes()), Ok("/b/".to_string()));
    let falling = line("20260519_17:14", "/b/") + &line("20260518_17:14", "/a/");
    assert_eq!(get_latest_kali_path(falling.as_bytes()), Ok("/b/".to_string()));
    let within_a_day = line("20260519_05:14", "/a/") + &line("20260519_17:14", "/b/");
    assert_eq!(get_latest_kali_path(within_a_day.as_bytes()), Ok("/b/".to_string()));
    let equal = line("20260519", "/a/") + &line("20260519", "/b/");
    assert_eq!(get_latest_kali_path(equal.as_bytes()), Ok("/a/".to_string()));
    let mut broken = line("20260518_17:14", "/a/").into_bytes();
    broken.extend(b"\xff\n");
    broken.extend(line("20260519_17:14", "/b/").into_bytes());
    assert_eq!(get_latest_kali_path(&broken), Ok("/b/".to_string()));
}

#[test]
fn texts_are_ordered_as_in_a_dictionary() {
    assert!(is_before("20260518_17:14", "20260519_17:14"));
    assert!(is_before("2026", "20260519"));
    assert!(is_before("", "a"));
    assert!(!is_before("a", ""));
    assert!(!is_before("b", "ab"));
    assert!(!is_before("same", "same"));
}

#[test]
fn installing_fetches_and_imports() {
    let distro = GlobalConfig::default().describe("kali");
    let (seen, result) = play(install_kali(), |action| match action {
        ActionOf::Exists { .. } => ReplyOf::Found { exists: false },
        ActionOf::ReadBytes { .. } => ReplyOf::Bytes { bytes: INDEX.to_vec() },
        ActionOf::Run { .. } => ReplyOf::Exit { success: true },
        ActionOf::Import { .. } => ReplyOf::Registered { distro: distro.clone() },
        _ => ReplyOf::Done,
    });
    assert_eq!(result, Ok(ValueOf::Distro { distro: distro.clone() }));
    assert_eq!(
        seen,
        [
            "exists /var/lib/lsl/distros/kali",
            "say Fetching latest Kali release details from images.linuxcontainers.org...",
            "curl -sSL -o /var/lib/lsl/cache/index-system https://images.linuxcontainers.org/meta/1.0/index-system",
            "read /var/lib/lsl/cache/index-system",
            "say Downloading Kali rootfs from: https://images.linuxcontainers.org/images/kali/20260519/rootfs.tar.xz",
            "curl -L -# -o /var/lib/lsl/cache/kali-rootfs.tar.xz https://images.linuxcontainers.org/images/kali/20260519/rootfs.tar.xz",
            "Import { name: \"kali\", tar: \"/var/lib/lsl/cache/kali-rootfs.tar.xz\" }",
        ]
    );
}

#[test]
fn installing_twice_is_refused() {
    let (seen, result) = play(install_kali(), |_| ReplyOf::Found { exists: true });
    let fault = result.unwrap_err();
    assert_eq!(fault.kind, FaultKind::AlreadyExists);
    assert_eq!(
        fault.message,
        "Kali is already installed. Unregister it first if you want to reinstall."
    );
    assert_eq!(seen.len(), 1);
}

#[test]
fn downloads_must_succeed() {
    for (failing, message) in [(1, "Failed to download index-system"), (2, "Failed to download Kali rootfs")] {
        let mut runs = 0;
        let (_, result) = play(install_kali(), |action| match action {
            ActionOf::Exists { .. } => ReplyOf::Found { exists: false },
            ActionOf::ReadBytes { .. } => ReplyOf::Bytes { bytes: INDEX.to_vec() },
            ActionOf::Run { .. } => {
                runs += 1;
                ReplyOf::Exit { success: runs != failing }
            }
            _ => ReplyOf::Done,
        });
        let fault = result.unwrap_err();
        assert_eq!((fault.kind, fault.message.as_str()), (FaultKind::Other, message));
    }
}

#[test]
fn an_index_without_the_image_fails_the_installation() {
    let (_, result) = play(install_kali(), |action| match action {
        ActionOf::Exists { .. } => ReplyOf::Found { exists: false },
        ActionOf::ReadBytes { .. } => ReplyOf::Bytes { bytes: Vec::new() },
        ActionOf::Run { .. } => ReplyOf::Exit { success: true },
        _ => ReplyOf::Done,
    });
    assert_eq!(result.unwrap_err().kind, FaultKind::NotFound);
}

fn importer(user: &'static str, unpacked: bool, account: bool) -> impl FnMut(&Action) -> Reply {
    move |action: &Action| match action {
        ActionOf::Exists { .. } => ReplyOf::Found { exists: false },
        ActionOf::Run { .. } => ReplyOf::Exit { success: unpacked },
        ActionOf::LoadConfig => ReplyOf::Config { config: GlobalConfig::default() },
        ActionOf::AskUser => ReplyOf::User { name: user.to_string(), uid: 1000, gid: 1001 },
        ActionOf::SetUpUser { .. } if !account => failed("no table"),
        _ => ReplyOf::Done,
    }
}

#[test]
fn importing_unpacks_and_registers() {
    let (seen, result) = play(import_distro("arch", "/tmp/a.tar"), importer("kim", true, true));
    let distro = GlobalConfig::default().describe("arch");
    let mut config = GlobalConfig::default();
    config.register("arch", distro.clone());
    assert_eq!(result, Ok(ValueOf::Distro { distro }));
    assert_eq!(
        seen,
        [
            "exists /var/lib/lsl/distros/arch".to_string(),
            "CreateDirs { path: \"/var/lib/lsl/distros/arch/rootfs\" }".to_string(),
            "CreateDirs { path: \"/var/lib/lsl/distros/arch/diff\" }".to_string(),
            "CreateDirs { path: \"/var/lib/lsl/distros/arch/work\" }".to_string(),
            "CreateDirs { path: \"/var/lib/lsl/distros/arch/merged\" }".to_string(),
            "say Extracting rootfs to /var/lib/lsl/distros/arch/rootfs ... (this may take a minute)".to_string(),
            "tar -xf /tmp/a.tar -C /var/lib/lsl/distros/arch/rootfs".to_string(),
            "LoadConfig".to_string(),
            "AskUser".to_string(),
            "SetUpUser { root: \"/var/lib/lsl/distros/arch/rootfs\", user: \"kim\", uid: 1000, gid: 1001 }".to_string(),
            "CreateDirs { path: \"/var/lib/lsl\" }".to_string(),
            format!("{:?}", ActionOf::<String, Vec<String>, GlobalConfig>::StoreConfig {
                path: "/var/lib/lsl/config.json".to_string(),
                config,
            }),
            "say Distro 'arch' successfully registered!".to_string(),
        ]
    );
}

#[test]
fn the_superuser_needs_no_account() {
    let (seen, result) = play(import_distro("arch", "/tmp/a.tar"), importer("root", true, true));
    assert!(result.is_ok());
    assert!(!seen.iter().any(|a| a.starts_with("SetUpUser")));
}

#[test]
fn a_failed_account_is_told_and_the_distribution_registered() {
    let (seen, result) = play(import_distro("arch", "/tmp/a.tar"), importer("kim", true, false));
    assert!(result.is_ok());
    assert!(seen.contains(&"say Warning: Failed to setup host user in guest: no table".to_string()));
    assert!(stored(&seen).contains("arch"));
}

#[test]
fn a_failed_import_is_discarded() {
    let (seen, result) = play(import_distro("arch", "/tmp/a.tar"), importer("kim", false, true));
    assert_eq!(result.unwrap_err().message, "Failed to extract rootfs tarball");
    assert_eq!(seen.last().unwrap(), "RemoveTree { path: \"/var/lib/lsl/distros/arch\" }");
    assert!(!seen.iter().any(|a| a.starts_with("StoreConfig")));
}

#[test]
fn importing_over_another_is_refused() {
    let (_, result) = play(import_distro("arch", "a"), |_| ReplyOf::Found { exists: true });
    let fault = result.unwrap_err();
    assert_eq!(fault.kind, FaultKind::AlreadyExists);
    assert_eq!(fault.message, "Distro 'arch' is already registered.");
}

#[test]
fn an_error_of_the_host_ends_the_import() {
    let (_, result) = play(import_distro("arch", "a"), |action| match action {
        ActionOf::CreateDirs { .. } => failed("read-only"),
        _ => ReplyOf::Found { exists: false },
    });
    let fault = result.unwrap_err();
    assert_eq!((fault.kind, fault.message.as_str()), (FaultKind::Host { code: 5 }, "read-only"));
}

#[test]
fn unregistering_deletes_and_forgets() {
    let (seen, result) = play(unregister_distro("kali"), |action| match action {
        ActionOf::LoadConfig => ReplyOf::Config { config: two() },
        ActionOf::Exists { .. } => ReplyOf::Found { exists: true },
        _ => ReplyOf::Done,
    });
    assert_eq!(result, Ok(ValueOf::Nothing));
    let mut left = two();
    left.forget("kali");
    assert_eq!(
        seen,
        [
            "LoadConfig".to_string(),
            "exists /var/lib/lsl/distros/kali".to_string(),
            "say Deleting distro directory: /var/lib/lsl/distros/kali".to_string(),
            "umount -l /var/lib/lsl/distros/kali/merged".to_string(),
            "RemoveTree { path: \"/var/lib/lsl/distros/kali\" }".to_string(),
            "CreateDirs { path: \"/var/lib/lsl\" }".to_string(),
            format!("{:?}", ActionOf::<String, Vec<String>, GlobalConfig>::StoreConfig {
                path: "/var/lib/lsl/config.json".to_string(),
                config: left,
            }),
            "say Distro 'kali' successfully unregistered.".to_string(),
        ]
    );
}

#[test]
fn unregistering_without_a_directory_only_forgets() {
    let (seen, result) = play(unregister_distro("arch"), |action| match action {
        ActionOf::LoadConfig => ReplyOf::Config { config: two() },
        ActionOf::Exists { .. } => ReplyOf::Found { exists: false },
        _ => ReplyOf::Done,
    });
    assert_eq!(result, Ok(ValueOf::Nothing));
    assert_eq!(seen.len(), 5);
    assert!(!stored(&seen).contains("\"arch\""));
}

#[test]
fn only_registered_distributions_are_unregistered() {
    let (_, result) = play(unregister_distro("void"), |_| ReplyOf::Config { config: two() });
    let fault = result.unwrap_err();
    assert_eq!((fault.kind, fault.message.as_str()), (FaultKind::NotFound, "Distro 'void' not found."));
}

#[test]
fn a_directory_that_stays_keeps_the_registration() {
    let (seen, result) = play(unregister_distro("kali"), |action| match action {
        ActionOf::LoadConfig => ReplyOf::Config { config: two() },
        ActionOf::Exists { .. } => ReplyOf::Found { exists: true },
        ActionOf::RemoveTree { .. } => failed("busy"),
        _ => ReplyOf::Done,
    });
    assert_eq!(result.unwrap_err().message, "busy");
    assert!(!seen.iter().any(|a| a.starts_with("StoreConfig")));
}

#[test]
fn host_tables() {
    assert_eq!(
        format_hosts("box"),
        "127.0.0.1\tlocalhost\n127.0.1.1\tbox\n::1\t\tlocalhost ip6-localhost ip6-loopback\n"
    );
}

#[test]
fn a_new_user_is_added_everywhere() {
    let (seen, result) = play(setup_distro_user("/r", "kim", 1000, 1001), |action| match action {
        ActionOf::ReadBytes { path } if path.ends_with("passwd") => {
            ReplyOf::Bytes { bytes: b"root:x:0:0:root:/root:/bin/bash\n".to_vec() }
        }
        ActionOf::ReadBytes { .. } => ReplyOf::Bytes { bytes: b"sudo:x:27:\n".to_vec() },
        ActionOf::Exists { .. } => ReplyOf::Found { exists: true },
        ActionOf::Run { .. } => ReplyOf::Exit { success: true },
        _ => ReplyOf::Done,
    });
    assert_eq!(result, Ok(ValueOf::Nothing));
    assert_eq!(
        seen,
        [
            "read /r/etc/passwd",
            "append /r/etc/passwd \"kim:x:1000:1001:kim:/home/kim:/bin/bash\\n\"",
            "append /r/etc/group \"kim:x:1001:\\n\"",
            "append /r/etc/shadow \"kim:*:19000:0:99999:7:::\\n\"",
            "CreateDirs { path: \"/r/home/kim\" }",
            "chown 1000:1001 /r/home/kim",
            "exists /r/etc/group",
            "read /r/etc/group",
            "write /r/etc/group \"sudo:x:27:kim\\n\"",
            "CreateDirs { path: \"/r/etc/sudoers.d\" }",
            "write /r/etc/sudoers.d/lsl-user \"kim ALL=(ALL:ALL) NOPASSWD: ALL\\n\"",
            "SetMode { path: \"/r/etc/sudoers.d/lsl-user\", mode: 288 }",
            "write /r/etc/hosts \"127.0.0.1\\tlocalhost\\n127.0.1.1\\tlsl-kali\\n::1\\t\\tlocalhost ip6-localhost ip6-loopback\\n\"",
        ]
    );
}

#[test]
fn a_known_user_is_not_added_again() {
    let (seen, result) = play(setup_distro_user("/r", "kim", 1000, 1001), |action| match action {
        ActionOf::ReadBytes { .. } => ReplyOf::Bytes { bytes: b"kim:x:1:1::/:/bin/sh\n".to_vec() },
        ActionOf::Exists { .. } => ReplyOf::Found { exists: false },
        _ => ReplyOf::Done,
    });
    assert_eq!(result, Ok(ValueOf::Nothing));
    assert!(!seen.iter().any(|a| a.starts_with("append")));
    assert!(!seen.iter().any(|a| a.starts_with("read /r/etc/group")));
}

#[test]
fn a_home_that_cannot_be_given_away_is_told() {
    let (seen, result) = play(setup_distro_user("/r", "kim", 1000, 1001), |action| match action {
        ActionOf::ReadBytes { .. } => ReplyOf::Bytes { bytes: Vec::new() },
        ActionOf::Exists { .. } => ReplyOf::Found { exists: false },
        ActionOf::Run { .. } => ReplyOf::Exit { success: false },
        _ => ReplyOf::Done,
    });
    assert_eq!(result, Ok(ValueOf::Nothing));
    assert!(seen.contains(&"say Warning: failed to chown home directory for kim".to_string()));
}

#[test]
fn a_group_table_that_is_no_text_ends_the_setup() {
    let (_, result) = play(setup_distro_user("/r", "kim", 1000, 1001), |action| match action {
        ActionOf::ReadBytes { path } if path.ends_with("passwd") => {
            ReplyOf::Bytes { bytes: b"kim:x\n".to_vec() }
        }
        ActionOf::ReadBytes { .. } => ReplyOf::Bytes { bytes: b"\xff\n".to_vec() },
        ActionOf::Exists { .. } => ReplyOf::Found { exists: true },
        _ => ReplyOf::Done,
    });
    assert_eq!(result.unwrap_err().kind, FaultKind::InvalidData);
}

#[test]
fn a_reply_that_answers_something_else_ends_the_task() {
    let (_, result) = play(unregister_distro("kali"), |_| ReplyOf::Done);
    let fault = result.unwrap_err();
    assert_eq!((fault.kind, fault.message.as_str()), (FaultKind::Other, "Unexpected reply"));
}

#[test]
fn a_distribution_is_a_plain_record() {
    let distro: DistroConfig = GlobalConfig::default().describe("kali");
    assert_eq!(distro.name, "kali");
    assert_eq!(distro.clone(), distro);
}
