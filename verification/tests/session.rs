use lsl::action::{
    AccountOf, Action, ActionOf, Fault, FaultKind, Packages, Reply, ReplyOf, Value, ValueOf,
    Variables, VariablesOf,
};
use lsl::config::GlobalConfig;
use lsl::provision::find_zone;
use lsl::session::{run_command_in_distro, HOOK_SCRIPT};
use lsl::task::{Plan, Task, TaskOf};

/// Runs a task against a host and tells what was asked of it and how it ended.
fn play<P: Plan>(
    task: Task<P>,
    mut host: impl FnMut(&Action) -> Reply,
) -> (Vec<String>, Result<Value, Fault>) {
    let mut task = task;
    let mut seen = Vec::new();
    loop {
        let reply = match task.pending() {
            Some(action) => {
                seen.push(brief(action));
                host(action)
            }
            None => break,
        };
        task = task.resume(reply);
    }
    match task {
        TaskOf::Over { result } => (seen, result),
        TaskOf::Active { .. } => panic!("the task waits for nothing"),
    }
}

/// An error of the host.
fn failed(text: &str) -> Reply {
    ReplyOf::Failed { kind: FaultKind::Host { code: 5 }, error: text.to_string() }
}

/// An action in short.
fn brief(action: &Action) -> String {
    match action {
        ActionOf::Say { lead, text, tail, .. } => format!("say {}{}{}", lead, text, tail),
        ActionOf::Warn { lead, text, tail, .. } => format!("warn {}{}{}", lead, text, tail),
        ActionOf::Run { program, args } => format!("{} {}", program, args.join(" ")),
        ActionOf::Capture { program, args } => format!("{} {}", program, args.join(" ")),
        ActionOf::Exists { path } => format!("exists {}", path),
        ActionOf::ReadText { path } => format!("read {}", path),
        ActionOf::ReadBytes { path } => format!("read {}", path),
        ActionOf::WriteText { path, text } => format!("write {} {:?}", path, text),
        ActionOf::AppendText { path, text } => format!("append {} {:?}", path, text),
        ActionOf::InGuest { pid, args } => format!("in {}: {}", pid, args.join(" ")),
        _ => format!("{:?}", action),
    }
}

const D: &str = "/var/lib/lsl/distros/kali";

const PASSWD: &str = "root:x:0:0:root:/root:/bin/bash\nkim:x:1000:1001:Kim:/home/kim:/bin/zsh\n";

fn config(user: &str) -> GlobalConfig {
    let mut config = GlobalConfig::default();
    let kali = config.describe("kali");
    config.register("kali", kali);
    config.assign_user("kali", user);
    config
}

fn env() -> Variables {
    VariablesOf {
        term: Some("xterm".to_string()),
        display: Some(":1".to_string()),
        xauthority: None,
        wayland_display: None,
        sudo_user: Some("lee".to_string()),
        executable: None,
    }
}

fn words(text: &str) -> Vec<String> {
    text.split_whitespace().map(|w| w.to_string()).collect()
}

/// A host with a guest that runs and is set up; the fork goes as told.
fn smooth(child: Option<i32>) -> impl FnMut(&Action) -> Reply {
    move |action: &Action| match action {
        ActionOf::FindPid { .. } => ReplyOf::Located { found: Some(42) },
        ActionOf::LoadConfig => ReplyOf::Config { config: config("kim") },
        ActionOf::Exists { .. } => ReplyOf::Found { exists: true },
        ActionOf::ReadText { path } if path.ends_with("passwd") => {
            ReplyOf::Text { text: PASSWD.to_string() }
        }
        ActionOf::ReadText { .. } => ReplyOf::Text { text: HOOK_SCRIPT.to_string() },
        ActionOf::Fork => ReplyOf::Forked { child },
        ActionOf::Wait { .. } => ReplyOf::Waited { code: Some(3) },
        ActionOf::AskUser => ReplyOf::User { name: "lee".to_string(), uid: 1000, gid: 1000 },
        ActionOf::AskVariables => ReplyOf::Variables { env: env() },
        ActionOf::AskDirectory => ReplyOf::Text { text: "/srv".to_string() },
        ActionOf::Exec { .. } => failed("Err(ENOENT)"),
        ActionOf::Boot { .. } => ReplyOf::Booted { pid: 43 },
        _ => ReplyOf::Done,
    }
}

#[test]
fn a_command_as_the_host_sees_it() {
    let (seen, result) = play(run_command_in_distro("kali", &words("ls -la"), false), smooth(Some(7)));
    assert_eq!(result, Ok(ValueOf::Code { code: 3 }));
    assert_eq!(
        seen,
        [
            "FindPid { name: \"kali\" }".to_string(),
            "LoadConfig".to_string(),
            format!("exists {}/merged/etc/lsl_setup_completed", D),
            "LoadConfig".to_string(),
            format!("read {}/merged/etc/passwd", D),
            "AskDirectory".to_string(),
            "OpenNamespace { kind: User, path: \"/proc/42/ns/user\" }".to_string(),
            "OpenNamespace { kind: Mnt, path: \"/proc/42/ns/mnt\" }".to_string(),
            "OpenNamespace { kind: Uts, path: \"/proc/42/ns/uts\" }".to_string(),
            "OpenNamespace { kind: Ipc, path: \"/proc/42/ns/ipc\" }".to_string(),
            "OpenNamespace { kind: Net, path: \"/proc/42/ns/net\" }".to_string(),
            "OpenNamespace { kind: Pid, path: \"/proc/42/ns/pid\" }".to_string(),
            "EnterNamespace { kind: User }".to_string(),
            "EnterNamespace { kind: Uts }".to_string(),
            "EnterNamespace { kind: Ipc }".to_string(),
            "EnterNamespace { kind: Net }".to_string(),
            "EnterNamespace { kind: Pid }".to_string(),
            "EnterNamespace { kind: Mnt }".to_string(),
            "Fork".to_string(),
            "Wait { child: 7 }".to_string(),
        ]
    );
}

#[test]
fn a_command_as_the_guest_sees_it() {
    let (seen, _) = play(run_command_in_distro("kali", &words("ls -la"), false), smooth(None));
    assert_eq!(
        seen[19..],
        [
            "ChangeRoot { path: \"/\" }",
            "ChangeDir { path: \"/\" }",
            "AskUser",
            "InitGroups { user: \"kim\", gid: 1001 }",
            "SetGid { gid: 1001 }",
            "SetUid { uid: 1000 }",
            "read /etc/passwd",
            "AskVariables",
            "ReplaceVariables { names: [\"TERM\", \"SYSTEMD_LOG_LEVEL\", \"SYSTEMD_LOG_TARGET\", \"DISPLAY\", \"XAUTHORITY\", \"XDG_RUNTIME_DIR\", \"PULSE_SERVER\", \"HOME\", \"USER\", \"LOGNAME\", \"SHELL\", \"PATH\"], values: [\"xterm\", \"emerg\", \"console\", \":1\", \"/home/lee/.Xauthority\", \"/run/user/1000\", \"unix:/run/user/1000/pulse/native\", \"/home/kim\", \"kim\", \"kim\", \"/bin/zsh\", \"/usr/local/sbin:/usr/local/bin:/usr/sbin:/usr/bin:/sbin:/bin\"] }",
            "ChangeDir { path: \"/home/kim\" }",
            "Exec { args: [\"ls\", \"-la\"] }",
            "warn Error executing command inside subsystem: Err(ENOENT)",
            "Exit { code: 1 }",
        ]
    );
}

#[test]
fn the_superuser_on_request() {
    let (seen, _) = play(run_command_in_distro("kali", &words("id"), true), smooth(None));
    assert_eq!(seen.iter().filter(|a| a.as_str() == "LoadConfig").count(), 1);
    assert!(!seen.iter().any(|a| a.starts_with("SetUid") || a.contains("passwd")));
    assert!(!seen.iter().any(|a| a.starts_with("SetGid") || a.starts_with("InitGroups")));
    let replaced = seen.iter().find(|a| a.starts_with("ReplaceVariables")).unwrap();
    assert!(replaced.contains("\"/root\", \"root\", \"root\", \"/bin/bash\""));
}

#[test]
fn a_distribution_without_a_user_runs_as_the_superuser() {
    let mut host = smooth(None);
    let (seen, _) = play(run_command_in_distro("kali", &words("id"), false), |action| match action {
        ActionOf::LoadConfig => ReplyOf::Config { config: config("root") },
        _ => host(action),
    });
    assert!(!seen.iter().any(|a| a.starts_with("SetUid") || a.starts_with("SetGid")));
}

#[test]
fn a_user_without_numbers_is_refused() {
    for readable in [true, false] {
        let mut host = smooth(None);
        let (seen, result) = play(run_command_in_distro("kali", &words("id"), false), |action| match action {
            ActionOf::LoadConfig => ReplyOf::Config { config: config("max") },
            ActionOf::ReadText { .. } if !readable => failed("denied"),
            _ => host(action),
        });
        let fault = result.unwrap_err();
        assert_eq!(
            (fault.kind, fault.message.as_str()),
            (FaultKind::NotFound, "User 'max' not found in distro 'kali'")
        );
        assert_eq!(seen.last().unwrap(), &format!("read {}/merged/etc/passwd", D));
    }
}

#[test]
fn rights_that_cannot_be_given_up_end_the_process() {
    for refused in ["SetGid", "SetUid"] {
        let mut host = smooth(None);
        let (seen, _) = play(run_command_in_distro("kali", &words("id"), false), |action| match action {
            ActionOf::SetGid { .. } | ActionOf::SetUid { .. }
                if format!("{:?}", action).starts_with(refused) =>
            {
                failed("EPERM")
            }
            _ => host(action),
        });
        assert!(!seen.iter().any(|a| a.starts_with("Exec")));
        assert_eq!(
            seen[seen.len() - 2..],
            ["warn Error executing command inside subsystem: EPERM", "Exit { code: 1 }"]
        );
    }
}

#[test]
fn a_name_that_no_c_string_holds_takes_a_single_group() {
    let mut host = smooth(None);
    let (seen, _) = play(run_command_in_distro("kali", &words("id"), false), |action| match action {
        ActionOf::LoadConfig => ReplyOf::Config { config: config("a\0b") },
        ActionOf::ReadText { .. } => ReplyOf::Text { text: "a\0b:x:5:6:::\n".to_string() },
        _ => host(action),
    });
    assert!(seen.contains(&"SetGroups { gid: 6 }".to_string()));
    assert!(seen.contains(&"SetUid { uid: 5 }".to_string()));
}

#[test]
fn the_environment_follows_the_host() {
    let mut host = smooth(None);
    let (seen, _) = play(run_command_in_distro("kali", &words("id"), false), |action| match action {
        ActionOf::AskVariables => ReplyOf::Variables {
            env: VariablesOf {
                term: None,
                display: None,
                xauthority: Some("/x".to_string()),
                wayland_display: Some("wayland-0".to_string()),
                sudo_user: None,
                executable: None,
            },
        },
        _ => host(action),
    });
    let replaced = seen.iter().find(|a| a.starts_with("ReplaceVariables")).unwrap();
    assert!(replaced.contains(
        "names: [\"TERM\", \"SYSTEMD_LOG_LEVEL\", \"SYSTEMD_LOG_TARGET\", \"XAUTHORITY\", \"WAYLAND_DISPLAY\", \"XDG_RUNTIME_DIR\""
    ));
    assert!(replaced.contains("values: [\"xterm-256color\", \"emerg\", \"console\", \"/x\", \"wayland-0\""));
}

#[test]
fn the_screen_of_the_superuser_has_no_default_key() {
    let mut host = smooth(None);
    let (seen, _) = play(run_command_in_distro("kali", &words("id"), false), |action| match action {
        ActionOf::AskUser => ReplyOf::User { name: "root".to_string(), uid: 0, gid: 0 },
        _ => host(action),
    });
    let replaced = seen.iter().find(|a| a.starts_with("ReplaceVariables")).unwrap();
    assert!(!replaced.contains("XAUTHORITY"));
}

#[test]
fn commands_start_where_the_guest_can_follow() {
    let mut host = smooth(None);
    let (seen, _) = play(run_command_in_distro("kali", &words("id"), false), |action| match action {
        ActionOf::AskDirectory => ReplyOf::Text { text: "/home/lee/src".to_string() },
        _ => host(action),
    });
    let at = |wanted: &str| seen.iter().position(|a| a == wanted).unwrap();
    assert!(at("AskDirectory") < at("EnterNamespace { kind: Mnt }"));
    assert!(at("ChangeRoot { path: \"/\" }") < at("ChangeDir { path: \"/home/lee/src\" }"));
    let mut host = smooth(None);
    let (seen, _) = play(run_command_in_distro("kali", &words("id"), false), |action| match action {
        ActionOf::AskDirectory => failed("gone"),
        _ => host(action),
    });
    assert!(seen.contains(&"ChangeDir { path: \"/home/kim\" }".to_string()));
}

#[test]
fn a_login_shell_is_greeted() {
    let (seen, _) = play(run_command_in_distro("kali", &[], false), smooth(None));
    assert_eq!(
        seen[5..8],
        [
            format!("CreateDirs {{ path: \"{}/merged/etc/profile.d\" }}", D),
            format!("read {}/merged/etc/profile.d/fastfetch.sh", D),
            format!("exists {}/merged/usr/bin/fastfetch", D),
        ]
    );
    assert!(seen.contains(&"Exec { args: [\"/bin/zsh\", \"--login\"] }".to_string()));
}

#[test]
fn the_hook_is_written_when_it_is_not_in_place() {
    for stale in [Some("old"), None] {
        let mut host = smooth(Some(7));
        let (seen, _) = play(run_command_in_distro("kali", &[], false), |action| match action {
            ActionOf::ReadText { path } if path.ends_with("fastfetch.sh") => match stale {
                Some(text) => ReplyOf::Text { text: text.to_string() },
                None => failed("none"),
            },
            _ => host(action),
        });
        let file = format!("{}/merged/etc/profile.d/fastfetch.sh", D);
        assert!(seen.contains(&format!("write {} {:?}", file, HOOK_SCRIPT)));
        assert!(seen.contains(&format!("SetMode {{ path: {:?}, mode: 493 }}", file)));
    }
}

#[test]
fn troubles_with_the_hook_are_told() {
    let mut host = smooth(Some(7));
    let (seen, result) = play(run_command_in_distro("kali", &[], false), |action| match action {
        ActionOf::CreateDirs { .. } => failed("one"),
        ActionOf::ReadText { path } if path.ends_with("fastfetch.sh") => {
            failed("none")
        }
        ActionOf::WriteText { .. } => failed("two"),
        ActionOf::Exists { path } if path.ends_with("fastfetch") => ReplyOf::Found { exists: false },
        ActionOf::InGuest { .. } => failed("three"),
        _ => host(action),
    });
    assert_eq!(result, Ok(ValueOf::Code { code: 3 }));
    assert!(seen.contains(&"warn Warning: Failed to create profile.d directory: one".to_string()));
    assert!(seen.contains(&"warn Warning: Failed to write fastfetch.sh: two".to_string()));
    assert!(seen.contains(&"warn Warning: Failed to install fastfetch inside guest: three".to_string()));
    assert!(!seen.iter().any(|a| a.starts_with("SetMode")));
}

#[test]
fn the_greeting_is_installed() {
    for arrives in [true, false] {
        let mut host = smooth(Some(7));
        let mut asked = 0;
        let (seen, _) = play(run_command_in_distro("kali", &[], false), |action| match action {
            ActionOf::Exists { path } if path.ends_with("fastfetch") => {
                asked += 1;
                ReplyOf::Found { exists: asked == 2 && arrives }
            }
            _ => host(action),
        });
        assert!(seen.contains(&"in 42: bash -c apt-get install -y fastfetch >/dev/null 2>&1".to_string()));
        let told = if arrives {
            "say [LSL] fastfetch successfully installed!"
        } else {
            "warn Warning: fastfetch installation finished, but binary was not found. Please verify guest internet connection."
        };
        assert!(seen.contains(&told.to_string()));
    }
}

#[test]
fn a_stopped_distribution_is_booted_first() {
    let mut host = smooth(Some(7));
    let (seen, result) = play(run_command_in_distro("kali", &words("id"), true), |action| match action {
        ActionOf::FindPid { .. } => ReplyOf::Located { found: None },
        _ => host(action),
    });
    assert_eq!(result, Ok(ValueOf::Code { code: 3 }));
    assert_eq!(seen[1], "Boot { name: \"kali\" }");
    assert!(seen.contains(&"OpenNamespace { kind: Mnt, path: \"/proc/43/ns/mnt\" }".to_string()));
}

#[test]
fn a_running_distribution_is_not_booted() {
    for root in [true, false] {
        let (seen, _) = play(run_command_in_distro("kali", &words("id"), root), smooth(Some(7)));
        assert!(!seen.iter().any(|a| a.starts_with("Boot")));
    }
}

#[test]
fn a_boot_that_fails_ends_the_visit() {
    let mut host = smooth(Some(7));
    let (seen, result) = play(run_command_in_distro("kali", &words("id"), true), |action| match action {
        ActionOf::FindPid { .. } => ReplyOf::Located { found: None },
        ActionOf::Boot { .. } => failed("no layers"),
        _ => host(action),
    });
    assert_eq!(result.unwrap_err().message, "no layers");
    assert_eq!(seen.len(), 2);
}

#[test]
fn a_boot_that_fails_keeps_its_class() {
    for kind in [FaultKind::Other, FaultKind::NotFound, FaultKind::Host { code: 16 }] {
        let mut host = smooth(Some(7));
        let (_, result) = play(run_command_in_distro("kali", &words("id"), true), |action| match action {
            ActionOf::FindPid { .. } => ReplyOf::Located { found: None },
            ActionOf::Boot { .. } => ReplyOf::Failed { kind, error: "no".to_string() },
            _ => host(action),
        });
        let fault = result.unwrap_err();
        assert_eq!((fault.kind, fault.message.as_str()), (kind, "no"));
    }
}

#[test]
fn an_unknown_distribution_is_refused() {
    let (_, result) = play(run_command_in_distro("void", &words("id"), true), smooth(Some(7)));
    let fault = result.unwrap_err();
    assert_eq!(
        (fault.kind, fault.message.as_str()),
        (FaultKind::NotFound, "Distro 'void' not found in config")
    );
}

#[test]
fn namespaces_are_needed() {
    let texts = [
        ("mnt", "Mount namespace not found: x"),
        ("uts", "UTS namespace not found: x"),
        ("ipc", "IPC namespace not found: x"),
        ("net", "Network namespace not found: x"),
        ("pid", "PID namespace not found: x"),
    ];
    for (kind, message) in texts {
        let mut host = smooth(Some(7));
        let (_, result) = play(run_command_in_distro("kali", &words("id"), true), |action| match action {
            ActionOf::OpenNamespace { path, .. } if path.ends_with(kind) || path.ends_with("user") => {
                failed("x")
            }
            _ => host(action),
        });
        let fault = result.unwrap_err();
        assert_eq!((fault.kind, fault.message.as_str()), (FaultKind::NotFound, message));
    }
}

#[test]
fn namespaces_must_be_entered() {
    for kind in ["Uts", "Ipc", "Net", "Pid", "Mnt"] {
        let mut host = smooth(Some(7));
        let (_, result) = play(run_command_in_distro("kali", &words("id"), true), |action| match action {
            ActionOf::EnterNamespace { kind: k } if format!("{:?}", k) == kind => {
                failed("EPERM")
            }
            _ => host(action),
        });
        let fault = result.unwrap_err();
        assert_eq!(fault.kind, FaultKind::Other);
        assert_eq!(fault.message, format!("Failed to setns for {}: EPERM", kind.to_lowercase()));
    }
}

#[test]
fn waits_and_forks_that_fail() {
    let mut host = smooth(Some(7));
    let (_, result) = play(run_command_in_distro("kali", &words("id"), true), |action| match action {
        ActionOf::Wait { .. } => failed("ECHILD"),
        _ => host(action),
    });
    assert_eq!(result.unwrap_err().message, "Failed to wait for child: ECHILD");
    let mut host = smooth(Some(7));
    let (_, result) = play(run_command_in_distro("kali", &words("id"), true), |action| match action {
        ActionOf::Fork => failed("EAGAIN"),
        _ => host(action),
    });
    assert_eq!(result.unwrap_err().message, "Fork failed: EAGAIN");
}

#[test]
fn a_command_that_was_killed_counts_as_failed() {
    let mut host = smooth(Some(7));
    let (_, result) = play(run_command_in_distro("kali", &words("id"), true), |action| match action {
        ActionOf::Wait { .. } => ReplyOf::Waited { code: None },
        _ => host(action),
    });
    assert_eq!(result, Ok(ValueOf::Code { code: 1 }));
}

fn first_visit(packages: Packages) -> (Vec<String>, Result<Value, Fault>) {
    let mut host = smooth(Some(7));
    play(run_command_in_distro("kali", &words("id"), false), move |action| match action {
        ActionOf::Exists { path } if path.ends_with("completed") => ReplyOf::Found { exists: false },
        ActionOf::ReadText { path } if path == "/etc/timezone" => {
            ReplyOf::Text { text: "Europe/Oslo\n".to_string() }
        }
        ActionOf::Interview { .. } => ReplyOf::Account {
            account: AccountOf {
                username: "kim".to_string(),
                hostname: "box".to_string(),
                password: "pw".to_string(),
                root_password: "rpw".to_string(),
                packages,
            },
        },
        ActionOf::LoadConfig => ReplyOf::Config { config: config("root") },
        _ => host(action),
    })
}

#[test]
fn the_first_visit_sets_the_guest_up() {
    let (seen, result) = first_visit(Packages::Core);
    assert_eq!(result, Ok(ValueOf::Code { code: 3 }));
    let script = "existing_group=$(getent group 1000 | cut -d: -f1); if [ ! -z \"$existing_group\" ] && [ \"$existing_group\" != \"kim\" ]; then groupmod -n \"kim\" \"$existing_group\"; fi; existing_user=$(getent passwd 1000 | cut -d: -f1); if [ ! -z \"$existing_user\" ] && [ \"$existing_user\" != \"kim\" ]; then usermod -l \"kim\" -d \"/home/kim\" -m \"$existing_user\"; else if ! getent group \"kim\" >/dev/null; then groupadd -g 1000 \"kim\" || groupadd \"kim\"; fi; if ! getent passwd \"kim\" >/dev/null; then useradd -u 1000 -g 1000 -m -s /bin/zsh \"kim\" || useradd -m -s /bin/zsh \"kim\"; fi; fi; usermod -s /bin/zsh \"kim\"";
    let stored: Action = ActionOf::StoreConfig {
        path: "/var/lib/lsl/config.json".to_string(),
        config: config("kim"),
    };
    let expected = [
        "Interview { name: \"kali\" }".to_string(),
        "say [LSL] Running guest user configuration...".to_string(),
        format!("write {}/merged/etc/hostname \"box\"", D),
        format!("write {}/diff/etc/hostname \"box\"", D),
        format!("write {}/merged/etc/hosts \"127.0.0.1\\tlocalhost\\n127.0.1.1\\tbox\\n::1\\t\\tlocalhost ip6-localhost ip6-loopback\\n\"", D),
        "say [LSL] Configuring system timezone and locales...".to_string(),
        "read /etc/timezone".to_string(),
        "in 42: bash -c ln -sf /usr/share/zoneinfo/Europe/Oslo /etc/localtime && echo 'Europe/Oslo' > /etc/timezone".to_string(),
        "say [LSL] Updating package database...".to_string(),
        "in 42: apt-get update".to_string(),
        "say [LSL] Installing Zsh, locales, DHCP client, networking, DBus, and Kali default configurations...".to_string(),
        "in 42: apt-get install -y locales zsh kali-defaults zsh-autosuggestions zsh-syntax-highlighting isc-dhcp-client iputils-ping net-tools iproute2 curl wget ca-certificates dbus-x11 fastfetch".to_string(),
        "say [LSL] Generating locale (en_US.UTF-8)...".to_string(),
        "in 42: sed -i s/# en_US.UTF-8 UTF-8/en_US.UTF-8 UTF-8/ /etc/locale.gen".to_string(),
        "in 42: locale-gen".to_string(),
        "in 42: update-locale LANG=en_US.UTF-8".to_string(),
        "say [LSL] Installing Kali Core tools (this may take a few minutes)...".to_string(),
        "in 42: apt-get install -y kali-linux-core".to_string(),
        "say [LSL] Configuring guest user account 'kim'...".to_string(),
        "AskUser".to_string(),
        format!("in 42: bash -c {}", script),
        "say [LSL] Setting passwords...".to_string(),
        "in 42: bash -c echo 'kim:pw' | chpasswd && echo 'root:rpw' | chpasswd".to_string(),
        "say [LSL] Adding user to sudoers groups...".to_string(),
        "in 42: groupadd -f sudo".to_string(),
        "in 42: groupadd -f wheel".to_string(),
        "in 42: usermod -aG sudo kim".to_string(),
        "in 42: usermod -aG wheel kim".to_string(),
        "in 42: bash -c cp /etc/skel/.zshrc /home/kim/.zshrc && chown -R kim:kim /home/kim".to_string(),
        "LoadConfig".to_string(),
        "CreateDirs { path: \"/var/lib/lsl\" }".to_string(),
        brief(&stored),
        format!("CreateFile {{ path: \"{}/merged/etc/lsl_setup_completed\" }}", D),
        "say User setup completed successfully!".to_string(),
        "say [LSL] Restarting subsystem to apply user configuration...".to_string(),
        "Stop { name: \"kali\" }".to_string(),
        "Boot { name: \"kali\" }".to_string(),
    ];
    assert_eq!(seen[3..3 + expected.len()], expected);
    assert!(seen.contains(&"OpenNamespace { kind: Mnt, path: \"/proc/43/ns/mnt\" }".to_string()));
}

#[test]
fn the_tools_that_were_chosen_are_installed() {
    let (seen, _) = first_visit(Packages::Headless);
    assert!(seen.contains(&"in 42: apt-get install -y kali-linux-headless".to_string()));
    let (seen, _) = first_visit(Packages::Minimal);
    assert!(seen.contains(&"say [LSL] Skipping optional packages (minimal install)...".to_string()));
    assert!(!seen.iter().any(|a| a.contains("kali-linux-")));
}

#[test]
fn a_host_without_a_time_zone_is_in_utc() {
    assert_eq!(find_zone(None), "UTC");
    assert_eq!(find_zone(Some(" Asia/Tokyo\n")), "Asia/Tokyo");
}

#[test]
fn an_interview_that_breaks_off_ends_the_visit() {
    let mut host = smooth(Some(7));
    let (_, result) = play(run_command_in_distro("kali", &words("id"), false), |action| match action {
        ActionOf::Exists { .. } => ReplyOf::Found { exists: false },
        ActionOf::Interview { .. } => failed("eof"),
        _ => host(action),
    });
    assert_eq!(result.unwrap_err().message, "eof");
}
