use lsl::action::{Action, ActionOf, Fault, FaultKind, Reply, ReplyOf, Value, ValueOf};
use lsl::boot::{boot_distro, pick_hostname};
use lsl::config::GlobalConfig;
use lsl::task::{Plan, Task, TaskOf};

/// Runs a task against a host and tells what was asked of it and how it ended.
fn play<P: Plan>(
    task: Task<P>,
    mut host: impl FnMut(&Action) -> Reply,
) -> (Vec<String>, Result<Value, Fault>) {
    let mut task = task;
    let mut seen = Vec::new();
    loop {
        let reply = match task.pending() {
            Some(action) => {
                seen.push(brief(action));
                host(action)
            }
            None => break,
        };
        task = task.resume(reply);
    }
    match task {
        TaskOf::Over { result } => (seen, result),
        TaskOf::Active { .. } => panic!("the task waits for nothing"),
    }
}

/// An error of the host.
fn failed(text: &str) -> Reply {
    ReplyOf::Failed { kind: FaultKind::Host { code: 5 }, error: text.to_string() }
}

/// An action in short.
fn brief(action: &Action) -> String {
    match action {
        ActionOf::Say { lead, text, tail, .. } => format!("say {}{}{}", lead, text, tail),
        ActionOf::Warn { lead, text, tail, .. } => format!("warn {}{}{}", lead, text, tail),
        ActionOf::Run { program, args } => format!("{} {}", program, args.join(" ")),
        ActionOf::Capture { program, args } => format!("{} {}", program, args.join(" ")),
        ActionOf::Exists { path } => format!("exists {}", path),
        ActionOf::ReadText { path } => format!("read {}", path),
        ActionOf::ReadBytes { path } => format!("read {}", path),
        ActionOf::WriteText { path, text } => format!("write {} {:?}", path, text),
        ActionOf::AppendText { path, text } => format!("append {} {:?}", path, text),
        ActionOf::InGuest { pid, args } => format!("in {}: {}", pid, args.join(" ")),
        _ => format!("{:?}", action),
    }
}

fn config() -> GlobalConfig {
    let mut config = GlobalConfig::default();
    let kali = config.describe("kali");
    config.register("kali", kali);
    config
}

/// A host on which all goes well; the forks go as told.
fn smooth(forks: &[Option<i32>]) -> impl FnMut(&Action) -> Reply {
    let mut forks: Vec<Option<i32>> = forks.iter().rev().cloned().collect();
    move |action: &Action| match action {
        ActionOf::LoadConfig => ReplyOf::Config { config: config() },
        ActionOf::AskUser => ReplyOf::User { name: "kim".to_string(), uid: 1000, gid: 1001 },
        ActionOf::AskHome => ReplyOf::Text { text: "/home/kim".to_string() },
        ActionOf::Exists { .. } => ReplyOf::Found { exists: true },
        ActionOf::Fork => ReplyOf::Forked { child: forks.pop().unwrap() },
        ActionOf::Wait { .. } => ReplyOf::Waited { code: Some(0) },
        ActionOf::ReceivePid => ReplyOf::Received { number: 4711 },
        ActionOf::Probe { .. } => ReplyOf::Probed { delivered: true, denied: false },
        ActionOf::ReadText { .. } => ReplyOf::Text { text: "box\n".to_string() },
        _ => ReplyOf::Done,
    }
}

const D: &str = "/var/lib/lsl/distros/kali";

#[test]
fn a_boot_as_the_host_sees_it() {
    let (seen, result) = play(boot_distro("kali"), smooth(&[Some(7)]));
    assert_eq!(result, Ok(ValueOf::Pid { pid: 4711 }));
    let expected: Vec<String> = [
        "LoadConfig",
        "say Booting distro 'kali'...",
        "CreateDirs { path: \"{D}/diff\" }",
        "CreateDirs { path: \"{D}/work\" }",
        "CreateDirs { path: \"{D}/merged\" }",
        "Unmount { target: \"{D}/merged\" }",
        "Mount { source: Some(\"overlay\"), target: \"{D}/merged\", fstype: Some(\"overlay\"), flags: Plain, data: Some(\"lowerdir={D}/rootfs,upperdir={D}/diff,workdir={D}/work\") }",
        "exists {D}/merged/bin/ping",
        "chmod u+s {D}/merged/bin/ping",
        "exists {D}/merged/usr/bin/ping",
        "chmod u+s {D}/merged/usr/bin/ping",
        "CreateDirs { path: \"{D}/merged/etc/sudoers.d\" }",
        "CreateFile { path: \"{D}/merged/etc/sudoers.d/lsl-sudoers\" }",
        "write {D}/merged/etc/sudoers.d/lsl-sudoers \"%sudo ALL=(ALL:ALL) ALL\\n%wheel ALL=(ALL:ALL) ALL\\n\"",
        "SetMode { path: \"{D}/merged/etc/sudoers.d/lsl-sudoers\", mode: 288 }",
        "AskUser",
        "OpenPipe",
        "Fork",
        "CloseWriter",
        "Wait { child: 7 }",
        "ReceivePid",
        "write /proc/4711/uid_map \"0 0 4294967295\\n\"",
        "write /proc/4711/gid_map \"0 0 4294967295\\n\"",
        "Sleep { millis: 150 }",
        "Probe { pid: 4711 }",
        "SetUpNetwork { name: \"kali\", pid: 4711, ip: \"dhcp\", mac: \"02:42:0a:58:00:01\" }",
        "Probe { pid: 4711 }",
        "write /var/lib/lsl/run/kali.pid \"4711\"",
        "AskHome",
        "CreateDirs { path: \"/home/kim/LSL/kali\" }",
        "AskUser",
        "SetOwner { path: \"/home/kim/LSL\", uid: 1000, gid: 1001 }",
        "SetOwner { path: \"/home/kim/LSL/kali\", uid: 1000, gid: 1001 }",
        "Mount { source: Some(\"{D}/merged\"), target: \"/home/kim/LSL/kali\", fstype: Some(\"none\"), flags: Bind, data: None }",
        "say Distro 'kali' booted successfully (PID 4711).",
    ]
    .iter()
    .map(|line| line.replace("{D}", D))
    .collect();
    assert_eq!(seen, expected);
}

const UNSHARE: &str =
    "Unshare { kinds: Kinds { user: true, mnt: true, uts: true, ipc: true, net: true, pid: true } }";

#[test]
fn the_middle_process_sends_a_number_and_ends() {
    let (seen, result) = play(boot_distro("kali"), smooth(&[None, Some(9)]));
    assert_eq!(
        seen[18..],
        [
            "CloseReader",
            UNSHARE,
            "Mount { source: None, target: \"/\", fstype: None, flags: PrivateTree, data: None }",
            "Fork",
            "SendPid { child: 9 }",
            "Exit { code: 0 }",
        ]
    );
    assert!(result.is_err());
}

#[test]
fn the_middle_process_gives_up_quietly() {
    let mut host = smooth(&[None]);
    let (seen, _) = play(boot_distro("kali"), |action| match action {
        ActionOf::Unshare { .. } => failed("EPERM"),
        _ => host(action),
    });
    assert_eq!(seen[seen.len() - 2..], [UNSHARE, "Exit { code: 1 }"]);
    let mut forks = 0;
    let mut host = smooth(&[None]);
    let (seen, _) = play(boot_distro("kali"), |action| match action {
        ActionOf::Fork if forks == 1 => failed("EAGAIN"),
        ActionOf::Fork => {
            forks += 1;
            host(action)
        }
        _ => host(action),
    });
    assert_eq!(seen[seen.len() - 2..], ["Fork", "Exit { code: 1 }"]);
}

#[test]
fn a_boot_as_the_guest_sees_it() {
    let (seen, result) = play(boot_distro("kali"), smooth(&[None, None]));
    assert_eq!(result, Ok(ValueOf::Nothing));
    let unwrapped: Vec<String> = [
        "CloseWriter",
        "Redirect { path: \"/var/lib/lsl/run/kali-boot.log\" }",
        "Sleep { millis: 50 }",
        "read {D}/diff/etc/hostname",
        "SetHostname { name: \"box\" }",
        "Mount { source: Some(\"{D}/merged\"), target: \"{D}/merged\", fstype: None, flags: BindTree, data: None }",
        "CreateDirs { path: \"{D}/merged/proc\" }",
        "Mount { source: Some(\"proc\"), target: \"{D}/merged/proc\", fstype: Some(\"proc\"), flags: Plain, data: None }",
        "CreateDirs { path: \"{D}/merged/sys\" }",
        "Mount { source: Some(\"sysfs\"), target: \"{D}/merged/sys\", fstype: Some(\"sysfs\"), flags: Plain, data: None }",
        "CreateDirs { path: \"{D}/merged/dev\" }",
        "Mount { source: Some(\"/dev\"), target: \"{D}/merged/dev\", fstype: None, flags: BindTree, data: None }",
        "CreateDirs { path: \"{D}/merged/dev/pts\" }",
        "Mount { source: Some(\"devpts\"), target: \"{D}/merged/dev/pts\", fstype: Some(\"devpts\"), flags: Plain, data: Some(\"newinstance,ptmxmode=0666,mode=620\") }",
        "CreateDirs { path: \"{D}/merged/tmp\" }",
        "Mount { source: Some(\"tmpfs\"), target: \"{D}/merged/tmp\", fstype: Some(\"tmpfs\"), flags: Plain, data: Some(\"mode=1777\") }",
        "exists /tmp/.X11-unix",
        "CreateDirs { path: \"{D}/merged/tmp/.X11-unix\" }",
        "Mount { source: Some(\"/tmp/.X11-unix\"), target: \"{D}/merged/tmp/.X11-unix\", fstype: None, flags: BindTree, data: None }",
        "CreateDirs { path: \"{D}/merged/run\" }",
        "Mount { source: Some(\"tmpfs\"), target: \"{D}/merged/run\", fstype: Some(\"tmpfs\"), flags: Plain, data: Some(\"mode=755\") }",
        "exists /run/user/1000",
        "CreateDirs { path: \"{D}/merged/run/user/1000\" }",
        "Mount { source: Some(\"/run/user/1000\"), target: \"{D}/merged/run/user/1000\", fstype: None, flags: BindTree, data: None }",
        "CreateDirs { path: \"{D}/merged/mnt/host\" }",
        "Mount { source: Some(\"/home\"), target: \"{D}/merged/mnt/host\", fstype: None, flags: BindTree, data: None }",
        "CreateDirs { path: \"{D}/merged/etc\" }",
        "write {D}/merged/etc/resolv.conf \"nameserver 1.1.1.1\\nnameserver 8.8.8.8\\n\"",
        "CreateDirs { path: \"{D}/merged/.old_root\" }",
        "PivotRoot { root: \"{D}/merged\", old: \"{D}/merged/.old_root\" }",
        "ChangeDir { path: \"/\" }",
        "Unmount { target: \"/.old_root\" }",
        "RemoveDir { path: \"/.old_root\" }",
    ]
    .iter()
    .map(|line| line.replace("{D}", D))
    .collect();
    assert_eq!(seen[22..], unwrapped[..]);
}

#[test]
fn sockets_that_the_host_lacks_are_left_out() {
    let mut host = smooth(&[None, None]);
    let (seen, result) = play(boot_distro("kali"), |action| match action {
        ActionOf::Exists { .. } => ReplyOf::Found { exists: false },
        _ => host(action),
    });
    assert_eq!(result, Ok(ValueOf::Nothing));
    assert!(!seen.iter().any(|a| a.contains("/merged/tmp/.X11-unix")));
    assert!(!seen.iter().any(|a| a.contains("/merged/run/user")));
    assert!(!seen.iter().any(|a| a.starts_with("chmod")));
}

#[test]
fn without_a_pivot_the_root_is_changed() {
    let mut host = smooth(&[None, None]);
    let (seen, result) = play(boot_distro("kali"), |action| match action {
        ActionOf::PivotRoot { .. } => failed("EINVAL"),
        _ => host(action),
    });
    assert_eq!(result, Ok(ValueOf::Nothing));
    assert_eq!(
        seen[seen.len() - 2..],
        [format!("ChangeRoot {{ path: \"{}/merged\" }}", D), "ChangeDir { path: \"/\" }".to_string()]
    );
}

#[test]
fn a_mount_that_a_guest_cannot_do_without() {
    let mut host = smooth(&[None, None]);
    let (_, result) = play(boot_distro("kali"), |action| match action {
        ActionOf::Mount { fstype: Some(kind), .. } if kind == "sysfs" => {
            failed("EPERM")
        }
        _ => host(action),
    });
    let fault = result.unwrap_err();
    assert_eq!((fault.kind, fault.message.as_str()), (FaultKind::Panic, "Failed to mount sysfs: EPERM"));
}

#[test]
fn host_names_have_stand_ins() {
    assert_eq!(pick_hostname("kali", Some(" box\n")), "box");
    assert_eq!(pick_hostname("kali", Some("LXC_NAME\n")), "lsl-kali");
    assert_eq!(pick_hostname("kali", Some("\n")), "lsl-kali");
    assert_eq!(pick_hostname("kali", None), "lsl-kali");
}

#[test]
fn the_base_name_is_read_when_it_was_not_changed() {
    let mut host = smooth(&[None, None]);
    let (seen, _) = play(boot_distro("kali"), |action| match action {
        ActionOf::ReadText { path } if path.contains("/diff/") => {
            failed("none")
        }
        _ => host(action),
    });
    assert!(seen.contains(&format!("read {}/rootfs/etc/hostname", D)));
    assert!(seen.contains(&"SetHostname { name: \"box\" }".to_string()));
    let mut host = smooth(&[None, None]);
    let (seen, _) = play(boot_distro("kali"), |action| match action {
        ActionOf::ReadText { .. } => failed("none"),
        _ => host(action),
    });
    assert!(seen.contains(&"SetHostname { name: \"lsl-kali\" }".to_string()));
}

#[test]
fn a_host_name_with_a_zero_is_beyond_help() {
    let mut host = smooth(&[None, None]);
    let (_, result) = play(boot_distro("kali"), |action| match action {
        ActionOf::ReadText { .. } => ReplyOf::Text { text: "a\0b".to_string() },
        _ => host(action),
    });
    assert_eq!(result.unwrap_err().kind, FaultKind::Panic);
}

#[test]
fn only_registered_distributions_boot() {
    let (seen, result) = play(boot_distro("void"), smooth(&[]));
    let fault = result.unwrap_err();
    assert_eq!((fault.kind, fault.message.as_str()), (FaultKind::NotFound, "Distro 'void' not registered"));
    assert_eq!(seen.len(), 1);
}

#[test]
fn the_layers_must_be_mounted() {
    let mut host = smooth(&[Some(7)]);
    let (_, result) = play(boot_distro("kali"), |action| match action {
        ActionOf::Mount { .. } => failed("ENODEV"),
        _ => host(action),
    });
    assert_eq!(result.unwrap_err().message, "Failed to mount overlayfs on host: ENODEV");
}

#[test]
fn a_pipe_and_a_fork_are_needed() {
    let mut host = smooth(&[Some(7)]);
    let (_, result) = play(boot_distro("kali"), |action| match action {
        ActionOf::OpenPipe => failed("EMFILE"),
        _ => host(action),
    });
    assert_eq!(result.unwrap_err().message, "Failed to create pipe: EMFILE");
    let mut host = smooth(&[Some(7)]);
    let (_, result) = play(boot_distro("kali"), |action| match action {
        ActionOf::Fork => failed("EAGAIN"),
        _ => host(action),
    });
    assert_eq!(result.unwrap_err().message, "Fork failed: EAGAIN");
}

#[test]
fn a_number_that_never_comes_fails_the_boot() {
    let mut host = smooth(&[Some(7)]);
    let (_, result) = play(boot_distro("kali"), |action| match action {
        ActionOf::ReceivePid => failed("eof"),
        _ => host(action),
    });
    let fault = result.unwrap_err();
    assert_eq!(
        (fault.kind, fault.message.as_str()),
        (FaultKind::Other, "Failed to read guest init PID from pipe")
    );
}

fn dead(probes: usize, log: bool, readable: bool) -> (Vec<String>, String) {
    let mut host = smooth(&[Some(7)]);
    let mut left = probes;
    let (seen, result) = play(boot_distro("kali"), |action| match action {
        ActionOf::Probe { .. } => {
            let delivered = left > 0;
            left = left.saturating_sub(1);
            ReplyOf::Probed { delivered, denied: false }
        }
        ActionOf::Exists { path } if path.ends_with("-boot.log") => ReplyOf::Found { exists: log },
        ActionOf::ReadText { .. } if !readable => failed("denied"),
        ActionOf::ReadText { .. } => ReplyOf::Text { text: "no proc".to_string() },
        _ => host(action),
    });
    (seen, result.unwrap_err().message)
}

#[test]
fn an_init_process_that_is_gone_is_reported() {
    let said = |report: &str| format!("Subsystem init process failed to boot:\n{}", report);
    assert_eq!(dead(0, true, true).1, said("no proc"));
    assert_eq!(dead(0, true, false).1, said("Unknown initialization error"));
    assert_eq!(dead(0, false, true).1, said("Subsystem init process exited early"));
    let (seen, message) = dead(1, false, true);
    assert_eq!(message, said("Subsystem init process exited early after network setup"));
    assert!(!seen.iter().any(|a| a.contains("kali.pid")));
}

#[test]
fn a_process_that_may_not_be_signalled_is_alive() {
    let mut host = smooth(&[Some(7)]);
    let (_, result) = play(boot_distro("kali"), |action| match action {
        ActionOf::Probe { .. } => ReplyOf::Probed { delivered: false, denied: true },
        _ => host(action),
    });
    assert_eq!(result, Ok(ValueOf::Pid { pid: 4711 }));
}

#[test]
fn a_network_failure_is_told_and_fails_the_boot() {
    let mut host = smooth(&[Some(7)]);
    let (seen, result) = play(boot_distro("kali"), |action| match action {
        ActionOf::SetUpNetwork { .. } => failed("no cable"),
        _ => host(action),
    });
    let fault = result.unwrap_err();
    assert_eq!((fault.kind, fault.message.as_str()), (FaultKind::Host { code: 5 }, "no cable"));
    assert_eq!(seen.last().unwrap(), "say Warning: Network configuration failed: no cable");
}

#[test]
fn a_network_failure_keeps_its_class() {
    for kind in [FaultKind::Other, FaultKind::NotFound, FaultKind::Host { code: 1 }] {
        let mut host = smooth(&[Some(7)]);
        let (_, result) = play(boot_distro("kali"), |action| match action {
            ActionOf::SetUpNetwork { .. } => {
                ReplyOf::Failed { kind, error: "Failed to create veth pair".to_string() }
            }
            _ => host(action),
        });
        let fault = result.unwrap_err();
        assert_eq!((fault.kind, fault.message.as_str()), (kind, "Failed to create veth pair"));
    }
}

#[test]
fn a_number_that_cannot_be_written_down_fails_the_boot() {
    let mut host = smooth(&[Some(7)]);
    let (_, result) = play(boot_distro("kali"), |action| match action {
        ActionOf::WriteText { path, .. } if path.ends_with(".pid") => {
            failed("full")
        }
        _ => host(action),
    });
    assert_eq!(result.unwrap_err().message, "full");
}

#[test]
fn the_root_file_system_is_never_written_to() {
    for forks in [[Some(7), None], [None, None]] {
        let (seen, _) = play(boot_distro("kali"), smooth(&forks));
        let base = format!("{}/rootfs", D);
        for action in seen {
            assert!(!action.contains(&base) || action.contains("lowerdir=") || action.starts_with("read"));
        }
    }
}
