use lsl::action::{tell, Action, ActionOf, Fault, FaultKind, FaultOf, Reply, ReplyOf, Value, ValueOf};
use lsl::config::GlobalConfig;
use lsl::runtime::{
    execute_setup_cmd_in_guest, get_distro_init_pid, host_mount_path, is_distro_running,
    pid_file_path, reap_next, read_pid, stop_distro, Reaped, Reaping, GUEST_PATH,
};
use lsl::task::{Plan, Task, TaskOf};

/// Runs a task against a host and tells what was asked of it and how it ended.
fn play<P: Plan>(
    task: Task<P>,
    mut host: impl FnMut(&Action) -> Reply,
) -> (Vec<String>, Result<Value, Fault>) {
    let mut task = task;
    let mut seen = Vec::new();
    loop {
        let reply = match task.pending() {
            Some(action) => {
                seen.push(brief(action));
                host(action)
            }
            None => break,
        };
        task = task.resume(reply);
    }
    match task {
        TaskOf::Over { result } => (seen, result),
        TaskOf::Active { .. } => panic!("the task waits for nothing"),
    }
}

/// An error of the host.
fn failed(text: &str) -> Reply {
    ReplyOf::Failed { kind: FaultKind::Host { code: 5 }, error: text.to_string() }
}

/// An action in short.
fn brief(action: &Action) -> String {
    match action {
        ActionOf::Say { lead, text, tail, .. } => format!("say {}{}{}", lead, text, tail),
        ActionOf::Warn { lead, text, tail, .. } => format!("warn {}{}{}", lead, text, tail),
        ActionOf::Run { program, args } => format!("{} {}", program, args.join(" ")),
        ActionOf::Capture { program, args } => format!("{} {}", program, args.join(" ")),
        ActionOf::Exists { path } => format!("exists {}", path),
        ActionOf::ReadText { path } => format!("read {}", path),
        ActionOf::ReadBytes { path } => format!("read {}", path),
        ActionOf::WriteText { path, text } => format!("write {} {:?}", path, text),
        ActionOf::AppendText { path, text } => format!("append {} {:?}", path, text),
        ActionOf::InGuest { pid, args } => format!("in {}: {}", pid, args.join(" ")),
        _ => format!("{:?}", action),
    }
}

#[test]
fn files_of_a_running_distribution() {
    assert_eq!(pid_file_path("kali"), "/var/lib/lsl/run/kali.pid");
    assert_ne!(pid_file_path("a"), pid_file_path("b"));
    assert_eq!(host_mount_path("/home/kim", "kali"), "/home/kim/LSL/kali");
}

#[test]
fn process_numbers_are_read_back() {
    assert_eq!(read_pid("4711"), Some(4711));
    assert_eq!(read_pid(" 4711\n"), Some(4711));
    assert_eq!(read_pid("4294967295"), Some(u32::MAX));
    assert_eq!(read_pid("4294967296"), None);
    assert_eq!(read_pid("-1"), None);
    assert_eq!(read_pid(""), None);
}

#[test]
fn a_running_distribution_is_found() {
    let (seen, result) = play(get_distro_init_pid("kali"), |action| match action {
        ActionOf::ReadText { .. } => ReplyOf::Text { text: "4711".to_string() },
        _ => ReplyOf::Found { exists: true },
    });
    assert_eq!(result, Ok(ValueOf::Located { found: Some(4711) }));
    assert_eq!(
        seen,
        ["exists /var/lib/lsl/run/kali.pid", "read /var/lib/lsl/run/kali.pid", "exists /proc/4711/ns/uts"]
    );
}

#[test]
fn a_stopped_distribution_is_not_found() {
    let (seen, result) = play(get_distro_init_pid("kali"), |_| ReplyOf::Found { exists: false });
    assert_eq!(result, Ok(ValueOf::Located { found: None }));
    assert_eq!(seen.len(), 1);
}

#[test]
fn a_stale_number_is_forgotten() {
    let (seen, result) = play(get_distro_init_pid("kali"), |action| match action {
        ActionOf::ReadText { .. } => ReplyOf::Text { text: "4711".to_string() },
        ActionOf::Exists { path } => ReplyOf::Found { exists: !path.starts_with("/proc") },
        _ => failed("busy"),
    });
    assert_eq!(result, Ok(ValueOf::Located { found: None }));
    assert_eq!(seen.last().unwrap(), "RemoveFile { path: \"/var/lib/lsl/run/kali.pid\" }");
}

#[test]
fn looking_for_a_process_never_fails() {
    for text in ["x", "", "-3"] {
        let (_, result) = play(get_distro_init_pid("kali"), |action| match action {
            ActionOf::ReadText { .. } => ReplyOf::Text { text: text.to_string() },
            _ => ReplyOf::Found { exists: true },
        });
        assert_eq!(result, Ok(ValueOf::Located { found: None }));
    }
    let (_, result) = play(get_distro_init_pid("kali"), |action| match action {
        ActionOf::ReadText { .. } => failed("denied"),
        _ => ReplyOf::Found { exists: true },
    });
    assert_eq!(result, Ok(ValueOf::Located { found: None }));
}

#[test]
fn what_was_found_tells_whether_it_runs() {
    assert!(is_distro_running(Some(1)));
    assert!(!is_distro_running(None));
}

#[test]
fn stopping_kills_and_cleans_up() {
    let (seen, result) = play(stop_distro("kali"), |action| match action {
        ActionOf::AskHome => ReplyOf::Text { text: "/home/kim".to_string() },
        ActionOf::FindPid { .. } => ReplyOf::Located { found: Some(4711) },
        ActionOf::Exists { .. } => ReplyOf::Found { exists: true },
        _ => ReplyOf::Done,
    });
    assert_eq!(result, Ok(ValueOf::Nothing));
    assert_eq!(
        seen,
        [
            "AskHome",
            "exists /home/kim/LSL/kali",
            "Unmount { target: \"/home/kim/LSL/kali\" }",
            "RemoveDir { path: \"/home/kim/LSL/kali\" }",
            "FindPid { name: \"kali\" }",
            "say Stopping distro 'kali' (Init PID: 4711)...",
            "Kill { pid: 4711 }",
            "Sleep { millis: 200 }",
            "exists /var/lib/lsl/run/kali.pid",
            "RemoveFile { path: \"/var/lib/lsl/run/kali.pid\" }",
            "Unmount { target: \"/var/lib/lsl/distros/kali/merged\" }",
            "say Cleaning up network configuration for distro 'kali'...",
            "pkill -f dhclient.*lsl-kali",
            "nft delete table ip lsl-kali",
            "ip link del lsl-v-kali-0",
            "exists /var/run/netns/lsl-kali",
            "umount -l /var/run/netns/lsl-kali",
            "RemoveFile { path: \"/var/run/netns/lsl-kali\" }",
            "say Distro 'kali' stopped successfully.",
        ]
    );
}

#[test]
fn stopping_the_stopped_succeeds() {
    let (seen, result) = play(stop_distro("kali"), |action| match action {
        ActionOf::AskHome => ReplyOf::Text { text: "/home/kim".to_string() },
        ActionOf::FindPid { .. } => ReplyOf::Located { found: None },
        _ => failed("nothing works"),
    });
    assert_eq!(result, Ok(ValueOf::Nothing));
    assert!(seen.contains(&"say Distro 'kali' is already stopped.".to_string()));
    assert!(seen.contains(&"nft delete table ip lsl-kali".to_string()));
    assert!(!seen.iter().any(|a| a.starts_with("Unmount")));
}

#[test]
fn only_the_kill_can_fail() {
    let stop = |kill: Reply| {
        let mut kill = Some(kill);
        play(stop_distro("kali"), move |action| match action {
            ActionOf::AskHome => ReplyOf::Text { text: "/home/kim".to_string() },
            ActionOf::FindPid { .. } => ReplyOf::Located { found: Some(4711) },
            ActionOf::Kill { .. } => kill.take().unwrap(),
            _ => failed("nothing works"),
        })
    };
    assert_eq!(stop(ReplyOf::Done).1, Ok(ValueOf::Nothing));
    assert_eq!(stop(ReplyOf::Gone).1, Ok(ValueOf::Nothing));
    let fault = stop(failed("denied")).1.unwrap_err();
    assert_eq!((fault.kind, fault.message.as_str()), (FaultKind::Host { code: 5 }, "denied"));
}

fn guest(first: Option<i32>, second: Option<i32>, rest: fn() -> Reply) -> (Vec<String>, Result<Value, Fault>) {
    let mut forks = vec![second, first];
    let args = vec!["apt-get".to_string(), "update".to_string()];
    play(execute_setup_cmd_in_guest(42, &args), move |action| match action {
        ActionOf::Fork => ReplyOf::Forked { child: forks.pop().unwrap() },
        ActionOf::Wait { .. } | ActionOf::RunWith { .. } => rest(),
        _ => ReplyOf::Done,
    })
}

#[test]
fn the_host_waits_for_a_command_of_its_own() {
    let (seen, result) = guest(Some(7), None, || ReplyOf::Waited { code: Some(3) });
    assert_eq!(result, Ok(ValueOf::Nothing));
    assert_eq!(
        seen,
        [
            "OpenNamespace { kind: User, path: \"/proc/42/ns/user\" }",
            "OpenNamespace { kind: Mnt, path: \"/proc/42/ns/mnt\" }",
            "OpenNamespace { kind: Uts, path: \"/proc/42/ns/uts\" }",
            "OpenNamespace { kind: Ipc, path: \"/proc/42/ns/ipc\" }",
            "OpenNamespace { kind: Net, path: \"/proc/42/ns/net\" }",
            "OpenNamespace { kind: Pid, path: \"/proc/42/ns/pid\" }",
            "Fork",
            "Wait { child: 7 }",
        ]
    );
}

#[test]
fn the_child_enters_and_hands_its_code_on() {
    let (seen, _) = guest(None, Some(8), || ReplyOf::Waited { code: Some(3) });
    assert_eq!(
        seen[7..],
        [
            "EnterNamespace { kind: User }",
            "EnterNamespace { kind: Uts }",
            "EnterNamespace { kind: Ipc }",
            "EnterNamespace { kind: Net }",
            "EnterNamespace { kind: Pid }",
            "EnterNamespace { kind: Mnt }",
            "ChangeRoot { path: \"/\" }",
            "ChangeDir { path: \"/\" }",
            "Fork",
            "Wait { child: 8 }",
            "Exit { code: 3 }",
        ]
    );
    let (killed, _) = guest(None, Some(8), || ReplyOf::Waited { code: None });
    assert_eq!(killed.last().unwrap(), "Exit { code: 1 }");
}

#[test]
fn the_command_ends_its_process() {
    let (seen, _) = guest(None, None, || ReplyOf::Exit { success: true });
    assert_eq!(
        seen[seen.len() - 2..],
        [
            format!("RunWith {{ path: {:?}, args: [\"apt-get\", \"update\"] }}", GUEST_PATH),
            "Exit { code: 0 }".to_string(),
        ]
    );
    let (refused, _) = guest(None, None, || ReplyOf::Exit { success: false });
    assert_eq!(refused.last().unwrap(), "Exit { code: 1 }");
    let (missing, _) = guest(None, None, || failed("none"));
    assert_eq!(missing.last().unwrap(), "Exit { code: 1 }");
}

#[test]
fn a_namespace_that_is_missing_ends_the_command() {
    let (_, result) = play(execute_setup_cmd_in_guest(42, &["x".to_string()]), |action| match action {
        ActionOf::OpenNamespace { path, .. } if path.ends_with("user") || path.ends_with("mnt") => {
            failed(path)
        }
        _ => ReplyOf::Done,
    });
    let fault = result.unwrap_err();
    assert_eq!((fault.kind, fault.message.as_str()), (FaultKind::Host { code: 5 }, "/proc/42/ns/mnt"));
}

#[test]
fn a_fork_that_fails_ends_the_command() {
    let (_, result) = play(execute_setup_cmd_in_guest(42, &["x".to_string()]), |action| match action {
        ActionOf::Fork => failed("EAGAIN"),
        _ => ReplyOf::Done,
    });
    let fault = result.unwrap_err();
    assert_eq!((fault.kind, fault.message.as_str()), (FaultKind::Other, "Fork failed: EAGAIN"));
    let mut forks = 0;
    let (seen, _) = play(execute_setup_cmd_in_guest(42, &["x".to_string()]), |action| match action {
        ActionOf::Fork => {
            forks += 1;
            if forks == 1 {
                ReplyOf::Forked { child: None }
            } else {
                failed("EAGAIN")
            }
        }
        _ => ReplyOf::Done,
    });
    assert_eq!(seen.last().unwrap(), "Exit { code: 1 }");
}

#[test]
fn an_init_process_reaps_forever() {
    assert_eq!(reap_next(Reaping::Await, Reaped::One), Reaping::Collect);
    assert_eq!(reap_next(Reaping::Collect, Reaped::One), Reaping::Collect);
    assert_eq!(reap_next(Reaping::Collect, Reaped::Nobody), Reaping::Await);
    assert_eq!(reap_next(Reaping::Collect, Reaped::Failed), Reaping::Await);
    assert_eq!(reap_next(Reaping::Await, Reaped::Failed), Reaping::Rest);
    assert_eq!(reap_next(Reaping::Rest, Reaped::Nobody), Reaping::Await);
}

#[test]
fn results_of_tasks_become_replies() {
    assert_eq!(tell(Ok(ValueOf::Nothing)), ReplyOf::Done);
    assert_eq!(tell(Ok(ValueOf::Pid { pid: 1 })), ReplyOf::Booted { pid: 1 });
    assert_eq!(tell(Ok(ValueOf::Located { found: None })), ReplyOf::Located { found: None });
    assert_eq!(tell(Ok(ValueOf::Code { code: 3 })), ReplyOf::Waited { code: Some(3) });
    assert_eq!(tell(Ok(ValueOf::Flag { yes: true })), ReplyOf::Exit { success: true });
    let distro = GlobalConfig::default().describe("kali");
    assert_eq!(
        tell(Ok(ValueOf::Distro { distro: distro.clone() })),
        ReplyOf::Registered { distro }
    );
    for kind in [FaultKind::Other, FaultKind::NotFound, FaultKind::Host { code: 13 }] {
        let fault = FaultOf { kind, message: "no".to_string() };
        assert_eq!(tell(Err(fault)), ReplyOf::Failed { kind, error: "no".to_string() });
    }
}
