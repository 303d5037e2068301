use lsl::action::{Action, ActionOf, Fault, FaultKind, Reply, ReplyOf, Value};
use lsl::boot::boot_distro;
use lsl::cli::{serve, CommandOf, RequestOf};
use lsl::config::GlobalConfig;
use lsl::distro::{import_distro, install_kali, setup_distro_user, unregister_distro};
use lsl::listing::list_distros;
use lsl::network::setup_network;
use lsl::runtime::{execute_setup_cmd_in_guest, get_distro_init_pid, stop_distro};
use lsl::session::run_command_in_distro;
use lsl::task::{Plan, Task, TaskOf};
use lsl::terminal::spawn_separate_terminal;

/// Runs a task against a host and tells what was asked of it and how it ended.
fn play<P: Plan>(
    task: Task<P>,
    mut host: impl FnMut(&Action) -> Reply,
) -> (Vec<String>, Result<Value, Fault>) {
    let mut task = task;
    let mut seen = Vec::new();
    loop {
        let reply = match task.pending() {
            Some(action) => {
                seen.push(brief(action));
                host(action)
            }
            None => break,
        };
        task = task.resume(reply);
    }
    match task {
        TaskOf::Over { result } => (seen, result),
        TaskOf::Active { .. } => panic!("the task waits for nothing"),
    }
}

/// An error of the host.
fn failed(text: &str) -> Reply {
    ReplyOf::Failed { kind: FaultKind::Host { code: 5 }, error: text.to_string() }
}

/// An action in short.
fn brief(action: &Action) -> String {
    match action {
        ActionOf::Say { lead, text, tail, .. } => format!("say {}{}{}", lead, text, tail),
        ActionOf::Warn { lead, text, tail, .. } => format!("warn {}{}{}", lead, text, tail),
        ActionOf::Run { program, args } => format!("{} {}", program, args.join(" ")),
        ActionOf::Capture { program, args } => format!("{} {}", program, args.join(" ")),
        ActionOf::Exists { path } => format!("exists {}", path),
        ActionOf::ReadText { path } => format!("read {}", path),
        ActionOf::ReadBytes { path } => format!("read {}", path),
        ActionOf::WriteText { path, text } => format!("write {} {:?}", path, text),
        ActionOf::AppendText { path, text } => format!("append {} {:?}", path, text),
        ActionOf::InGuest { pid, args } => format!("in {}: {}", pid, args.join(" ")),
        _ => format!("{:?}", action),
    }
}

fn replies() -> Vec<fn(usize) -> Reply> {
    vec![
        |_| ReplyOf::Done,
        |_| failed("x"),
        |_| ReplyOf::Exit { success: false },
        |_| ReplyOf::Exit { success: true },
        |_| ReplyOf::Found { exists: true },
        |_| ReplyOf::Found { exists: false },
        |_| ReplyOf::Forked { child: None },
        |_| ReplyOf::Config { config: GlobalConfig::default() },
        |_| ReplyOf::Text { text: "1 2 3".to_string() },
        |n| {
            if n % 2 == 0 {
                ReplyOf::Located { found: None }
            } else {
                ReplyOf::Booted { pid: 1 }
            }
        },
    ]
}

fn ends<P: Plan>(start: impl Fn() -> Task<P>) {
    for reply in replies() {
        let mut n = 0;
        let (seen, _) = play(start(), |_| {
            n += 1;
            assert!(n < 200);
            reply(n)
        });
        assert!(!seen.is_empty());
    }
}

#[test]
fn every_task_ends_whatever_the_host_replies() {
    ends(install_kali);
    ends(|| import_distro("a", "b"));
    ends(|| unregister_distro("a"));
    ends(|| setup_distro_user("/r", "kim", 1, 2));
    ends(|| setup_network("a", 1, "dhcp", "m"));
    ends(|| setup_network("a", 1, "10.88.1.2", "m"));
    ends(|| get_distro_init_pid("a"));
    ends(|| stop_distro("a"));
    ends(|| execute_setup_cmd_in_guest(1, &["x".to_string()]));
    ends(|| boot_distro("a"));
    ends(|| run_command_in_distro("a", &[], false));
    ends(|| run_command_in_distro("a", &[], true));
    ends(|| spawn_separate_terminal(Some("kali"), true));
    ends(|| list_distros(GlobalConfig::default()));
    ends(|| {
        serve(
            RequestOf {
                distro: None,
                root: false,
                args: Vec::new(),
                command: CommandOf::Shell,
            },
            false,
        )
    });
}

#[test]
fn a_task_that_is_over_stays_as_it_is() {
    let task = install_kali().resume(ReplyOf::Found { exists: true });
    assert!(task.pending().is_none());
    let task = task.resume(ReplyOf::Done);
    match task {
        TaskOf::Over { result } => assert_eq!(result.unwrap_err().kind, FaultKind::AlreadyExists),
        TaskOf::Active { .. } => panic!("the task is over"),
    }
}

#[test]
fn a_guard_leaves_steps_out() {
    let start = setup_network("a", 1, "dhcp", "m").resume(ReplyOf::Done).resume(ReplyOf::Done);
    assert_eq!(brief(start.pending().unwrap()), "exists /var/run/netns/lsl-a");
    let there = start.resume(ReplyOf::Found { exists: true });
    assert_eq!(brief(there.pending().unwrap()), "mount --bind /proc/1/ns/net /var/run/netns/lsl-a");
}

#[test]
fn only_failures_stop_a_stage() {
    let (seen, result) = play(setup_network("a", 1, "10.88.1.2", "m"), |_| ReplyOf::Done);
    assert!(result.is_ok());
    assert!(seen.contains(&"nft add table ip lsl-a".to_string()));
}
