use lsl::action::{Action, ActionOf, Fault, FaultKind, Kinds, Reply, ReplyOf, Value, ValueOf};
use lsl::calls::{call, Calls, Operation};
use lsl::cli::{CommandOf, Request, RequestOf};
use lsl::config::GlobalConfig;
use lsl::distro::install_kali;
use lsl::runtime::stop_distro;
use lsl::session::run_command_in_distro;

/// Runs operations against a host and tells what was asked of it, how deep they called
/// one another, and how they ended.
fn play(
    start: Calls,
    mut host: impl FnMut(&Action) -> Reply,
) -> (Vec<String>, usize, Option<Result<Value, Fault>>) {
    let mut calls = start;
    let mut seen = Vec::new();
    let mut depth = 0;
    loop {
        let (next, moved) = calls.advance();
        calls = next;
        depth = depth.max(calls.stack.len());
        if moved {
            continue;
        }
        let reply = match calls.pending() {
            Some(action) => {
                seen.push(format!("{:?}", action));
                host(action)
            }
            None => break,
        };
        calls = calls.resume(reply);
    }
    if calls.is_init() {
        return (seen, depth, None);
    }
    (seen, depth, calls.finish())
}

fn request(command: CommandOf<String, Vec<String>>) -> Request {
    RequestOf { distro: None, root: true, args: Vec::new(), command }
}

fn kali() -> GlobalConfig {
    let mut config = GlobalConfig::default();
    let distro = config.describe("kali");
    config.register("kali", distro);
    config
}

fn host(config: GlobalConfig) -> impl FnMut(&Action) -> Reply {
    move |action: &Action| match action {
        ActionOf::AskIdentity => ReplyOf::Identity { effective: 0 },
        ActionOf::LoadConfig => ReplyOf::Config { config: config.clone() },
        ActionOf::Exists { .. } => ReplyOf::Found { exists: false },
        ActionOf::AskHome => ReplyOf::Text { text: "/home/kim".to_string() },
        ActionOf::AskUser => ReplyOf::User { name: "kim".to_string(), uid: 1000, gid: 1000 },
        ActionOf::Run { .. } => ReplyOf::Exit { success: true },
        _ => ReplyOf::Done,
    }
}

#[test]
fn a_visit_to_an_unregistered_distribution_is_not_found() {
    let visit = || Calls::start(Operation::Visit(run_command_in_distro("void", &[], true)));
    let (seen, depth, result) = play(visit(), host(kali()));
    let fault = result.unwrap().unwrap_err();
    assert_eq!(
        (fault.kind, fault.message.as_str()),
        (FaultKind::NotFound, "Distro 'void' not registered")
    );
    assert_eq!(seen, ["Exists { path: \"/var/lib/lsl/run/void.pid\" }", "LoadConfig"]);
    assert_eq!(depth, 2);
    let mut plain = host(kali());
    let (_, _, result) = play(visit(), |action| match action {
        ActionOf::Exists { .. } => ReplyOf::Found { exists: true },
        ActionOf::ReadText { .. } => ReplyOf::Text { text: "77\n".to_string() },
        _ => plain(action),
    });
    let fault = result.unwrap().unwrap_err();
    assert_eq!(
        (fault.kind, fault.message.as_str()),
        (FaultKind::NotFound, "Distro 'void' not found in config")
    );
}

#[test]
fn the_error_of_a_visit_is_the_error_of_the_program() {
    let mut asked = request(CommandOf::Run { root: true, args: vec!["id".to_string()] });
    asked.distro = Some("void".to_string());
    let (_, depth, result) = play(Calls::serve(asked, false), host(kali()));
    assert_eq!(result.unwrap().unwrap_err().kind, FaultKind::NotFound);
    assert_eq!(depth, 3);
}

#[test]
fn a_failed_import_fails_the_installation_with_its_error() {
    let mut plain = host(GlobalConfig::default());
    let index = b"kali;current;amd64;default;20260519_17:14;/a/\n";
    let (_, depth, result) = play(
        Calls::start(Operation::Install(install_kali())),
        |action| match action {
            ActionOf::ReadBytes { .. } => ReplyOf::Bytes { bytes: index.to_vec() },
            ActionOf::CreateDirs { .. } => ReplyOf::Failed {
                kind: FaultKind::Host { code: 30 },
                error: "Read-only file system (os error 30)".to_string(),
            },
            _ => plain(action),
        },
    );
    assert_eq!(result.unwrap().unwrap_err().kind, FaultKind::Host { code: 30 });
    assert_eq!(depth, 2);
}

#[test]
fn stopping_looks_for_the_process_itself() {
    let (seen, depth, result) =
        play(Calls::start(Operation::Stop(stop_distro("kali"))), host(kali()));
    assert_eq!(result, Some(Ok(ValueOf::Nothing)));
    assert_eq!(depth, 2);
    assert!(!seen.iter().any(|a| a.starts_with("Kill") || a.starts_with("FindPid")));
    let mut plain = host(kali());
    let (seen, _, result) = play(
        Calls::start(Operation::Stop(stop_distro("kali"))),
        |action| match action {
            ActionOf::Exists { path } => ReplyOf::Found { exists: !path.contains("LSL") },
            ActionOf::ReadText { .. } => ReplyOf::Text { text: "77".to_string() },
            _ => plain(action),
        },
    );
    assert_eq!(result, Some(Ok(ValueOf::Nothing)));
    assert!(seen.contains(&"Kill { pid: 77 }".to_string()));
    assert!(seen.contains(&"RemoveFile { path: \"/var/lib/lsl/run/kali.pid\" }".to_string()));
}

#[test]
fn the_init_process_returns_to_nobody() {
    let mut plain = host(kali());
    let mut kinds: Option<Kinds> = None;
    let (_, depth, result) = play(
        Calls::start(Operation::Visit(run_command_in_distro("kali", &[], true))),
        |action| match action {
            ActionOf::Fork => ReplyOf::Forked { child: None },
            ActionOf::Unshare { kinds: k } => {
                kinds = Some(*k);
                ReplyOf::Done
            }
            _ => plain(action),
        },
    );
    assert_eq!((depth, result), (2, None));
    let all = Kinds { user: true, mnt: true, uts: true, ipc: true, net: true, pid: true };
    assert_eq!(kinds, Some(all));
}

#[test]
fn a_panic_is_told_to_nobody() {
    let mut plain = host(kali());
    let (_, _, result) = play(
        Calls::start(Operation::Visit(run_command_in_distro("kali", &[], true))),
        |action| match action {
            ActionOf::Fork => ReplyOf::Forked { child: None },
            ActionOf::Mount { fstype: Some(kind), .. } if kind == "proc" => ReplyOf::Failed {
                kind: FaultKind::Host { code: 1 },
                error: "EPERM".to_string(),
            },
            _ => plain(action),
        },
    );
    let fault = result.unwrap().unwrap_err();
    assert_eq!(
        (fault.kind, fault.message.as_str()),
        (FaultKind::Panic, "Failed to mount procfs: EPERM")
    );
}

#[test]
fn actions_of_the_host_start_no_operation() {
    let boot: Action = ActionOf::Boot { name: "kali".to_string() };
    assert!(matches!(call(&boot), Some(Operation::Boot(_))));
    let list: Action = ActionOf::List { config: kali() };
    assert!(matches!(call(&list), Some(Operation::List(_))));
    let user: Action = ActionOf::SetUpUser {
        root: "/r".to_string(),
        user: "kim".to_string(),
        uid: 1,
        gid: 2,
    };
    assert!(matches!(call(&user), Some(Operation::Enlist(_))));
    assert!(call(&ActionOf::Fork).is_none());
    assert!(call(&ActionOf::LoadConfig).is_none());
}

#[test]
fn every_request_is_answered() {
    let name = || "kali".to_string();
    let commands = || {
        vec![
            CommandOf::Shell,
            CommandOf::Install { distro: name() },
            CommandOf::Import { name: name(), tar: "/t".to_string() },
            CommandOf::Unregister { name: name() },
            CommandOf::List,
            CommandOf::Stop { name: name() },
            CommandOf::Default { name: name() },
            CommandOf::Run { root: false, args: vec!["id".to_string()] },
        ]
    };
    for command in commands() {
        let (_, depth, _) = play(Calls::serve(request(command), false), host(kali()));
        assert!(depth <= 4);
    }
    for command in commands() {
        let (_, depth, result) = play(Calls::serve(request(command), false), |_| {
            ReplyOf::Failed { kind: FaultKind::Host { code: 5 }, error: "x".to_string() }
        });
        assert!(depth <= 4);
        assert!(result.unwrap().is_err());
    }
}
