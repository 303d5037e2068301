use lsl::action::{
    Action, ActionOf, Fault, FaultKind, Reply, ReplyOf, Style, Value, ValueOf, VariablesOf,
};
use lsl::cli::{find_target, is_offered, is_supported, serve, CommandOf, Request, RequestOf};
use lsl::config::GlobalConfig;
use lsl::listing::list_distros;
use lsl::task::{Plan, Task, TaskOf};
use lsl::terminal::spawn_separate_terminal;

/// Runs a task against a host and tells what was asked of it and how it ended.
fn play<P: Plan>(
    task: Task<P>,
    mut host: impl FnMut(&Action) -> Reply,
) -> (Vec<String>, Result<Value, Fault>) {
    let mut task = task;
    let mut seen = Vec::new();
    loop {
        let reply = match task.pending() {
            Some(action) => {
                seen.push(brief(action));
                host(action)
            }
            None => break,
        };
        task = task.resume(reply);
    }
    match task {
        TaskOf::Over { result } => (seen, result),
        TaskOf::Active { .. } => panic!("the task waits for nothing"),
    }
}

/// An error of the host.
fn failed(text: &str) -> Reply {
    ReplyOf::Failed { kind: FaultKind::Host { code: 5 }, error: text.to_string() }
}

/// An action in short.
fn brief(action: &Action) -> String {
    match action {
        ActionOf::Say { lead, text, tail, .. } => format!("say {}{}{}", lead, text, tail),
        ActionOf::Warn { lead, text, tail, .. } => format!("warn {}{}{}", lead, text, tail),
        ActionOf::Run { program, args } => format!("{} {}", program, args.join(" ")),
        ActionOf::Capture { program, args } => format!("{} {}", program, args.join(" ")),
        ActionOf::Exists { path } => format!("exists {}", path),
        ActionOf::ReadText { path } => format!("read {}", path),
        ActionOf::ReadBytes { path } => format!("read {}", path),
        ActionOf::WriteText { path, text } => format!("write {} {:?}", path, text),
        ActionOf::AppendText { path, text } => format!("append {} {:?}", path, text),
        ActionOf::InGuest { pid, args } => format!("in {}: {}", pid, args.join(" ")),
        _ => format!("{:?}", action),
    }
}

fn two() -> GlobalConfig {
    let mut config = GlobalConfig::default();
    let kali = config.describe("kali");
    config.register("kali", kali);
    let arch = config.describe("arch");
    config.register("arch", arch);
    config
}

fn request(command: CommandOf<String, Vec<String>>) -> Request {
    RequestOf { distro: None, root: false, args: Vec::new(), command }
}

fn superuser(action: &Action) -> Reply {
    match action {
        ActionOf::AskIdentity => ReplyOf::Identity { effective: 0 },
        ActionOf::LoadConfig => ReplyOf::Config { config: two() },
        ActionOf::Visit { .. } => ReplyOf::Waited { code: Some(5) },
        ActionOf::OpenTerminal { .. } => ReplyOf::Exit { success: false },
        _ => ReplyOf::Done,
    }
}

const DIRS: [&str; 3] = [
    "CreateDirs { path: \"/var/lib/lsl/distros\" }",
    "CreateDirs { path: \"/var/lib/lsl/cache\" }",
    "CreateDirs { path: \"/var/lib/lsl/run\" }",
];

#[test]
fn nothing_is_done_without_rights() {
    let (seen, _) = play(serve(request(CommandOf::List), true), |_| ReplyOf::Identity { effective: 1000 });
    assert_eq!(
        seen,
        [
            "AskIdentity",
            "warn Error: LSL requires root privileges. Please rerun this command using 'sudo'.",
            "Exit { code: 1 }",
        ]
    );
}

#[test]
fn a_shell_gets_a_window() {
    let (seen, _) = play(serve(request(CommandOf::Shell), false), |_| ReplyOf::Exit { success: true });
    assert_eq!(seen, ["OpenTerminal { distro: None, as_root: false }", "Exit { code: 0 }"]);
}

#[test]
fn a_window_is_for_what_was_asked_for() {
    let mut asked = request(CommandOf::Shell);
    asked.root = true;
    asked.distro = Some("arch".to_string());
    let (seen, _) = play(serve(asked, false), |_| ReplyOf::Exit { success: true });
    assert_eq!(seen[0], "OpenTerminal { distro: Some(\"arch\"), as_root: true }");
}

#[test]
fn without_a_window_the_shell_runs_here() {
    let (seen, _) = play(serve(request(CommandOf::Shell), false), superuser);
    assert_eq!(seen[..2], ["OpenTerminal { distro: None, as_root: false }", "AskIdentity"]);
    assert_eq!(seen[2..5], DIRS);
    assert_eq!(
        seen[5..],
        ["LoadConfig", "Visit { name: \"kali\", args: [], as_root: false }", "Exit { code: 5 }"]
    );
}

#[test]
fn a_window_of_our_own_gets_no_other() {
    let (seen, _) = play(serve(request(CommandOf::Shell), true), superuser);
    assert_eq!(seen[0], "AskIdentity");
    let mut words = request(CommandOf::Shell);
    words.args = vec!["ls".to_string()];
    let (seen, _) = play(serve(words, false), superuser);
    assert_eq!(seen[0], "AskIdentity");
}

#[test]
fn run_may_be_left_out() {
    let mut short = request(CommandOf::Shell);
    short.args = vec!["apt".to_string(), "update".to_string()];
    short.root = true;
    let long = request(CommandOf::Run { root: true, args: short.args.clone() });
    assert_eq!(play(serve(short, false), superuser), play(serve(long, false), superuser));
}

#[test]
fn a_named_distribution_comes_before_the_default() {
    let mut named = request(CommandOf::Run { root: false, args: vec!["id".to_string()] });
    named.distro = Some("arch".to_string());
    let (seen, _) = play(serve(named, false), superuser);
    assert!(seen.contains(&"Visit { name: \"arch\", args: [\"id\"], as_root: false }".to_string()));
    assert_eq!(find_target(Some("arch".to_string()), two()), Some("arch".to_string()));
    assert_eq!(find_target(None, two()), Some("kali".to_string()));
    assert_eq!(find_target(None, GlobalConfig::default()), None);
}

#[test]
fn without_any_distribution_a_command_fails() {
    let (_, result) = play(serve(request(CommandOf::Shell), true), |action| match action {
        ActionOf::LoadConfig => ReplyOf::Config { config: GlobalConfig::default() },
        _ => superuser(action),
    });
    let fault = result.unwrap_err();
    assert_eq!(fault.kind, FaultKind::NotFound);
    assert_eq!(fault.message, "No default distro set. Install one first using 'lsl install kali'");
}

#[test]
fn kali_is_installed_in_any_letters() {
    for name in ["kali", "Kali", "KALI", "kAlI"] {
        assert!(is_supported(name));
        let command = CommandOf::Install { distro: name.to_string() };
        let (seen, result) = play(serve(request(command), false), superuser);
        assert_eq!(result, Ok(ValueOf::Nothing));
        assert_eq!(
            seen[4..],
            [
                "Install",
                "say Installation complete! Run 'sudo lsl' to enter the Kali Linux shell.",
            ]
        );
    }
    assert!(is_supported("\u{212a}ali"));
    assert!(!is_supported("kali2"));
    assert!(is_offered("kali"));
    assert!(!is_offered("KALI"));
}

#[test]
fn nothing_else_is_installed() {
    let command = CommandOf::Install { distro: "Arch".to_string() };
    let (seen, result) = play(serve(request(command), false), superuser);
    assert_eq!(result, Ok(ValueOf::Nothing));
    assert_eq!(
        seen.last().unwrap(),
        "warn Error: Distribution 'Arch' is not supported for auto-installation. Currently, only 'kali' is supported."
    );
}

#[test]
fn failures_are_told() {
    let name = || "kali".to_string();
    let cases = [
        (CommandOf::Install { distro: name() }, "warn Error: Failed to install Kali: x"),
        (CommandOf::Import { name: name(), tar: name() }, "warn Error: Failed to import distro: x"),
        (CommandOf::Unregister { name: name() }, "warn Error: Failed to unregister distro: x"),
        (CommandOf::Stop { name: name() }, "warn Error: Failed to stop distro: x"),
    ];
    for (command, told) in cases {
        let (seen, result) = play(serve(request(command), false), |action| match action {
            ActionOf::AskIdentity | ActionOf::CreateDirs { .. } => superuser(action),
            ActionOf::Warn { .. } => ReplyOf::Done,
            _ => failed("x"),
        });
        assert_eq!(result, Ok(ValueOf::Nothing));
        assert_eq!(seen.last().unwrap(), told);
    }
}

#[test]
fn successes_of_the_commands() {
    let name = || "kali".to_string();
    let (seen, _) = play(
        serve(request(CommandOf::Import { name: name(), tar: "/t".to_string() }), false),
        superuser,
    );
    assert_eq!(seen[4..], ["Import { name: \"kali\", tar: \"/t\" }", "say Import complete!"]);
    let (seen, _) = play(serve(request(CommandOf::Unregister { name: name() }), false), superuser);
    assert_eq!(seen[4..], ["Unregister { name: \"kali\" }"]);
    let (seen, _) = play(serve(request(CommandOf::Stop { name: name() }), false), superuser);
    assert_eq!(seen[4..], ["Stop { name: \"kali\" }"]);
    let (seen, _) = play(serve(request(CommandOf::List), false), superuser);
    let list: Action = ActionOf::List { config: two() };
    assert_eq!(seen[4..], ["LoadConfig".to_string(), brief(&list)]);
}

#[test]
fn a_failed_list_or_visit_fails_the_program() {
    let (_, result) = play(serve(request(CommandOf::List), false), |action| match action {
        ActionOf::List { .. } => failed("x"),
        _ => superuser(action),
    });
    assert_eq!(result.unwrap_err().message, "x");
    let (_, result) = play(serve(request(CommandOf::Shell), true), |action| match action {
        ActionOf::Visit { .. } => failed("y"),
        _ => superuser(action),
    });
    assert_eq!(result.unwrap_err().message, "y");
}

#[test]
fn the_default_is_set_to_a_registered_distribution() {
    let mut chosen = two();
    chosen.make_default("arch");
    let stored: Action = ActionOf::StoreConfig {
        path: "/var/lib/lsl/config.json".to_string(),
        config: chosen,
    };
    let command = CommandOf::Default { name: "arch".to_string() };
    let (seen, result) = play(serve(request(command), false), superuser);
    assert_eq!(result, Ok(ValueOf::Nothing));
    assert_eq!(
        seen[4..],
        [
            "LoadConfig".to_string(),
            "CreateDirs { path: \"/var/lib/lsl\" }".to_string(),
            brief(&stored),
            "say Distro 'arch' set as default.".to_string(),
        ]
    );
    let command = CommandOf::Default { name: "void".to_string() };
    let (seen, _) = play(serve(request(command), false), superuser);
    assert_eq!(seen[4..], ["LoadConfig", "warn Error: Distro 'void' is not registered."]);
}

#[test]
fn the_store_must_be_there() {
    let (seen, result) = play(serve(request(CommandOf::List), false), |action| match action {
        ActionOf::CreateDirs { .. } => failed("read-only"),
        _ => superuser(action),
    });
    assert_eq!(result.unwrap_err().message, "read-only");
    assert_eq!(seen.len(), 2);
}

#[test]
fn each_distribution_is_listed() {
    let mut styles = Vec::new();
    let (seen, result) = play(list_distros(two()), |action| match action {
        ActionOf::FindPid { name } => ReplyOf::Located {
            found: if name == "arch" { Some(1) } else { None },
        },
        ActionOf::Say { style, .. } => {
            styles.push(*style);
            ReplyOf::Done
        }
        _ => ReplyOf::Done,
    });
    assert_eq!(result, Ok(ValueOf::Nothing));
    let rule = "-".repeat(65);
    assert_eq!(
        seen,
        [
            "say ".to_string(),
            format!("say {:<20} {:<12} {:<15} {:<18}", "DISTRO NAME", "STATUS", "IP ADDRESS", "MAC ADDRESS"),
            format!("say {}", rule),
            "FindPid { name: \"kali\" }".to_string(),
            format!("say {:<20}{:<12}{:<15}{:<18}", "kali (default)", "Stopped", "dhcp", "02:42:0a:58:00:01"),
            "FindPid { name: \"arch\" }".to_string(),
            format!("say {:<20}{:<12}{:<15}{:<18}", "arch", "Running", "dhcp", "02:42:0a:58:00:02"),
            "say ".to_string(),
        ]
    );
    assert_eq!(
        styles,
        [Style::Plain, Style::Plain, Style::Plain, Style::Red, Style::Green, Style::Plain]
    );
}

#[test]
fn an_empty_list_says_so() {
    let (seen, result) = play(list_distros(GlobalConfig::default()), |_| ReplyOf::Done);
    assert_eq!(result, Ok(ValueOf::Nothing));
    assert_eq!(seen, ["say No distros registered. Use 'lsl install kali' to install Kali Linux."]);
}

fn window(found: &'static str, sudo: Option<&'static str>, opened: bool) -> (Vec<String>, Result<Value, Fault>) {
    asked_window(None, false, found, sudo, opened)
}

fn asked_window(
    distro: Option<&str>,
    root: bool,
    found: &'static str,
    sudo: Option<&'static str>,
    opened: bool,
) -> (Vec<String>, Result<Value, Fault>) {
    play(spawn_separate_terminal(distro, root), move |action| match action {
        ActionOf::AskVariables => ReplyOf::Variables {
            env: VariablesOf {
                term: None,
                display: None,
                xauthority: Some("/x".to_string()),
                wayland_display: None,
                sudo_user: sudo.map(|s| s.to_string()),
                executable: Some("/usr/local/bin/lsl".to_string()),
            },
        },
        ActionOf::Capture { args, .. } => {
            ReplyOf::Output { success: args[0] == found, bytes: Vec::new() }
        }
        ActionOf::Run { program, .. } if program == "xhost" => {
            failed("none")
        }
        _ => ReplyOf::Exit { success: opened },
    })
}

const INNER: &str = "sudo env LSL_ALREADY_SPAWNED=1 DISPLAY=':0' XAUTHORITY='/x' WAYLAND_DISPLAY='' /usr/local/bin/lsl";

#[test]
fn the_first_emulator_is_used() {
    let (seen, result) = window("gnome-terminal", None, true);
    assert_eq!(result, Ok(ValueOf::Flag { yes: true }));
    assert_eq!(
        seen,
        [
            "AskVariables".to_string(),
            "xhost +local:".to_string(),
            "which konsole".to_string(),
            "which gnome-terminal".to_string(),
            format!("gnome-terminal -- sh -c {}", INNER),
        ]
    );
}

#[test]
fn emulators_are_called_in_their_own_ways() {
    assert_eq!(window("konsole", None, true).0.last().unwrap(), &format!("konsole -e sh -c {}", INNER));
    assert_eq!(
        window("xfce4-terminal", None, true).0.last().unwrap(),
        &format!("xfce4-terminal -e sh -c \"{}\"", INNER)
    );
    assert_eq!(window("xterm", None, true).0.last().unwrap(), &format!("xterm -e sh -c {}", INNER));
    let prefix = "sudo -u kim env DISPLAY=:0 XAUTHORITY=/x";
    assert_eq!(
        window("xterm", Some("kim"), true).0.last().unwrap(),
        &format!("{} xterm -e sh -c {}", prefix, INNER)
    );
    assert_eq!(
        window("xfce4-terminal", Some("kim"), true).0.last().unwrap(),
        &format!("{} xfce4-terminal -e sh -c \"{}\"", prefix, INNER)
    );
}

#[test]
fn the_window_is_told_what_was_asked_for() {
    let last = |distro, root| {
        asked_window(distro, root, "xterm", None, true).0.last().unwrap().clone()
    };
    let start = format!("xterm -e sh -c {}", INNER);
    assert_eq!(last(None, true), format!("{} --root", start));
    assert_eq!(last(Some("arch"), false), format!("{} --distro 'arch'", start));
    assert_eq!(last(Some("arch"), true), format!("{} --distro 'arch' --root", start));
    assert_eq!(last(Some("my box"), false), format!("{} --distro 'my box'", start));
    assert_eq!(last(Some("a'b"), false), format!("{} --distro 'a'\\''b'", start));
}

#[test]
fn a_name_with_quotes_reaches_every_window() {
    let last = |distro, found| {
        asked_window(Some(distro), false, found, None, true).0.last().unwrap().clone()
    };
    assert_eq!(last("a\"b", "xterm"), format!("xterm -e sh -c {} --distro 'a\"b'", INNER));
    assert_eq!(
        last("a\"b", "xfce4-terminal"),
        format!("xfce4-terminal -e sh -c \"{} --distro 'a\\\"b'\"", INNER)
    );
    assert_eq!(
        last("a\\b", "xfce4-terminal"),
        format!("xfce4-terminal -e sh -c \"{} --distro 'a\\\\b'\"", INNER)
    );
    assert_eq!(
        last("kali", "xfce4-terminal"),
        format!("xfce4-terminal -e sh -c \"{} --distro 'kali'\"", INNER)
    );
}

#[test]
fn without_an_emulator_there_is_no_window() {
    let (seen, result) = window("none", None, true);
    assert_eq!(result, Ok(ValueOf::Flag { yes: false }));
    assert_eq!(seen.last().unwrap(), "which xterm");
    assert_eq!(window("konsole", None, false).1, Ok(ValueOf::Flag { yes: false }));
}
