//! Running a command, or a login shell, in a distribution.
use vstd::prelude::*;

use crate::accounts::{
    dwells, find_home_and_shell, get_guest_user_ids_from_host, guest_ids, home_and_shell,
    law_home_is_that_of_the_line,
};
use crate::action::{
    error_line, line, no_words, warn, words, Account, AccountOf, AccountView, Action, ActionOf,
    ActionView, Fault, FaultKind, FaultOf, FaultView, Namespace, Reply, ReplyOf, ReplyView, Style,
    ValueOf, Variables, VariablesView, Words,
};
use crate::config::{
    config_file, get_merged_path, law_updates_coherent, merged_path, opt_text, registered,
    save_steps, ConfigView, GlobalConfig,
};
use crate::network::{namespace_path, proc_ns, setup_flag, setup_flag_path};
use crate::path::{is_under_home, join_path, path_join, under_home};
use crate::provision::{
    bash_script, enlist, enlist_steps, equip, equip_steps, find_zone, identity_steps,
    write_identity, zone_of,
};
use crate::runtime::GUEST_PATH;
use crate::task::{
    after_replies, attempt, explained, failing, giving, goes_on, granted, heard,
    lemma_granted_grows, lemma_heard_grows, must, no_steps, pending, reach, resumed, started, stray,
    take_stray, turned, Plan, StepView, Steps, Task, TaskOf, TaskView, Turn, TurnOf, TurnView,
};
use crate::text::{
    begins, closes, copy_texts, decimal, format_decimal, has_char, same, texts, trimmed,
};

verus! {

// ----------------------------------------------------------------------- visits

/// What is asked for: a command, or none for a login shell, in a distribution.
pub struct OrderOf<T, L> {
    pub name: T,
    pub args: L,
    pub as_root: bool,
}

pub type Order = OrderOf<String, Vec<String>>;

pub type OrderView = OrderOf<Seq<char>, Seq<Seq<char>>>;

impl View for Order {
    type V = OrderView;

    open spec fn view(&self) -> OrderView {
        OrderOf { name: self.name@, args: texts(self.args@), as_root: self.as_root }
    }
}

/// What is to be run, where and as whom, and the directory that it was asked for in.
pub struct VisitOf<T, L> {
    pub name: T,
    pub args: L,
    pub pid: u32,
    pub user: T,
    pub ids: Option<(u32, u32)>,
    pub dir: T,
}

pub type Visit = VisitOf<String, Vec<String>>;

pub type VisitView = VisitOf<Seq<char>, Seq<Seq<char>>>;

impl View for Visit {
    type V = VisitView;

    open spec fn view(&self) -> VisitView {
        VisitOf {
            name: self.name@,
            args: texts(self.args@),
            pid: self.pid,
            user: self.user@,
            ids: self.ids,
            dir: self.dir@,
        }
    }
}

/// A stage of running something in a distribution.
pub enum SessionStageOf<T, L> {
    /// The init process is being looked for.
    Find { order: OrderOf<T, L> },
    /// The distribution is being booted.
    Start { order: OrderOf<T, L> },
    /// The distribution is being looked up.
    Check { order: OrderOf<T, L>, pid: u32 },
    /// The mark of a guest that was set up is being looked for.
    Flag { order: OrderOf<T, L>, pid: u32 },
    /// The account is being asked for.
    Ask { order: OrderOf<T, L>, pid: u32 },
    /// The guest is given its host name; the time zone is being read.
    Zone { order: OrderOf<T, L>, pid: u32, account: AccountOf<T> },
    /// The guest is given its tools.
    Equip { order: OrderOf<T, L>, pid: u32, account: AccountOf<T> },
    /// The user is being made in the guest.
    Enlist { order: OrderOf<T, L>, account: AccountOf<T> },
    /// The guest is being restarted.
    Restart { order: OrderOf<T, L> },
    /// The user to run as is being looked up.
    Target { order: OrderOf<T, L>, pid: u32 },
    /// The user's numbers are being looked up.
    Ids { visit: VisitOf<T, L> },
    /// The directory of the login hook is being made.
    Profile { visit: VisitOf<T, L> },
    /// The login hook is being read.
    Hook { visit: VisitOf<T, L> },
    /// The login hook is being written.
    WriteHook { visit: VisitOf<T, L> },
    /// The program that the hook runs is being looked for.
    Binary { visit: VisitOf<T, L> },
    /// The program that the hook runs is being installed.
    Install { visit: VisitOf<T, L> },
    /// The program that was installed is being looked for.
    Installed { visit: VisitOf<T, L> },
    /// The directory that the command was asked for in is being asked for.
    Here { visit: VisitOf<T, L> },
    /// The namespaces are being entered.
    Enter { visit: VisitOf<T, L> },
    /// On the host: the end of the command is awaited.
    Wait,
    /// In the guest: the root is being entered.
    Root { visit: VisitOf<T, L> },
    /// In the guest: the rights of the host are being given up.
    Drop { visit: VisitOf<T, L>, host: T, uid: u32 },
    /// In the guest: the environment is being read.
    Surround { visit: VisitOf<T, L>, host: T, uid: u32, home: T, shell: T },
    /// In the guest: the command takes over.
    Launch { visit: VisitOf<T, L> },
    /// In the guest: the command could not be started.
    Fail,
}

pub type SessionStage = SessionStageOf<String, Vec<String>>;

pub type SessionStageView = SessionStageOf<Seq<char>, Seq<Seq<char>>>;

impl View for SessionStage {
    type V = SessionStageView;

    open spec fn view(&self) -> SessionStageView {
        match *self {
            SessionStageOf::Find { order } => SessionStageOf::Find { order: order@ },
            SessionStageOf::Start { order } => SessionStageOf::Start { order: order@ },
            SessionStageOf::Check { order, pid } => SessionStageOf::Check { order: order@, pid },
            SessionStageOf::Flag { order, pid } => SessionStageOf::Flag { order: order@, pid },
            SessionStageOf::Ask { order, pid } => SessionStageOf::Ask { order: order@, pid },
            SessionStageOf::Zone { order, pid, account } => SessionStageOf::Zone {
                order: order@,
                pid,
                account: account@,
            },
            SessionStageOf::Equip { order, pid, account } => SessionStageOf::Equip {
                order: order@,
                pid,
                account: account@,
            },
            SessionStageOf::Enlist { order, account } => SessionStageOf::Enlist {
                order: order@,
                account: account@,
            },
            SessionStageOf::Restart { order } => SessionStageOf::Restart { order: order@ },
            SessionStageOf::Target { order, pid } => SessionStageOf::Target { order: order@, pid },
            SessionStageOf::Ids { visit } => SessionStageOf::Ids { visit: visit@ },
            SessionStageOf::Profile { visit } => SessionStageOf::Profile { visit: visit@ },
            SessionStageOf::Hook { visit } => SessionStageOf::Hook { visit: visit@ },
            SessionStageOf::WriteHook { visit } => SessionStageOf::WriteHook { visit: visit@ },
            SessionStageOf::Binary { visit } => SessionStageOf::Binary { visit: visit@ },
            SessionStageOf::Install { visit } => SessionStageOf::Install { visit: visit@ },
            SessionStageOf::Installed { visit } => SessionStageOf::Installed { visit: visit@ },
            SessionStageOf::Here { visit } => SessionStageOf::Here { visit: visit@ },
            SessionStageOf::Enter { visit } => SessionStageOf::Enter { visit: visit@ },
            SessionStageOf::Wait => SessionStageOf::Wait,
            SessionStageOf::Root { visit } => SessionStageOf::Root { visit: visit@ },
            SessionStageOf::Drop { visit, host, uid } => SessionStageOf::Drop {
                visit: visit@,
                host: host@,
                uid,
            },
            SessionStageOf::Surround { visit, host, uid, home, shell } => SessionStageOf::Surround {
                visit: visit@,
                host: host@,
                uid,
                home: home@,
                shell: shell@,
            },
            SessionStageOf::Launch { visit } => SessionStageOf::Launch { visit: visit@ },
            SessionStageOf::Fail => SessionStageOf::Fail,
        }
    }
}

// ------------------------------------------------------------------ the first visit

/// Marking the guest as set up and restarting it.
pub open spec fn seal_steps(name: Seq<char>) -> Seq<StepView> {
    no_steps().push(attempt(ActionOf::CreateFile { path: setup_flag(name) })).push(
        attempt(line(Style::GreenBold, "User setup completed successfully!"@)),
    ).push(
        attempt(
            line(Style::Cyan, "[LSL] Restarting subsystem to apply user configuration..."@),
        ),
    ).push(must(ActionOf::Stop { name })).push(must(ActionOf::Boot { name }))
}

fn seal(name: &str) -> (r: Steps)
    ensures
        r@ == seal_steps(name@),
{
    Steps::new().attempt(ActionOf::CreateFile { path: setup_flag_path(name) }).say(
        Style::GreenBold,
        "User setup completed successfully!".to_owned(),
    ).say(
        Style::Cyan,
        "[LSL] Restarting subsystem to apply user configuration...".to_owned(),
    ).must(ActionOf::Stop { name: name.to_owned() }).must(ActionOf::Boot { name: name.to_owned() })
}

/// Remembering the user and restarting the guest.
pub open spec fn restart_steps(
    config: ConfigView,
    name: Seq<char>,
    user: Seq<char>,
) -> Seq<StepView> {
    save_steps(config.with_user(name, user)) + seal_steps(name)
}

// ----------------------------------------------------------------- the login hook

/// What the login hook holds.
pub const HOOK_SCRIPT: &'static str = "# Only run fastfetch if stdout is a tty (interactive session)\nif [ -t 1 ] && command -v fastfetch >/dev/null 2>&1; then\n    clear 2>/dev/null || printf \"\\033[H\\033[2J\"\n    fastfetch\nfi\n";

/// The file of the login hook.
pub open spec fn hook_file(name: Seq<char>) -> Seq<char> {
    path_join(merged_path(name, "etc/profile.d"@), "fastfetch.sh"@)
}

fn hook_path(name: &str) -> (r: String)
    ensures
        r@ == hook_file(name@),
{
    join_path(get_merged_path(name, "etc/profile.d").as_str(), "fastfetch.sh")
}

/// A step that tells of an error, where there is one.
pub open spec fn warning_steps(prefix: Seq<char>, reply: ReplyView) -> Seq<StepView> {
    match reply {
        ReplyOf::Failed { kind, error } => no_steps().push(
            attempt(error_line(Style::Plain, prefix + error)),
        ),
        _ => no_steps(),
    }
}

fn warn_of(prefix: &str, reply: &Reply) -> (r: Steps)
    ensures
        r@ == warning_steps(prefix@, reply@),
{
    match reply {
        ReplyOf::Failed { kind, error } => Steps::new().attempt(
            warn(Style::Plain, prefix.to_owned().concat(error.as_str())),
        ),
        _ => Steps::new(),
    }
}

/// Installing the program that the login hook runs.
pub open spec fn install_steps(pid: u32) -> Seq<StepView> {
    no_steps().push(
        attempt(
            line(
                Style::Cyan,
                "[LSL] fastfetch is not installed in the guest distro. Installing now..."@,
            ),
        ),
    ).push(
        attempt(
            ActionOf::InGuest {
                pid,
                args: no_words().push("bash"@).push("-c"@).push("apt-get update >/dev/null 2>&1"@),
            },
        ),
    ).push(
        attempt(
            ActionOf::InGuest {
                pid,
                args: no_words().push("bash"@).push("-c"@).push(
                    "apt-get install -y fastfetch >/dev/null 2>&1"@,
                ),
            },
        ),
    )
}

fn install_hooked(pid: u32) -> (r: Steps)
    ensures
        r@ == install_steps(pid),
{
    Steps::new().say(
        Style::Cyan,
        "[LSL] fastfetch is not installed in the guest distro. Installing now...".to_owned(),
    ).attempt(
        ActionOf::InGuest {
            pid,
            args: words().with("bash").with("-c").with("apt-get update >/dev/null 2>&1").items,
        },
    ).attempt(
        ActionOf::InGuest {
            pid,
            args: words().with("bash").with("-c").with(
                "apt-get install -y fastfetch >/dev/null 2>&1",
            ).items,
        },
    )
}

// ---------------------------------------------------------------- entering the guest

/// Opening the namespaces of the guest while the host's files can still be seen, entering
/// them, the mount namespace last, and forking into the process namespace.
pub open spec fn gate_steps(pid: u32) -> Seq<StepView> {
    no_steps().push(
        attempt(ActionOf::OpenNamespace { kind: Namespace::User, path: proc_ns(pid, "user"@) }),
    ).push(
        explained(
            ActionOf::OpenNamespace { kind: Namespace::Mnt, path: proc_ns(pid, "mnt"@) },
            FaultKind::NotFound,
            "Mount namespace not found: "@,
        ),
    ).push(
        explained(
            ActionOf::OpenNamespace { kind: Namespace::Uts, path: proc_ns(pid, "uts"@) },
            FaultKind::NotFound,
            "UTS namespace not found: "@,
        ),
    ).push(
        explained(
            ActionOf::OpenNamespace { kind: Namespace::Ipc, path: proc_ns(pid, "ipc"@) },
            FaultKind::NotFound,
            "IPC namespace not found: "@,
        ),
    ).push(
        explained(
            ActionOf::OpenNamespace { kind: Namespace::Net, path: proc_ns(pid, "net"@) },
            FaultKind::NotFound,
            "Network namespace not found: "@,
        ),
    ).push(
        explained(
            ActionOf::OpenNamespace { kind: Namespace::Pid, path: proc_ns(pid, "pid"@) },
            FaultKind::NotFound,
            "PID namespace not found: "@,
        ),
    ).push(attempt(ActionOf::EnterNamespace { kind: Namespace::User })).push(
        explained(
            ActionOf::EnterNamespace { kind: Namespace::Uts },
            FaultKind::Other,
            "Failed to setns for uts: "@,
        ),
    ).push(
        explained(
            ActionOf::EnterNamespace { kind: Namespace::Ipc },
            FaultKind::Other,
            "Failed to setns for ipc: "@,
        ),
    ).push(
        explained(
            ActionOf::EnterNamespace { kind: Namespace::Net },
            FaultKind::Other,
            "Failed to setns for net: "@,
        ),
    ).push(
        explained(
            ActionOf::EnterNamespace { kind: Namespace::Pid },
            FaultKind::Other,
            "Failed to setns for pid: "@,
        ),
    ).push(
        explained(
            ActionOf::EnterNamespace { kind: Namespace::Mnt },
            FaultKind::Other,
            "Failed to setns for mnt: "@,
        ),
    ).push(explained(ActionOf::Fork, FaultKind::Other, "Fork failed: "@))
}

fn open_gates(pid: u32) -> (r: Steps)
    ensures
        r@ == gate_steps(pid),
{
    Steps::new().attempt(
        ActionOf::OpenNamespace { kind: Namespace::User, path: namespace_path(pid, "user") },
    ).explained(
        ActionOf::OpenNamespace { kind: Namespace::Mnt, path: namespace_path(pid, "mnt") },
        FaultKind::NotFound,
        "Mount namespace not found: ",
    ).explained(
        ActionOf::OpenNamespace { kind: Namespace::Uts, path: namespace_path(pid, "uts") },
        FaultKind::NotFound,
        "UTS namespace not found: ",
    ).explained(
        ActionOf::OpenNamespace { kind: Namespace::Ipc, path: namespace_path(pid, "ipc") },
        FaultKind::NotFound,
        "IPC namespace not found: ",
    ).explained(
        ActionOf::OpenNamespace { kind: Namespace::Net, path: namespace_path(pid, "net") },
        FaultKind::NotFound,
        "Network namespace not found: ",
    ).explained(
        ActionOf::OpenNamespace { kind: Namespace::Pid, path: namespace_path(pid, "pid") },
        FaultKind::NotFound,
        "PID namespace not found: ",
    ).attempt(ActionOf::EnterNamespace { kind: Namespace::User }).explained(
        ActionOf::EnterNamespace { kind: Namespace::Uts },
        FaultKind::Other,
        "Failed to setns for uts: ",
    ).explained(
        ActionOf::EnterNamespace { kind: Namespace::Ipc },
        FaultKind::Other,
        "Failed to setns for ipc: ",
    ).explained(
        ActionOf::EnterNamespace { kind: Namespace::Net },
        FaultKind::Other,
        "Failed to setns for net: ",
    ).explained(
        ActionOf::EnterNamespace { kind: Namespace::Pid },
        FaultKind::Other,
        "Failed to setns for pid: ",
    ).explained(
        ActionOf::EnterNamespace { kind: Namespace::Mnt },
        FaultKind::Other,
        "Failed to setns for mnt: ",
    ).explained(ActionOf::Fork, FaultKind::Other, "Fork failed: ")
}

/// The turn to the guest, after some last steps on the host: while the host's files
/// can still be seen, the working directory is asked for.
pub open spec fn enter_turn(visit: VisitView, steps: Seq<StepView>) -> TurnView<
    SessionStageView,
> {
    TurnOf::Go {
        stage: SessionStageOf::Here { visit },
        steps: steps.push(attempt(ActionOf::AskDirectory)),
    }
}

fn take_enter(visit: Visit, steps: Steps) -> (r: Turn<SessionStage>)
    ensures
        turned(r) == enter_turn(visit@, steps@),
{
    TurnOf::Go {
        stage: SessionStageOf::Here { visit },
        steps: steps.attempt(ActionOf::AskDirectory),
    }
}

/// The turn to the program that the login hook runs, after some steps.
pub open spec fn binary_turn(visit: VisitView, steps: Seq<StepView>) -> TurnView<
    SessionStageView,
> {
    TurnOf::Go {
        stage: SessionStageOf::Binary { visit },
        steps: steps.push(
            attempt(ActionOf::Exists { path: merged_path(visit.name, "usr/bin/fastfetch"@) }),
        ),
    }
}

fn take_binary(visit: Visit, steps: Steps) -> (r: Turn<SessionStage>)
    ensures
        turned(r) == binary_turn(visit@, steps@),
{
    let path: String = get_merged_path(visit.name.as_str(), "usr/bin/fastfetch");
    TurnOf::Go {
        stage: SessionStageOf::Binary { visit },
        steps: steps.attempt(ActionOf::Exists { path }),
    }
}

/// The turn of a visit whose user is known: a login shell is greeted, a command is
/// run at once.
pub open spec fn visit_turn(visit: VisitView) -> TurnView<SessionStageView> {
    if visit.args.len() == 0 {
        TurnOf::Go {
            stage: SessionStageOf::Profile { visit },
            steps: no_steps().push(
                attempt(ActionOf::CreateDirs { path: merged_path(visit.name, "etc/profile.d"@) }),
            ),
        }
    } else {
        enter_turn(visit, no_steps())
    }
}

fn take_visit(visit: Visit) -> (r: Turn<SessionStage>)
    ensures
        turned(r) == visit_turn(visit@),
{
    if visit.args.len() == 0 {
        let path: String = get_merged_path(visit.name.as_str(), "etc/profile.d");
        TurnOf::Go {
            stage: SessionStageOf::Profile { visit },
            steps: Steps::new().attempt(ActionOf::CreateDirs { path }),
        }
    } else {
        take_enter(visit, Steps::new())
    }
}

/// The turn once it is known as whom to run: the superuser keeps the rights that
/// the program has, anyone else has numbers of their own in the guest.
pub open spec fn user_turn(order: OrderView, pid: u32, user: Seq<char>) -> TurnView<
    SessionStageView,
> {
    let visit = VisitOf { name: order.name, args: order.args, pid, user, ids: None, dir: "/"@ };
    if user == "root"@ {
        visit_turn(visit)
    } else {
        TurnOf::Go {
            stage: SessionStageOf::Ids { visit },
            steps: no_steps().push(
                attempt(ActionOf::ReadText { path: merged_path(order.name, "etc/passwd"@) }),
            ),
        }
    }
}

fn take_user(order: Order, pid: u32, user: String) -> (r: Turn<SessionStage>)
    ensures
        turned(r) == user_turn(order@, pid, user@),
{
    let root: bool = same(user.as_str(), "root");
    let path: String = get_merged_path(order.name.as_str(), "etc/passwd");
    let visit: Visit = VisitOf {
        name: order.name,
        args: order.args,
        pid,
        user,
        ids: None,
        dir: "/".to_owned(),
    };
    if root {
        take_visit(visit)
    } else {
        TurnOf::Go {
            stage: SessionStageOf::Ids { visit },
            steps: Steps::new().attempt(ActionOf::ReadText { path }),
        }
    }
}

/// The turn of an order in a guest that is up and set up.
pub open spec fn ready_turn(order: OrderView, pid: u32) -> TurnView<SessionStageView> {
    if order.as_root {
        user_turn(order, pid, "root"@)
    } else {
        TurnOf::Go {
            stage: SessionStageOf::Target { order, pid },
            steps: no_steps().push(attempt(ActionOf::LoadConfig)),
        }
    }
}

fn take_ready(order: Order, pid: u32) -> (r: Turn<SessionStage>)
    ensures
        turned(r) == ready_turn(order@, pid),
{
    if order.as_root {
        take_user(order, pid, "root".to_owned())
    } else {
        TurnOf::Go {
            stage: SessionStageOf::Target { order, pid },
            steps: Steps::new().attempt(ActionOf::LoadConfig),
        }
    }
}

/// The turn to the configuration once the distribution is up.
pub open spec fn check_turn(order: OrderView, pid: u32) -> TurnView<SessionStageView> {
    TurnOf::Go {
        stage: SessionStageOf::Check { order, pid },
        steps: no_steps().push(attempt(ActionOf::LoadConfig)),
    }
}

fn take_check(order: Order, pid: u32) -> (r: Turn<SessionStage>)
    ensures
        turned(r) == check_turn(order@, pid),
{
    TurnOf::Go {
        stage: SessionStageOf::Check { order, pid },
        steps: Steps::new().attempt(ActionOf::LoadConfig),
    }
}

// -------------------------------------------------------------------- in the guest

/// Giving up the rights of the host: the groups first, the user last. The group and
/// the user must be taken.
pub open spec fn drop_steps(user: Seq<char>, uid: u32, gid: u32) -> Seq<StepView> {
    no_steps().push(
        attempt(
            if user.contains('\0') {
                ActionOf::SetGroups { gid }
            } else {
                ActionOf::InitGroups { user, gid }
            },
        ),
    ).push(must(ActionOf::SetGid { gid })).push(must(ActionOf::SetUid { uid }))
}

fn drop_rights(user: &str, uid: u32, gid: u32) -> (r: Steps)
    ensures
        r@ == drop_steps(user@, uid, gid),
{
    let groups: Action = if has_char(user, '\0') {
        ActionOf::SetGroups { gid }
    } else {
        ActionOf::InitGroups { user: user.to_owned(), gid }
    };
    Steps::new().attempt(groups).must(ActionOf::SetGid { gid }).must(ActionOf::SetUid { uid })
}

/// The error of a visit by a user whom the guest's table does not name.
pub open spec fn stranger(visit: VisitView) -> TurnView<SessionStageView> {
    failing(
        FaultKind::NotFound,
        "User '"@ + visit.user + "' not found in distro '"@ + visit.name + "'"@,
    )
}

fn take_stranger(visit: &Visit) -> (r: Turn<SessionStage>)
    ensures
        turned(r) == stranger(visit@),
{
    let message: String = "User '".to_owned().concat(visit.user.as_str()).concat(
        "' not found in distro '",
    ).concat(visit.name.as_str()).concat("'");
    TurnOf::End { result: Err(FaultOf { kind: FaultKind::NotFound, message }) }
}

/// The turn that ends the process in the guest because the command cannot be run.
pub open spec fn fail_turn(error: Seq<char>) -> TurnView<SessionStageView> {
    TurnOf::Go {
        stage: SessionStageOf::Fail,
        steps: no_steps().push(
            attempt(
                error_line(Style::Plain, "Error executing command inside subsystem: "@ + error),
            ),
        ).push(attempt(ActionOf::Exit { code: 1 })),
    }
}

fn take_fail(error: &str) -> (r: Turn<SessionStage>)
    ensures
        turned(r) == fail_turn(error@),
{
    let text: String = "Error executing command inside subsystem: ".to_owned().concat(error);
    TurnOf::Go {
        stage: SessionStageOf::Fail,
        steps: Steps::new().attempt(warn(Style::Plain, text)).attempt(ActionOf::Exit { code: 1 }),
    }
}

/// Names of variables with their values.
pub struct SettingsOf<L> {
    pub names: L,
    pub values: L,
}

pub type Settings = SettingsOf<Vec<String>>;

pub type SettingsView = SettingsOf<Seq<Seq<char>>>;

impl View for Settings {
    type V = SettingsView;

    open spec fn view(&self) -> SettingsView {
        SettingsOf { names: texts(self.names@), values: texts(self.values@) }
    }
}

/// No variables.
pub open spec fn no_settings() -> SettingsView {
    SettingsOf { names: no_words(), values: no_words() }
}

impl SettingsView {
    /// One variable more.
    pub open spec fn set(self, name: Seq<char>, value: Seq<char>) -> SettingsView {
        SettingsOf { names: self.names.push(name), values: self.values.push(value) }
    }

    /// One variable more, where it has a value.
    pub open spec fn set_some(self, name: Seq<char>, value: Option<Seq<char>>) -> SettingsView {
        match value {
            Some(v) => self.set(name, v),
            None => self,
        }
    }

    /// The variable has the value.
    pub open spec fn has(self, name: Seq<char>, value: Seq<char>) -> bool {
        exists|i: int|
            0 <= i < self.names.len() && i < self.values.len() && #[trigger] self.names[i] == name
                && self.values[i] == value
    }
}

impl Settings {
    /// Starts with no variables.
    fn new() -> (r: Settings)
        ensures
            r@ == no_settings(),
    {
        SettingsOf { names: words().items, values: words().items }
    }

    /// One variable more.
    fn assign(self, name: &str, value: &str) -> (r: Settings)
        ensures
            r@ == self@.set(name@, value@),
    {
        let names: Words = Words { items: self.names };
        let values: Words = Words { items: self.values };
        SettingsOf { names: names.with(name).items, values: values.with(value).items }
    }

    /// One variable more, where it has a value.
    fn assign_some(self, name: &str, value: &Option<String>) -> (r: Settings)
        ensures
            r@ == self@.set_some(name@, opt_text(*value)),
    {
        match value {
            Some(v) => self.assign(name, v.as_str()),
            None => self,
        }
    }
}

/// The kind of terminal that the guest is told of.
pub open spec fn terminal(env: VariablesView) -> Seq<char> {
    match env.term {
        Some(t) => t,
        None => "xterm-256color"@,
    }
}

/// The file that lets the guest's programs use the screen: the one that the host
/// names, else the user's, if the user is not the superuser.
pub open spec fn screen_key(env: VariablesView, host: Seq<char>) -> Option<Seq<char>> {
    match env.xauthority {
        Some(x) => Some(x),
        None => if host != "root"@ {
            Some("/home/"@ + host + "/.Xauthority"@)
        } else {
            None
        },
    }
}

fn find_screen_key(env: &Variables, host: &str) -> (r: Option<String>)
    ensures
        opt_text(r) == screen_key(env@, host@),
{
    match &env.xauthority {
        Some(x) => Some(x.clone()),
        None => if same(host, "root") {
            None
        } else {
            Some("/home/".to_owned().concat(host).concat("/.Xauthority"))
        },
    }
}

/// The environment of a command in the guest: what it needs of the host's terminal,
/// screen and sound, and who it runs as.
pub open spec fn guest_settings(
    env: VariablesView,
    host: Seq<char>,
    uid: u32,
    user: Seq<char>,
    home: Seq<char>,
    shell: Seq<char>,
) -> SettingsView {
    no_settings().set("TERM"@, terminal(env)).set("SYSTEMD_LOG_LEVEL"@, "emerg"@).set(
        "SYSTEMD_LOG_TARGET"@,
        "console"@,
    ).set_some("DISPLAY"@, env.display).set_some("XAUTHORITY"@, screen_key(env, host)).set_some(
        "WAYLAND_DISPLAY"@,
        env.wayland_display,
    ).set("XDG_RUNTIME_DIR"@, "/run/user/"@ + decimal(uid as nat)).set(
        "PULSE_SERVER"@,
        "unix:/run/user/"@ + decimal(uid as nat) + "/pulse/native"@,
    ).set("HOME"@, home).set("USER"@, user).set("LOGNAME"@, user).set("SHELL"@, shell).set(
        "PATH"@,
        GUEST_PATH@,
    )
}

fn surround(
    env: &Variables,
    host: &str,
    uid: u32,
    user: &str,
    home: &str,
    shell: &str,
) -> (r: Settings)
    ensures
        r@ == guest_settings(env@, host@, uid, user@, home@, shell@),
{
    let term: String = match &env.term {
        Some(t) => t.clone(),
        None => "xterm-256color".to_owned(),
    };
    let key: Option<String> = find_screen_key(env, host);
    let runtime: String = "/run/user/".to_owned().concat(format_decimal(uid).as_str());
    let sound: String = "unix:/run/user/".to_owned().concat(format_decimal(uid).as_str()).concat(
        "/pulse/native",
    );
    Settings::new().assign("TERM", term.as_str()).assign("SYSTEMD_LOG_LEVEL", "emerg").assign(
        "SYSTEMD_LOG_TARGET",
        "console",
    ).assign_some("DISPLAY", &env.display).assign_some("XAUTHORITY", &key).assign_some(
        "WAYLAND_DISPLAY",
        &env.wayland_display,
    ).assign("XDG_RUNTIME_DIR", runtime.as_str()).assign("PULSE_SERVER", sound.as_str()).assign(
        "HOME",
        home,
    ).assign("USER", user).assign("LOGNAME", user).assign("SHELL", shell).assign("PATH", GUEST_PATH)
}

/// Where the command starts: in the directory that it was asked for in, if that is
/// below `/home`, else in the user's home.
pub open spec fn start_dir(current: Seq<char>, home: Seq<char>) -> Seq<char> {
    if under_home(current) {
        current
    } else {
        home
    }
}

/// What takes over: the command, or a login shell where there is none.
pub open spec fn launched(args: Seq<Seq<char>>, shell: Seq<char>) -> Seq<Seq<char>> {
    if args.len() == 0 {
        no_words().push(shell).push("--login"@)
    } else {
        args
    }
}

fn pick_command(args: &[String], shell: &str) -> (r: Vec<String>)
    ensures
        texts(r@) == launched(texts(args@), shell@),
{
    if args.len() == 0 {
        words().with(shell).with("--login").items
    } else {
        copy_texts(args)
    }
}

/// The turn that starts the command: with the environment of the guest, from the
/// directory that it was asked for in where that can be.
pub open spec fn launch_turn(
    visit: VisitView,
    settings: SettingsView,
    home: Seq<char>,
    shell: Seq<char>,
) -> TurnView<SessionStageView> {
    TurnOf::Go {
        stage: SessionStageOf::Launch { visit },
        steps: no_steps().push(
            attempt(
                ActionOf::ReplaceVariables { names: settings.names, values: settings.values },
            ),
        ).push(attempt(ActionOf::ChangeDir { path: start_dir(visit.dir, home) })).push(
            attempt(ActionOf::Exec { args: launched(visit.args, shell) }),
        ),
    }
}

fn take_launch(visit: Visit, settings: Settings, home: String, shell: &str) -> (r: Turn<
    SessionStage,
>)
    ensures
        turned(r) == launch_turn(visit@, settings@, home@, shell@),
{
    let path: String = if is_under_home(visit.dir.as_str()) {
        visit.dir.clone()
    } else {
        home
    };
    let args: Vec<String> = pick_command(visit.args.as_slice(), shell);
    TurnOf::Go {
        stage: SessionStageOf::Launch { visit },
        steps: Steps::new().attempt(
            ActionOf::ReplaceVariables { names: settings.names, values: settings.values },
        ).attempt(ActionOf::ChangeDir { path }).attempt(ActionOf::Exec { args }),
    }
}

/// The turn that reads the environment.
pub open spec fn surround_turn(
    visit: VisitView,
    host: Seq<char>,
    uid: u32,
    passwd: Option<Seq<char>>,
) -> TurnView<SessionStageView> {
    let (home, shell) = home_and_shell(passwd, visit.user);
    TurnOf::Go {
        stage: SessionStageOf::Surround { visit, host, uid, home, shell },
        steps: no_steps().push(attempt(ActionOf::AskVariables)),
    }
}

fn take_surround(visit: Visit, host: String, uid: u32, passwd: Option<&str>) -> (r: Turn<
    SessionStage,
>)
    ensures
        turned(r) == surround_turn(visit@, host@, uid, crate::accounts::slice_text(passwd)),
{
    let (home, shell) = find_home_and_shell(passwd, visit.user.as_str());
    TurnOf::Go {
        stage: SessionStageOf::Surround { visit, host, uid, home, shell },
        steps: Steps::new().attempt(ActionOf::AskVariables),
    }
}

// ------------------------------------------------------------------------- plan

impl Plan for SessionStage {
    open spec fn rank(stage: SessionStageView) -> nat {
        match stage {
            SessionStageOf::Find { order } => 25,
            SessionStageOf::Start { order } => 24,
            SessionStageOf::Check { order, pid } => 23,
            SessionStageOf::Flag { order, pid } => 22,
            SessionStageOf::Ask { order, pid } => 21,
            SessionStageOf::Zone { order, pid, account } => 20,
            SessionStageOf::Equip { order, pid, account } => 19,
            SessionStageOf::Enlist { order, account } => 18,
            SessionStageOf::Restart { order } => 17,
            SessionStageOf::Target { order, pid } => 16,
            SessionStageOf::Ids { visit } => 15,
            SessionStageOf::Profile { visit } => 14,
            SessionStageOf::Hook { visit } => 13,
            SessionStageOf::WriteHook { visit } => 12,
            SessionStageOf::Binary { visit } => 11,
            SessionStageOf::Install { visit } => 10,
            SessionStageOf::Installed { visit } => 9,
            SessionStageOf::Here { visit } => 8,
            SessionStageOf::Enter { visit } => 7,
            SessionStageOf::Wait => 6,
            SessionStageOf::Root { visit } => 5,
            SessionStageOf::Drop { visit, host, uid } => 4,
            SessionStageOf::Surround { visit, host, uid, home, shell } => 3,
            SessionStageOf::Launch { visit } => 1,
            SessionStageOf::Fail => 0,
        }
    }

    open spec fn next(stage: SessionStageView, reply: ReplyView) -> TurnView<SessionStageView> {
        match stage {
            SessionStageOf::Find { order } => match reply {
                ReplyOf::Located { found } => match found {
                    Some(pid) => check_turn(order, pid),
                    None => TurnOf::Go {
                        stage: SessionStageOf::Start { order },
                        steps: no_steps().push(must(ActionOf::Boot { name: order.name })),
                    },
                },
                _ => stray(),
            },
            SessionStageOf::Start { order } => match reply {
                ReplyOf::Booted { pid } => check_turn(order, pid),
                _ => stray(),
            },
            SessionStageOf::Check { order, pid } => match reply {
                ReplyOf::Config { config } => if registered(config.distros, order.name) {
                    TurnOf::Go {
                        stage: SessionStageOf::Flag { order, pid },
                        steps: no_steps().push(
                            attempt(ActionOf::Exists { path: setup_flag(order.name) }),
                        ),
                    }
                } else {
                    failing(
                        FaultKind::NotFound,
                        "Distro '"@ + order.name + "' not found in config"@,
                    )
                },
                _ => stray(),
            },
            SessionStageOf::Flag { order, pid } => if reply == (ReplyView::Found {
                exists: true,
            }) {
                ready_turn(order, pid)
            } else {
                TurnOf::Go {
                    stage: SessionStageOf::Ask { order, pid },
                    steps: no_steps().push(must(ActionOf::Interview { name: order.name })),
                }
            },
            SessionStageOf::Ask { order, pid } => match reply {
                ReplyOf::Account { account } => TurnOf::Go {
                    stage: SessionStageOf::Zone { order, pid, account },
                    steps: identity_steps(order.name, account.hostname),
                },
                _ => stray(),
            },
            SessionStageOf::Zone { order, pid, account } => {
                let zone = match reply {
                    ReplyOf::Text { text } => zone_of(Some(text)),
                    _ => zone_of(None),
                };
                TurnOf::Go {
                    stage: SessionStageOf::Equip { order, pid, account },
                    steps: equip_steps(pid, zone, account.packages, account.username),
                }
            },
            SessionStageOf::Equip { order, pid, account } => match reply {
                ReplyOf::User { name, uid, gid } => TurnOf::Go {
                    stage: SessionStageOf::Enlist { order, account },
                    steps: enlist_steps(pid, account, uid, gid),
                },
                _ => stray(),
            },
            SessionStageOf::Enlist { order, account } => match reply {
                ReplyOf::Config { config } => TurnOf::Go {
                    stage: SessionStageOf::Restart { order },
                    steps: restart_steps(config, order.name, account.username),
                },
                _ => stray(),
            },
            SessionStageOf::Restart { order } => match reply {
                ReplyOf::Booted { pid } => ready_turn(order, pid),
                _ => stray(),
            },
            SessionStageOf::Target { order, pid } => match reply {
                ReplyOf::Config { config } => user_turn(order, pid, config.user_of(order.name)),
                _ => stray(),
            },
            SessionStageOf::Ids { visit } => {
                let ids = match reply {
                    ReplyOf::Text { text } => guest_ids(text, visit.user),
                    _ => None,
                };
                match ids {
                    Some(known) => visit_turn(VisitOf { ids, ..visit }),
                    None => stranger(visit),
                }
            },
            SessionStageOf::Profile { visit } => TurnOf::Go {
                stage: SessionStageOf::Hook { visit },
                steps: warning_steps(
                    "Warning: Failed to create profile.d directory: "@,
                    reply,
                ).push(attempt(ActionOf::ReadText { path: hook_file(visit.name) })),
            },
            SessionStageOf::Hook { visit } => if reply == (ReplyView::Text {
                text: HOOK_SCRIPT@,
            }) {
                binary_turn(visit, no_steps())
            } else {
                TurnOf::Go {
                    stage: SessionStageOf::WriteHook { visit },
                    steps: no_steps().push(
                        attempt(
                            ActionOf::WriteText {
                                path: hook_file(visit.name),
                                text: HOOK_SCRIPT@,
                            },
                        ),
                    ),
                }
            },
            SessionStageOf::WriteHook { visit } => if reply is Failed {
                binary_turn(
                    visit,
                    warning_steps("Warning: Failed to write fastfetch.sh: "@, reply),
                )
            } else {
                binary_turn(
                    visit,
                    no_steps().push(
                        attempt(ActionOf::SetMode { path: hook_file(visit.name), mode: 0o755 }),
                    ),
                )
            },
            SessionStageOf::Binary { visit } => if reply == (ReplyView::Found { exists: true }) {
                enter_turn(visit, no_steps())
            } else {
                TurnOf::Go {
                    stage: SessionStageOf::Install { visit },
                    steps: install_steps(visit.pid),
                }
            },
            SessionStageOf::Install { visit } => if reply is Failed {
                enter_turn(
                    visit,
                    warning_steps("Warning: Failed to install fastfetch inside guest: "@, reply),
                )
            } else {
                TurnOf::Go {
                    stage: SessionStageOf::Installed { visit },
                    steps: no_steps().push(
                        attempt(
                            ActionOf::Exists { path: merged_path(visit.name, "usr/bin/fastfetch"@) },
                        ),
                    ),
                }
            },
            SessionStageOf::Installed { visit } => if reply == (ReplyView::Found {
                exists: true,
            }) {
                enter_turn(
                    visit,
                    no_steps().push(
                        attempt(line(Style::Green, "[LSL] fastfetch successfully installed!"@)),
                    ),
                )
            } else {
                enter_turn(
                    visit,
                    no_steps().push(
                        attempt(
                            error_line(
                                Style::Yellow,
                                "Warning: fastfetch installation finished, but binary was not found. Please verify guest internet connection."@,
                            ),
                        ),
                    ),
                )
            },
            SessionStageOf::Here { visit } => {
                let dir = match reply {
                    ReplyOf::Text { text } => text,
                    _ => "/"@,
                };
                TurnOf::Go {
                    stage: SessionStageOf::Enter { visit: VisitOf { dir, ..visit } },
                    steps: gate_steps(visit.pid),
                }
            },
            SessionStageOf::Enter { visit } => match reply {
                ReplyOf::Forked { child } => match child {
                    Some(c) => TurnOf::Go {
                        stage: SessionStageOf::Wait,
                        steps: no_steps().push(
                            explained(
                                ActionOf::Wait { child: c },
                                FaultKind::Other,
                                "Failed to wait for child: "@,
                            ),
                        ),
                    },
                    None => TurnOf::Go {
                        stage: SessionStageOf::Root { visit },
                        steps: no_steps().push(attempt(ActionOf::ChangeRoot { path: "/"@ })).push(
                            attempt(ActionOf::ChangeDir { path: "/"@ }),
                        ).push(attempt(ActionOf::AskUser)),
                    },
                },
                _ => stray(),
            },
            SessionStageOf::Wait => match reply {
                ReplyOf::Waited { code } => match code {
                    Some(c) => giving(ValueOf::Code { code: c }),
                    None => giving(ValueOf::Code { code: 1 }),
                },
                _ => stray(),
            },
            SessionStageOf::Root { visit } => match reply {
                ReplyOf::User { name, uid, gid } => if visit.user == "root"@ {
                    surround_turn(visit, name, uid, None)
                } else {
                    match visit.ids {
                        Some((u, g)) => TurnOf::Go {
                            stage: SessionStageOf::Drop { visit, host: name, uid },
                            steps: drop_steps(visit.user, u, g).push(
                                attempt(ActionOf::ReadText { path: "/etc/passwd"@ }),
                            ),
                        },
                        None => stranger(visit),
                    }
                },
                _ => stray(),
            },
            SessionStageOf::Drop { visit, host, uid } => match reply {
                ReplyOf::Text { text } => surround_turn(visit, host, uid, Some(text)),
                _ => surround_turn(visit, host, uid, None),
            },
            SessionStageOf::Surround { visit, host, uid, home, shell } => match reply {
                ReplyOf::Variables { env } => launch_turn(
                    visit,
                    guest_settings(env, host, uid, visit.user, home, shell),
                    home,
                    shell,
                ),
                _ => stray(),
            },
            SessionStageOf::Launch { visit } => match reply {
                ReplyOf::Failed { kind, error } => fail_turn(error),
                _ => stray(),
            },
            SessionStageOf::Fail => stray(),
        }
    }

    open spec fn halted(stage: SessionStageView, fault: FaultView, clean: bool) -> TurnView<
        SessionStageView,
    > {
        match stage {
            SessionStageOf::Drop { visit, host, uid } => fail_turn(fault.message),
            _ => TurnOf::End { result: Err(fault) },
        }
    }

    proof fn next_descends(stage: SessionStageView, reply: ReplyView) {
    }

    proof fn halted_descends(stage: SessionStageView, fault: FaultView, clean: bool) {
    }

    fn advance(self, reply: Reply) -> (r: Turn<Self>) {
        match self {
            SessionStageOf::Find { order } => match reply {
                ReplyOf::Located { found } => match found {
                    Some(pid) => take_check(order, pid),
                    None => {
                        let name: String = order.name.clone();
                        TurnOf::Go {
                            stage: SessionStageOf::Start { order },
                            steps: Steps::new().must(ActionOf::Boot { name }),
                        }
                    },
                },
                _ => take_stray(),
            },
            SessionStageOf::Start { order } => match reply {
                ReplyOf::Booted { pid } => take_check(order, pid),
                _ => take_stray(),
            },
            SessionStageOf::Check { order, pid } => match reply {
                ReplyOf::Config { config } => if config.distros.contains_key(
                    order.name.as_str(),
                ) {
                    let path: String = setup_flag_path(order.name.as_str());
                    TurnOf::Go {
                        stage: SessionStageOf::Flag { order, pid },
                        steps: Steps::new().attempt(ActionOf::Exists { path }),
                    }
                } else {
                    let message: String = "Distro '".to_owned().concat(order.name.as_str()).concat(
                        "' not found in config",
                    );
                    TurnOf::End { result: Err(FaultOf { kind: FaultKind::NotFound, message }) }
                },
                _ => take_stray(),
            },
            SessionStageOf::Flag { order, pid } => {
                let exists: bool = match reply {
                    ReplyOf::Found { exists } => exists,
                    _ => false,
                };
                if exists {
                    take_ready(order, pid)
                } else {
                    let name: String = order.name.clone();
                    TurnOf::Go {
                        stage: SessionStageOf::Ask { order, pid },
                        steps: Steps::new().must(ActionOf::Interview { name }),
                    }
                }
            },
            SessionStageOf::Ask { order, pid } => match reply {
                ReplyOf::Account { account } => {
                    let steps: Steps = write_identity(
                        order.name.as_str(),
                        account.hostname.as_str(),
                    );
                    TurnOf::Go { stage: SessionStageOf::Zone { order, pid, account }, steps }
                },
                _ => take_stray(),
            },
            SessionStageOf::Zone { order, pid, account } => {
                let zone: String = match reply {
                    ReplyOf::Text { text } => find_zone(Some(text.as_str())),
                    _ => find_zone(None),
                };
                let steps: Steps = equip(
                    pid,
                    zone.as_str(),
                    account.packages,
                    account.username.as_str(),
                );
                TurnOf::Go { stage: SessionStageOf::Equip { order, pid, account }, steps }
            },
            SessionStageOf::Equip { order, pid, account } => match reply {
                ReplyOf::User { name, uid, gid } => {
                    let steps: Steps = enlist(pid, &account, uid, gid);
                    TurnOf::Go { stage: SessionStageOf::Enlist { order, account }, steps }
                },
                _ => take_stray(),
            },
            SessionStageOf::Enlist { order, account } => match reply {
                ReplyOf::Config { config } => {
                    let mut updated: GlobalConfig = config;
                    updated.assign_user(order.name.as_str(), account.username.as_str());
                    let steps: Steps = updated.save().then_all(seal(order.name.as_str()));
                    TurnOf::Go { stage: SessionStageOf::Restart { order }, steps }
                },
                _ => take_stray(),
            },
            SessionStageOf::Restart { order } => match reply {
                ReplyOf::Booted { pid } => take_ready(order, pid),
                _ => take_stray(),
            },
            SessionStageOf::Target { order, pid } => match reply {
                ReplyOf::Config { config } => {
                    let user: String = config.default_user(order.name.as_str());
                    take_user(order, pid, user)
                },
                _ => take_stray(),
            },
            SessionStageOf::Ids { visit } => {
                let ids: Option<(u32, u32)> = match reply {
                    ReplyOf::Text { text } => get_guest_user_ids_from_host(
                        text.as_str(),
                        visit.user.as_str(),
                    ),
                    _ => None,
                };
                match ids {
                    Some(known) => take_visit(
                        VisitOf {
                            name: visit.name,
                            args: visit.args,
                            pid: visit.pid,
                            user: visit.user,
                            ids,
                            dir: visit.dir,
                        },
                    ),
                    None => take_stranger(&visit),
                }
            },
            SessionStageOf::Profile { visit } => {
                let path: String = hook_path(visit.name.as_str());
                TurnOf::Go {
                    stage: SessionStageOf::Hook { visit },
                    steps: warn_of(
                        "Warning: Failed to create profile.d directory: ",
                        &reply,
                    ).attempt(ActionOf::ReadText { path }),
                }
            },
            SessionStageOf::Hook { visit } => {
                let current: bool = match &reply {
                    ReplyOf::Text { text } => same(text.as_str(), HOOK_SCRIPT),
                    _ => false,
                };
                if current {
                    take_binary(visit, Steps::new())
                } else {
                    let path: String = hook_path(visit.name.as_str());
                    TurnOf::Go {
                        stage: SessionStageOf::WriteHook { visit },
                        steps: Steps::new().attempt(
                            ActionOf::WriteText { path, text: HOOK_SCRIPT.to_owned() },
                        ),
                    }
                }
            },
            SessionStageOf::WriteHook { visit } => match &reply {
                ReplyOf::Failed { kind, error } => take_binary(
                    visit,
                    warn_of("Warning: Failed to write fastfetch.sh: ", &reply),
                ),
                _ => {
                    let path: String = hook_path(visit.name.as_str());
                    take_binary(
                        visit,
                        Steps::new().attempt(ActionOf::SetMode { path, mode: 0o755 }),
                    )
                },
            },
            SessionStageOf::Binary { visit } => {
                let exists: bool = match reply {
                    ReplyOf::Found { exists } => exists,
                    _ => false,
                };
                if exists {
                    take_enter(visit, Steps::new())
                } else {
                    let steps: Steps = install_hooked(visit.pid);
                    TurnOf::Go { stage: SessionStageOf::Install { visit }, steps }
                }
            },
            SessionStageOf::Install { visit } => match &reply {
                ReplyOf::Failed { kind, error } => take_enter(
                    visit,
                    warn_of("Warning: Failed to install fastfetch inside guest: ", &reply),
                ),
                _ => {
                    let path: String = get_merged_path(visit.name.as_str(), "usr/bin/fastfetch");
                    TurnOf::Go {
                        stage: SessionStageOf::Installed { visit },
                        steps: Steps::new().attempt(ActionOf::Exists { path }),
                    }
                },
            },
            SessionStageOf::Installed { visit } => {
                let exists: bool = match reply {
                    ReplyOf::Found { exists } => exists,
                    _ => false,
                };
                if exists {
                    take_enter(
                        visit,
                        Steps::new().say(
                            Style::Green,
                            "[LSL] fastfetch successfully installed!".to_owned(),
                        ),
                    )
                } else {
                    take_enter(
                        visit,
                        Steps::new().attempt(
                            warn(
                                Style::Yellow,
                                "Warning: fastfetch installation finished, but binary was not found. Please verify guest internet connection.".to_owned(),
                            ),
                        ),
                    )
                }
            },
            SessionStageOf::Here { visit } => {
                let dir: String = match reply {
                    ReplyOf::Text { text } => text,
                    _ => "/".to_owned(),
                };
                let steps: Steps = open_gates(visit.pid);
                TurnOf::Go {
                    stage: SessionStageOf::Enter {
                        visit: VisitOf {
                            name: visit.name,
                            args: visit.args,
                            pid: visit.pid,
                            user: visit.user,
                            ids: visit.ids,
                            dir,
                        },
                    },
                    steps,
                }
            },
            SessionStageOf::Enter { visit } => match reply {
                ReplyOf::Forked { child } => match child {
                    Some(c) => TurnOf::Go {
                        stage: SessionStageOf::Wait,
                        steps: Steps::new().explained(
                            ActionOf::Wait { child: c },
                            FaultKind::Other,
                            "Failed to wait for child: ",
                        ),
                    },
                    None => TurnOf::Go {
                        stage: SessionStageOf::Root { visit },
                        steps: Steps::new().attempt(
                            ActionOf::ChangeRoot { path: "/".to_owned() },
                        ).attempt(ActionOf::ChangeDir { path: "/".to_owned() }).attempt(
                            ActionOf::AskUser,
                        ),
                    },
                },
                _ => take_stray(),
            },
            SessionStageOf::Wait => match reply {
                ReplyOf::Waited { code } => match code {
                    Some(c) => TurnOf::End { result: Ok(ValueOf::Code { code: c }) },
                    None => TurnOf::End { result: Ok(ValueOf::Code { code: 1 }) },
                },
                _ => take_stray(),
            },
            SessionStageOf::Root { visit } => match reply {
                ReplyOf::User { name, uid, gid } => if same(visit.user.as_str(), "root") {
                    take_surround(visit, name, uid, None)
                } else {
                    match visit.ids {
                        Some((u, g)) => {
                            let steps: Steps = drop_rights(visit.user.as_str(), u, g);
                            TurnOf::Go {
                                stage: SessionStageOf::Drop { visit, host: name, uid },
                                steps: steps.attempt(
                                    ActionOf::ReadText { path: "/etc/passwd".to_owned() },
                                ),
                            }
                        },
                        None => take_stranger(&visit),
                    }
                },
                _ => take_stray(),
            },
            SessionStageOf::Drop { visit, host, uid } => match reply {
                ReplyOf::Text { text } => take_surround(visit, host, uid, Some(text.as_str())),
                _ => take_surround(visit, host, uid, None),
            },
            SessionStageOf::Surround { visit, host, uid, home, shell } => match reply {
                ReplyOf::Variables { env } => {
                    let settings: Settings = surround(
                        &env,
                        host.as_str(),
                        uid,
                        visit.user.as_str(),
                        home.as_str(),
                        shell.as_str(),
                    );
                    take_launch(visit, settings, home, shell.as_str())
                },
                _ => take_stray(),
            },
            SessionStageOf::Launch { visit } => match reply {
                ReplyOf::Failed { kind, error } => take_fail(error.as_str()),
                _ => take_stray(),
            },
            SessionStageOf::Fail => take_stray(),
        }
    }

    fn halt(self, fault: Fault, clean: bool) -> (r: Turn<Self>) {
        match self {
            SessionStageOf::Drop { visit, host, uid } => take_fail(fault.message.as_str()),
            _ => TurnOf::End { result: Err(fault) },
        }
    }
}

/// The task that runs something in a distribution.
pub open spec fn visit_task(order: OrderView) -> TaskView<SessionStageView> {
    started(
        SessionStageOf::Find { order },
        no_steps().push(attempt(ActionOf::FindPid { name: order.name })),
    )
}

/// Starts to run a command in a distribution, or a login shell if the command is
/// empty.
pub fn run_command_in_distro(name: &str, command_args: &[String], run_as_root: bool) -> (r: Task<
    SessionStage,
>)
    ensures
        r@ == visit_task(
            OrderOf { name: name@, args: texts(command_args@), as_root: run_as_root },
        ),
{
    let order: Order = OrderOf {
        name: name.to_owned(),
        args: copy_texts(command_args),
        as_root: run_as_root,
    };
    let stage: SessionStage = SessionStageOf::Find { order };
    Task::start(stage, Steps::new().attempt(ActionOf::FindPid { name: name.to_owned() }))
}

// ------------------------------------------------------------------------- laws

/// A command that is to run as the superuser does so whatever the configuration
/// says, and keeps the rights that the program has.
pub proof fn law_root_on_request(order: OrderView, pid: u32)
    requires
        order.as_root,
    ensures
        ready_turn(order, pid) == visit_turn(
            VisitOf {
                name: order.name,
                args: order.args,
                pid,
                user: "root"@,
                ids: None,
                dir: "/"@,
            },
        ),
{
}

/// Any other command runs as the user that the configuration names, with the
/// numbers that the guest's own table gives that user; where the table gives none,
/// or cannot be read, nothing is run.
pub proof fn law_user_by_default(
    order: OrderView,
    pid: u32,
    config: ConfigView,
    passwd: Seq<char>,
)
    requires
        !order.as_root,
        config.user_of(order.name) != "root"@,
    ensures
        ({
            let user = config.user_of(order.name);
            let asked = ready_turn(order, pid);
            let named = SessionStage::next(
                SessionStageOf::Target { order, pid },
                ReplyOf::Config { config },
            );
            let visit = VisitOf { name: order.name, args: order.args, pid, user, ids: None, dir: "/"@ };
            &&& asked matches TurnOf::Go { stage, steps } && stage == (SessionStageView::Target {
                order,
                pid,
            })
            &&& named matches TurnOf::Go { stage, steps } && stage == (SessionStageView::Ids {
                visit,
            })
            &&& SessionStage::next(SessionStageOf::Ids { visit }, ReplyOf::Text { text: passwd })
                == match guest_ids(passwd, user) {
                Some(ids) => visit_turn(VisitOf { ids: Some(ids), ..visit }),
                None => stranger(visit),
            }
            &&& forall|reply: ReplyView|
                !(reply is Text) ==> #[trigger] SessionStage::next(
                    SessionStageOf::Ids { visit },
                    reply,
                ) == stranger(visit)
        }),
{
}

/// A distribution is booted only if it does not run.
pub proof fn law_boots_only_when_stopped(order: OrderView, found: Option<u32>)
    ensures
        SessionStage::next(
            SessionStageOf::Find { order },
            ReplyOf::Located { found },
        ) == match found {
            Some(pid) => check_turn(order, pid),
            None => TurnOf::Go {
                stage: SessionStageOf::Start { order },
                steps: no_steps().push(must(ActionOf::Boot { name: order.name })),
            },
        },
{
}

/// A guest is set up only while its mark is missing, and setting it up leaves the
/// mark and a coherent configuration that names the new user.
pub proof fn law_set_up_once(
    order: OrderView,
    pid: u32,
    account: AccountView,
    config: ConfigView,
)
    requires
        config.coherent(),
        registered(config.distros, order.name),
    ensures
        SessionStage::next(
            SessionStageOf::Flag { order, pid },
            ReplyOf::Found { exists: true },
        ) == ready_turn(order, pid),
        ({
            let written = config.with_user(order.name, account.username);
            &&& SessionStage::next(
                SessionStageOf::Enlist { order, account },
                ReplyOf::Config { config },
            ) matches TurnOf::Go { stage, steps } && steps.contains(
                must(ActionOf::StoreConfig { path: config_file(), config: written }),
            ) && steps.contains(attempt(ActionOf::CreateFile { path: setup_flag(order.name) }))
            &&& written.coherent()
            &&& written.user_of(order.name) == account.username
        }),
{
    let written = config.with_user(order.name, account.username);
    law_updates_coherent(config, order.name, account.username);
    let steps = restart_steps(config, order.name, account.username);
    assert(steps[1] == must(ActionOf::StoreConfig { path: config_file(), config: written }));
    assert(steps[2] == attempt(ActionOf::CreateFile { path: setup_flag(order.name) }));
}

/// The namespaces of the guest are all opened before the first is entered, the
/// process forks only after the last, and the mount namespace comes last.
pub proof fn law_gates_in_order(pid: u32, i: int, j: int)
    requires
        0 <= i < j < gate_steps(pid).len(),
    ensures
        gate_steps(pid)[i].action is EnterNamespace ==> !(gate_steps(pid)[j].action
            is OpenNamespace),
        !(gate_steps(pid)[i].action is Fork),
        gate_steps(pid)[i].action == (ActionView::EnterNamespace { kind: Namespace::Mnt })
            ==> gate_steps(pid)[j].action is Fork,
{
}

/// What a session runs, it runs in the guest: the stage in which the root is entered
/// follows only the fork, in the child, after all namespaces of the guest were
/// opened and entered.
pub proof fn law_commands_run_inside(stage: SessionStageView, reply: ReplyView)
    ensures
        SessionStage::next(stage, reply) matches TurnOf::Go { stage: s, steps } ==> {
            &&& s is Root ==> stage is Enter && reply == (ReplyView::Forked { child: None })
            &&& s matches SessionStageOf::Enter { visit } ==> steps == gate_steps(visit.pid)
        },
{
}

/// The user's rights are those of the guest's table, and are taken in an order in
/// which each step is still allowed.
pub proof fn law_drop_order(user: Seq<char>, uid: u32, gid: u32)
    ensures
        ({
            let steps = drop_steps(user, uid, gid);
            &&& steps.len() == 3
            &&& steps[0].action == if user.contains('\0') {
                ActionView::SetGroups { gid }
            } else {
                ActionView::InitGroups { user, gid }
            }
            &&& steps[1] == must(ActionOf::SetGid { gid })
            &&& steps[2] == must(ActionOf::SetUid { uid })
        }),
{
}

/// Steps none of which lets a command take over.
pub open spec fn runs_nothing(steps: Seq<StepView>) -> bool {
    forall|i: int| 0 <= i < steps.len() ==> !((#[trigger] steps[i]).action is Exec)
}

/// An action that gives the process another user or other groups.
pub open spec fn changes_user(action: ActionView) -> bool {
    action is SetUid || action is SetGid || action is InitGroups || action is SetGroups
}

/// Steps that leave the process its user and its groups.
pub open spec fn keeps_user(steps: Seq<StepView>) -> bool {
    forall|i: int| 0 <= i < steps.len() ==> !changes_user((#[trigger] steps[i]).action)
}

/// A visit by the superuser, or by a user with numbers of their own.
pub open spec fn entitled(visit: VisitView) -> bool {
    visit.user == "root"@ || visit.ids is Some
}

/// The visit that a stage is about, once its user is settled.
pub open spec fn settled(stage: SessionStageView) -> Option<VisitView> {
    match stage {
        SessionStageOf::Profile { visit } => Some(visit),
        SessionStageOf::Hook { visit } => Some(visit),
        SessionStageOf::WriteHook { visit } => Some(visit),
        SessionStageOf::Binary { visit } => Some(visit),
        SessionStageOf::Install { visit } => Some(visit),
        SessionStageOf::Installed { visit } => Some(visit),
        SessionStageOf::Here { visit } => Some(visit),
        SessionStageOf::Enter { visit } => Some(visit),
        SessionStageOf::Root { visit } => Some(visit),
        SessionStageOf::Drop { visit, host, uid } => Some(visit),
        SessionStageOf::Surround { visit, host, uid, home, shell } => Some(visit),
        SessionStageOf::Launch { visit } => Some(visit),
        _ => None,
    }
}

/// Steps that begin with giving up the host's rights for those of the visit's user.
pub open spec fn drops_for(visit: VisitView, steps: Seq<StepView>) -> bool {
    visit.user != "root"@ && match visit.ids {
        Some((uid, gid)) => steps == drop_steps(visit.user, uid, gid).push(
            attempt(ActionOf::ReadText { path: "/etc/passwd"@ }),
        ),
        None => false,
    }
}

/// The host's rights were given up for those of the visit's user, unless that is the
/// superuser.
pub open spec fn dropped(
    t: TaskView<SessionStageView>,
    replies: spec_fn(nat) -> ReplyView,
    n: nat,
    visit: VisitView,
) -> bool {
    visit.user == "root"@ || match visit.ids {
        Some((uid, gid)) => granted::<SessionStage>(t, replies, n, ActionOf::SetGid { gid })
            && granted::<SessionStage>(t, replies, n, ActionOf::SetUid { uid }),
        None => false,
    }
}

/// What holds after any number of replies: commands take over only in the last
/// stage, and that is reached only without the host's rights.
spec fn safe(t: TaskView<SessionStageView>, replies: spec_fn(nat) -> ReplyView, n: nat) -> bool {
    match after_replies::<SessionStage>(t, replies, n) {
        TaskOf::Over { result } => true,
        TaskOf::Active { stage, steps, at } => {
            &&& 0 <= at < steps.len()
            &&& stage is Launch || runs_nothing(steps)
            &&& stage is Drop || keeps_user(steps)
            &&& settled(stage) matches Some(visit) ==> entitled(visit)
            &&& stage matches SessionStageOf::Drop { visit, host, uid } ==> {
                &&& drops_for(visit, steps)
                &&& at >= 2 ==> granted::<SessionStage>(
                    t,
                    replies,
                    n,
                    ActionOf::SetGid { gid: visit.ids.unwrap().1 },
                )
                &&& at >= 3 ==> granted::<SessionStage>(
                    t,
                    replies,
                    n,
                    ActionOf::SetUid { uid: visit.ids.unwrap().0 },
                )
            }
            &&& stage is Surround || stage is Launch ==> dropped(
                t,
                replies,
                n,
                settled(stage)->0,
            )
        },
    }
}

/// One reply more keeps what holds.
proof fn lemma_stays_safe(
    t: TaskView<SessionStageView>,
    replies: spec_fn(nat) -> ReplyView,
    n: nat,
)
    requires
        safe(t, replies, n),
    ensures
        safe(t, replies, n + 1),
{
    let now = after_replies::<SessionStage>(t, replies, n);
    let reply = replies(n);
    let then = after_replies::<SessionStage>(t, replies, n + 1);
    assert(then == resumed::<SessionStage>(now, reply));
    if let TaskOf::Active { stage, steps, at } = now {
        SessionStage::next_descends(stage, reply);
        lemma_turns_run_nothing(stage, reply);
        if let Some(visit) = settled(stage) {
            if let Some((uid, gid)) = visit.ids {
                lemma_granted_grows::<SessionStage>(t, replies, n, ActionOf::SetGid { gid });
                lemma_granted_grows::<SessionStage>(t, replies, n, ActionOf::SetUid { uid });
            }
        }
    }
}

/// From the start on, what holds stays.
proof fn lemma_always_safe(
    t: TaskView<SessionStageView>,
    replies: spec_fn(nat) -> ReplyView,
    n: nat,
)
    requires
        safe(t, replies, 0),
    ensures
        safe(t, replies, n),
    decreases n,
{
    if n > 0 {
        lemma_always_safe(t, replies, (n - 1) as nat);
        lemma_stays_safe(t, replies, (n - 1) as nat);
    }
}

/// Whatever the host replies, a session lets a command take over only in its last
/// stage, and there only with the rights of the user whom it is for: unless that is
/// the superuser, the group and the user that the guest's own table names were taken
/// before, and the host refused neither.
pub proof fn law_no_command_with_the_hosts_rights(
    order: OrderView,
    replies: spec_fn(nat) -> ReplyView,
    n: nat,
    args: Seq<Seq<char>>,
)
    ensures
        ({
            let t = visit_task(order);
            let now = after_replies::<SessionStage>(t, replies, n);
            pending(now) == Some(ActionView::Exec { args }) ==> match now {
                TaskOf::Active { stage: SessionStageOf::Launch { visit }, steps, at } => dropped(
                    t,
                    replies,
                    n,
                    visit,
                ),
                _ => false,
            }
        }),
{
    lemma_always_safe(visit_task(order), replies, n);
}

/// The order that a stage is about, as long as its user is not settled.
pub open spec fn ordered_by(stage: SessionStageView) -> Option<OrderView> {
    match stage {
        SessionStageOf::Find { order } => Some(order),
        SessionStageOf::Start { order } => Some(order),
        SessionStageOf::Check { order, pid } => Some(order),
        SessionStageOf::Flag { order, pid } => Some(order),
        SessionStageOf::Ask { order, pid } => Some(order),
        SessionStageOf::Zone { order, pid, account } => Some(order),
        SessionStageOf::Equip { order, pid, account } => Some(order),
        SessionStageOf::Enlist { order, account } => Some(order),
        SessionStageOf::Restart { order } => Some(order),
        SessionStageOf::Target { order, pid } => Some(order),
        _ => None,
    }
}

/// The visit is the one that was ordered, and its user is the one who is meant: the
/// superuser if the order says so, else the one whom the configuration names.
pub open spec fn meant(
    order: OrderView,
    replies: spec_fn(nat) -> ReplyView,
    n: nat,
    visit: VisitView,
) -> bool {
    &&& visit.name == order.name
    &&& visit.args == order.args
    &&& if order.as_root {
        visit.user == "root"@
    } else {
        exists|config: ConfigView|
            visit.user == (#[trigger] config.user_of(order.name)) && heard::<SessionStage>(
                visit_task(order),
                replies,
                n,
                ActionOf::LoadConfig,
                ReplyOf::Config { config },
            )
    }
}

/// The numbers of the visit's user are those of the guest's own table.
pub open spec fn numbered(
    order: OrderView,
    replies: spec_fn(nat) -> ReplyView,
    n: nat,
    visit: VisitView,
) -> bool {
    visit.ids is Some ==> exists|text: Seq<char>|
        #[trigger] guest_ids(text, visit.user) == visit.ids && heard::<SessionStage>(
            visit_task(order),
            replies,
            n,
            ActionOf::ReadText { path: merged_path(order.name, "etc/passwd"@) },
            ReplyOf::Text { text },
        )
}

/// What holds after any number of replies: the session is still about the order.
spec fn true_to(order: OrderView, replies: spec_fn(nat) -> ReplyView, n: nat) -> bool {
    match after_replies::<SessionStage>(visit_task(order), replies, n) {
        TaskOf::Over { result } => true,
        TaskOf::Active { stage, steps, at } => {
            &&& 0 <= at < steps.len()
            &&& ordered_by(stage) matches Some(o) ==> o == order
            &&& stage is Target ==> !order.as_root && steps == no_steps().push(
                attempt(ActionOf::LoadConfig),
            )
            &&& stage matches SessionStageOf::Ids { visit } ==> meant(order, replies, n, visit)
                && steps == no_steps().push(
                attempt(ActionOf::ReadText { path: merged_path(order.name, "etc/passwd"@) }),
            )
            &&& settled(stage) matches Some(visit) ==> meant(order, replies, n, visit) && numbered(
                order,
                replies,
                n,
                visit,
            )
        },
    }
}

/// Who was meant stays meant, and numbers that were found stay found.
proof fn lemma_meant_grows(
    order: OrderView,
    replies: spec_fn(nat) -> ReplyView,
    n: nat,
    visit: VisitView,
)
    ensures
        meant(order, replies, n, visit) ==> meant(order, replies, n + 1, visit),
        numbered(order, replies, n, visit) ==> numbered(order, replies, n + 1, visit),
{
    let t = visit_task(order);
    if meant(order, replies, n, visit) && !order.as_root {
        let config = choose|config: ConfigView|
            visit.user == (#[trigger] config.user_of(order.name)) && heard::<SessionStage>(
                t,
                replies,
                n,
                ActionOf::LoadConfig,
                ReplyOf::Config { config },
            );
        lemma_heard_grows::<SessionStage>(t, replies, n, ActionOf::LoadConfig, ReplyOf::Config { config });
    }
    if numbered(order, replies, n, visit) && visit.ids is Some {
        let read = ActionView::ReadText { path: merged_path(order.name, "etc/passwd"@) };
        let text = choose|text: Seq<char>|
            #[trigger] guest_ids(text, visit.user) == visit.ids && heard::<SessionStage>(
                t,
                replies,
                n,
                read,
                ReplyOf::Text { text },
            );
        lemma_heard_grows::<SessionStage>(t, replies, n, read, ReplyOf::Text { text });
    }
}

/// How a turn passes on what a session is about.
proof fn lemma_turns_keep_the_order(stage: SessionStageView, reply: ReplyView)
    ensures
        SessionStage::next(stage, reply) matches TurnOf::Go { stage: s, steps } ==> {
            &&& ordered_by(s) is Some ==> ordered_by(stage) == ordered_by(s)
            &&& s matches SessionStageOf::Target { order, pid } ==> !order.as_root && steps
                == no_steps().push(attempt(ActionOf::LoadConfig))
            &&& s matches SessionStageOf::Ids { visit } ==> {
                &&& stage matches SessionStageOf::Target { order, pid } && visit.name == order.name
                    && visit.args == order.args && (reply matches ReplyOf::Config { config }
                    && visit.user == config.user_of(order.name))
                &&& steps == no_steps().push(
                    attempt(ActionOf::ReadText { path: merged_path(visit.name, "etc/passwd"@) }),
                )
            }
        },
{
}

/// How a turn passes on whom a visit is by.
proof fn lemma_turns_keep_the_visit(stage: SessionStageView, reply: ReplyView)
    ensures
        SessionStage::next(stage, reply) matches TurnOf::Go { stage: s, steps } ==> (settled(
            s,
        ) matches Some(visit) ==> match settled(stage) {
            Some(v) => visit == (VisitOf { dir: visit.dir, ..v }),
            None => match stage {
                SessionStageOf::Ids { visit: v } => visit == (VisitOf { ids: visit.ids, ..v })
                    && (reply matches ReplyOf::Text { text } && guest_ids(text, v.user)
                    == visit.ids),
                SessionStageOf::Target { order, pid } => visit.name == order.name && visit.args
                    == order.args && visit.ids is None && (reply matches ReplyOf::Config { config }
                    && visit.user == config.user_of(order.name)),
                _ => ordered_by(stage) matches Some(order) && order.as_root && visit.name
                    == order.name && visit.args == order.args && visit.user == "root"@ && visit.ids
                    is None,
            },
        }),
{
}

/// One reply more keeps what holds.
proof fn lemma_stays_true(order: OrderView, replies: spec_fn(nat) -> ReplyView, n: nat)
    requires
        true_to(order, replies, n),
    ensures
        true_to(order, replies, n + 1),
{
    let t = visit_task(order);
    let now = after_replies::<SessionStage>(t, replies, n);
    let reply = replies(n);
    let then = after_replies::<SessionStage>(t, replies, n + 1);
    assert(then == resumed::<SessionStage>(now, reply));
    if let TaskOf::Active { stage, steps, at } = now {
        SessionStage::next_descends(stage, reply);
        lemma_turns_keep_the_order(stage, reply);
        lemma_turns_keep_the_visit(stage, reply);
        if let Some(visit) = settled(stage) {
            lemma_meant_grows(order, replies, n, visit);
        }
        if let SessionStageOf::Ids { visit } = stage {
            lemma_meant_grows(order, replies, n, visit);
            let read = ActionView::ReadText { path: merged_path(order.name, "etc/passwd"@) };
            lemma_heard_grows::<SessionStage>(t, replies, n, read, reply);
        }
        if stage is Target {
            lemma_heard_grows::<SessionStage>(t, replies, n, ActionOf::LoadConfig, reply);
        }
        if let TaskOf::Active { stage: s, steps: p, at: a } = then {
            if let Some(v) = settled(s) {
                if let Some(visit) = settled(stage) {
                    lemma_same_visit(order, replies, n + 1, visit, v);
                }
            }
        }
    }
}

/// Where a visit was asked for has no say in whom it is by.
proof fn lemma_same_visit(
    order: OrderView,
    replies: spec_fn(nat) -> ReplyView,
    n: nat,
    a: VisitView,
    b: VisitView,
)
    requires
        b == (VisitOf { dir: b.dir, ..a }),
    ensures
        meant(order, replies, n, a) ==> meant(order, replies, n, b),
        numbered(order, replies, n, a) ==> numbered(order, replies, n, b),
{
}

proof fn lemma_always_true(order: OrderView, replies: spec_fn(nat) -> ReplyView, n: nat)
    ensures
        true_to(order, replies, n),
    decreases n,
{
    if n > 0 {
        lemma_always_true(order, replies, (n - 1) as nat);
        lemma_stays_true(order, replies, (n - 1) as nat);
    }
}

/// Whatever the host replies, what takes over in the end is what was ordered, in the
/// distribution and by the user that were meant: the superuser if the order says so,
/// else the user whom the configuration names; and the numbers of that user are those
/// that the guest's own table gives.
pub proof fn law_commands_run_as_ordered(
    order: OrderView,
    replies: spec_fn(nat) -> ReplyView,
    n: nat,
)
    ensures
        after_replies::<SessionStage>(visit_task(order), replies, n) matches TaskOf::Active {
            stage: SessionStageOf::Launch { visit },
            steps,
            at,
        } ==> meant(order, replies, n, visit) && numbered(order, replies, n, visit),
{
    lemma_always_true(order, replies, n);
}

/// Whatever the host replies, a session takes another user or other groups only for a
/// visit by someone else than the superuser; one that was ordered for the superuser
/// never does.
pub proof fn law_root_stays_root(
    order: OrderView,
    replies: spec_fn(nat) -> ReplyView,
    n: nat,
    action: ActionView,
)
    requires
        pending(after_replies::<SessionStage>(visit_task(order), replies, n)) == Some(action),
    ensures
        order.as_root ==> !changes_user(action),
        changes_user(action) ==> match after_replies::<SessionStage>(
            visit_task(order),
            replies,
            n,
        ) {
            TaskOf::Active { stage: SessionStageOf::Drop { visit, host, uid }, steps, at } => {
                visit.user != "root"@ && drops_for(visit, steps)
            },
            _ => false,
        },
{
    lemma_always_safe(visit_task(order), replies, n);
    lemma_always_true(order, replies, n);
}

/// Steps that boot nothing.
pub open spec fn boots_nothing(steps: Seq<StepView>) -> bool {
    forall|i: int| 0 <= i < steps.len() ==> !((#[trigger] steps[i]).action is Boot)
}

/// The steps remember a user and restart the guest.
pub open spec fn restarts(steps: Seq<StepView>, name: Seq<char>) -> bool {
    exists|config: ConfigView, user: Seq<char>|
        steps == #[trigger] restart_steps(config, name, user)
}

/// How a turn comes to a boot.
proof fn lemma_turns_that_boot(stage: SessionStageView, reply: ReplyView)
    ensures
        SessionStage::next(stage, reply) matches TurnOf::Go { stage: s, steps } ==> {
            &&& !(s is Find)
            &&& s matches SessionStageOf::Start { order } ==> stage is Find && reply
                == (ReplyView::Located { found: None }) && steps == no_steps().push(
                must(ActionOf::Boot { name: order.name }),
            )
            &&& s matches SessionStageOf::Restart { order } ==> restarts(steps, order.name)
            &&& s is Start || s is Restart || boots_nothing(steps)
        },
{
    if let SessionStageOf::Enlist { order, account } = stage {
        if let ReplyOf::Config { config } = reply {
            assert(restarts(restart_steps(config, order.name, account.username), order.name));
        }
    }
}

/// What holds after any number of replies: a boot comes only after the init process was
/// looked for in vain, or after the guest was stopped.
spec fn boots_in_order(order: OrderView, replies: spec_fn(nat) -> ReplyView, n: nat) -> bool {
    match after_replies::<SessionStage>(visit_task(order), replies, n) {
        TaskOf::Over { result } => true,
        TaskOf::Active { stage, steps, at } => {
            &&& 0 <= at < steps.len()
            &&& ordered_by(stage) matches Some(o) ==> o == order
            &&& stage is Find ==> n == 0
            &&& stage is Start ==> n > 0 && replies(0) == (ReplyView::Located { found: None })
                && steps == no_steps().push(must(ActionOf::Boot { name: order.name }))
            &&& stage is Restart ==> {
                &&& restarts(steps, order.name)
                &&& at >= 6 ==> granted::<SessionStage>(
                    visit_task(order),
                    replies,
                    n,
                    ActionOf::Stop { name: order.name },
                )
            }
            &&& stage is Start || stage is Restart || boots_nothing(steps)
        },
    }
}

/// The steps of a restart: the stop comes right before the boot, and nothing leaves it
/// out.
proof fn lemma_restart_steps(config: ConfigView, name: Seq<char>, user: Seq<char>)
    ensures
        ({
            let steps = restart_steps(config, name, user);
            &&& steps.len() == 7
            &&& steps[5] == must(ActionOf::Stop { name })
            &&& steps[6] == must(ActionOf::Boot { name })
            &&& forall|i: int| 0 <= i < 6 ==> !((#[trigger] steps[i]).action is Boot) && reach(
                steps[i],
            ) == 0
        }),
{
}

/// One reply more keeps what holds.
proof fn lemma_boots_stay_in_order(order: OrderView, replies: spec_fn(nat) -> ReplyView, n: nat)
    requires
        boots_in_order(order, replies, n),
    ensures
        boots_in_order(order, replies, n + 1),
{
    let t = visit_task(order);
    let now = after_replies::<SessionStage>(t, replies, n);
    let reply = replies(n);
    let then = after_replies::<SessionStage>(t, replies, n + 1);
    assert(then == resumed::<SessionStage>(now, reply));
    if let TaskOf::Active { stage, steps, at } = now {
        SessionStage::next_descends(stage, reply);
        lemma_turns_keep_the_order(stage, reply);
        lemma_turns_that_boot(stage, reply);
        if stage is Find {
            assert(now == t);
        }
        if stage is Restart {
            let (config, user) = choose|config: ConfigView, user: Seq<char>|
                steps == #[trigger] restart_steps(config, order.name, user);
            lemma_restart_steps(config, order.name, user);
            lemma_granted_grows::<SessionStage>(
                t,
                replies,
                n,
                ActionOf::Stop { name: order.name },
            );
        }
    }
}

proof fn lemma_boots_always_in_order(
    order: OrderView,
    replies: spec_fn(nat) -> ReplyView,
    n: nat,
)
    ensures
        boots_in_order(order, replies, n),
    decreases n,
{
    if n > 0 {
        lemma_boots_always_in_order(order, replies, (n - 1) as nat);
        lemma_boots_stay_in_order(order, replies, (n - 1) as nat);
    }
}

/// Whatever the host replies, a session boots only the distribution that it is for, and
/// only if no init process was found at first, or after stopping it to set it up.
pub proof fn law_boots_only_what_does_not_run(
    order: OrderView,
    replies: spec_fn(nat) -> ReplyView,
    n: nat,
    name: Seq<char>,
)
    requires
        pending(after_replies::<SessionStage>(visit_task(order), replies, n)) == Some(
            ActionView::Boot { name },
        ),
    ensures
        name == order.name,
        replies(0) == (ReplyView::Located { found: None }) || granted::<SessionStage>(
            visit_task(order),
            replies,
            n,
            ActionOf::Stop { name },
        ),
{
    lemma_boots_always_in_order(order, replies, n);
    if let TaskOf::Active { stage, steps, at } = after_replies::<SessionStage>(
        visit_task(order),
        replies,
        n,
    ) {
        if stage is Restart {
            let (config, user) = choose|config: ConfigView, user: Seq<char>|
                steps == #[trigger] restart_steps(config, order.name, user);
            lemma_restart_steps(config, order.name, user);
        }
    }
}

/// The directory that a command was asked for in is the one that the host tells
/// before the guest is entered; it is kept, and the command starts in it if it lies
/// below `/home`, else in the user's home.
pub proof fn law_directory_is_kept(stage: SessionStageView, reply: ReplyView)
    ensures
        SessionStage::next(stage, reply) matches TurnOf::Go { stage: s, steps } ==> {
            &&& s matches SessionStageOf::Enter { visit } ==> stage is Here && (reply matches
                ReplyOf::Text { text } ==> visit.dir == text)
            &&& stage is Enter && s is Root ==> settled(s) == settled(stage)
            &&& s is Root ==> stage is Enter
            &&& s is Drop ==> stage is Root && settled(s) == settled(stage)
            &&& s is Surround ==> (stage is Root || stage is Drop) && settled(s) == settled(stage)
            &&& s is Launch ==> stage is Surround && settled(s) == settled(stage) && steps[1].action
                == (ActionView::ChangeDir {
                path: start_dir(stage->Surround_visit.dir, stage->Surround_home),
            }) && steps[2].action is Exec
        },
        SessionStage::next(stage, reply) matches TurnOf::Go { stage: s, steps } ==> (s is Here
            ==> steps.last() == attempt(ActionOf::AskDirectory)),
{
}

/// A command takes over only in the stage that is there for it, and the user of a
/// visit stays entitled from stage to stage.
proof fn lemma_turns_run_nothing(stage: SessionStageView, reply: ReplyView)
    requires
        settled(stage) matches Some(visit) ==> entitled(visit),
    ensures
        SessionStage::next(stage, reply) matches TurnOf::Go { stage: s, steps } ==> {
            &&& s is Launch || runs_nothing(steps)
            &&& s is Drop || keeps_user(steps)
            &&& settled(s) matches Some(visit) ==> entitled(visit)
            &&& s is Launch ==> stage is Surround && settled(s) == settled(stage)
            &&& s is Surround ==> settled(s) == settled(stage) && (stage is Drop || (stage is Root
                && stage->Root_visit.user == "root"@))
            &&& s matches SessionStageOf::Drop { visit, host, uid } ==> drops_for(visit, steps)
        },
{
}

/// The exit code of the command is handed on; a command that was killed counts as
/// failed.
pub proof fn law_exit_code_is_handed_on(code: Option<i32>)
    ensures
        SessionStage::next(SessionStageOf::Wait, ReplyOf::Waited { code }) == giving::<
            SessionStageView,
        >(
            ValueOf::Code {
                code: match code {
                    Some(c) => c,
                    None => 1,
                },
            },
        ),
{
}

/// The place of a variable in the environment of the guest.
spec fn place(name: Seq<char>) -> int {
    if name == "TERM"@ {
        0
    } else if name == "SYSTEMD_LOG_LEVEL"@ {
        1
    } else if name == "SYSTEMD_LOG_TARGET"@ {
        2
    } else if name == "DISPLAY"@ {
        3
    } else if name == "XAUTHORITY"@ {
        4
    } else if name == "WAYLAND_DISPLAY"@ {
        5
    } else if name == "XDG_RUNTIME_DIR"@ {
        6
    } else if name == "PULSE_SERVER"@ {
        7
    } else if name == "HOME"@ {
        8
    } else if name == "USER"@ {
        9
    } else if name == "LOGNAME"@ {
        10
    } else if name == "SHELL"@ {
        11
    } else {
        12
    }
}

/// Variables that stand in order, all before place `k`.
spec fn ordered(s: SettingsView, k: int) -> bool {
    &&& s.names.len() == s.values.len()
    &&& forall|i: int| 0 <= i < s.names.len() ==> place(#[trigger] s.names[i]) < k
    &&& forall|i: int, j: int|
        0 <= i < j < s.names.len() ==> place(#[trigger] s.names[i]) < place(#[trigger] s.names[j])
}

/// A variable that comes next keeps the order.
proof fn lemma_set(s: SettingsView, k: int, name: Seq<char>, value: Seq<char>)
    requires
        ordered(s, k),
        place(name) == k,
    ensures
        ordered(s.set(name, value), k + 1),
{
}

/// The variables that come first: those of the terminal and the screens.
proof fn lemma_front(env: VariablesView, key: Option<Seq<char>>) -> (s: SettingsView)
    ensures
        s == no_settings().set("TERM"@, terminal(env)).set("SYSTEMD_LOG_LEVEL"@, "emerg"@).set(
            "SYSTEMD_LOG_TARGET"@,
            "console"@,
        ).set_some("DISPLAY"@, env.display).set_some("XAUTHORITY"@, key).set_some(
            "WAYLAND_DISPLAY"@,
            env.wayland_display,
        ),
        ordered(s, 6),
        s.has("TERM"@, terminal(env)),
        s.has("SYSTEMD_LOG_LEVEL"@, "emerg"@),
        s.has("SYSTEMD_LOG_TARGET"@, "console"@),
        env.display matches Some(v) ==> s.has("DISPLAY"@, v),
        env.display is None ==> !s.names.contains("DISPLAY"@),
        key matches Some(v) ==> s.has("XAUTHORITY"@, v),
        key is None ==> !s.names.contains("XAUTHORITY"@),
        env.wayland_display matches Some(v) ==> s.has("WAYLAND_DISPLAY"@, v),
        env.wayland_display is None ==> !s.names.contains("WAYLAND_DISPLAY"@),
{
    lemma_places();
    let s0 = no_settings();
    let s1 = s0.set("TERM"@, terminal(env));
    lemma_set(s0, 0, "TERM"@, terminal(env));
    let s2 = s1.set("SYSTEMD_LOG_LEVEL"@, "emerg"@);
    lemma_set(s1, 1, "SYSTEMD_LOG_LEVEL"@, "emerg"@);
    let s3 = s2.set("SYSTEMD_LOG_TARGET"@, "console"@);
    lemma_set(s2, 2, "SYSTEMD_LOG_TARGET"@, "console"@);
    let s4 = s3.set_some("DISPLAY"@, env.display);
    if let Some(v) = env.display {
        lemma_set(s3, 3, "DISPLAY"@, v);
    }
    let s5 = s4.set_some("XAUTHORITY"@, key);
    if let Some(v) = key {
        lemma_set(s4, 4, "XAUTHORITY"@, v);
    }
    let s = s5.set_some("WAYLAND_DISPLAY"@, env.wayland_display);
    if let Some(v) = env.wayland_display {
        lemma_set(s5, 5, "WAYLAND_DISPLAY"@, v);
    }
    assert(s.names[0] == "TERM"@);
    assert(s.names[1] == "SYSTEMD_LOG_LEVEL"@);
    assert(s.names[2] == "SYSTEMD_LOG_TARGET"@);
    let d = s3.names.len() as int;
    let x = s4.names.len() as int;
    let w = s5.names.len() as int;
    assert(env.display is Some ==> s.names[d] == "DISPLAY"@);
    assert(key is Some ==> s.names[x] == "XAUTHORITY"@);
    assert(env.wayland_display is Some ==> s.names[w] == "WAYLAND_DISPLAY"@);
    s
}

/// The variables that come last: those of the sockets and of the user. They leave
/// those before them as they are.
proof fn lemma_back(
    s: SettingsView,
    runtime: Seq<char>,
    sound: Seq<char>,
    home: Seq<char>,
    user: Seq<char>,
    shell: Seq<char>,
    path: Seq<char>,
) -> (t: SettingsView)
    requires
        ordered(s, 6),
    ensures
        t == s.set("XDG_RUNTIME_DIR"@, runtime).set("PULSE_SERVER"@, sound).set("HOME"@, home).set(
            "USER"@,
            user,
        ).set("LOGNAME"@, user).set("SHELL"@, shell).set("PATH"@, path),
        ordered(t, 13),
        t.has("XDG_RUNTIME_DIR"@, runtime),
        t.has("PULSE_SERVER"@, sound),
        t.has("HOME"@, home),
        t.has("USER"@, user),
        t.has("LOGNAME"@, user),
        t.has("SHELL"@, shell),
        t.has("PATH"@, path),
        s.names.len() <= t.names.len(),
        forall|i: int| 0 <= i < s.names.len() ==> #[trigger] t.names[i] == s.names[i],
        forall|i: int| 0 <= i < s.names.len() ==> #[trigger] t.values[i] == s.values[i],
        forall|i: int| s.names.len() <= i < t.names.len() ==> place(#[trigger] t.names[i]) >= 6,
{
    lemma_places();
    let n = s.names.len() as int;
    let s1 = s.set("XDG_RUNTIME_DIR"@, runtime);
    lemma_set(s, 6, "XDG_RUNTIME_DIR"@, runtime);
    let s2 = s1.set("PULSE_SERVER"@, sound);
    lemma_set(s1, 7, "PULSE_SERVER"@, sound);
    let s3 = s2.set("HOME"@, home);
    lemma_set(s2, 8, "HOME"@, home);
    let s4 = s3.set("USER"@, user);
    lemma_set(s3, 9, "USER"@, user);
    let s5 = s4.set("LOGNAME"@, user);
    lemma_set(s4, 10, "LOGNAME"@, user);
    let s6 = s5.set("SHELL"@, shell);
    lemma_set(s5, 11, "SHELL"@, shell);
    let t = s6.set("PATH"@, path);
    lemma_set(s6, 12, "PATH"@, path);
    assert(t.names[n] == "XDG_RUNTIME_DIR"@);
    assert(t.names[n + 1] == "PULSE_SERVER"@);
    assert(t.names[n + 2] == "HOME"@);
    assert(t.names[n + 3] == "USER"@);
    assert(t.names[n + 4] == "LOGNAME"@);
    assert(t.names[n + 5] == "SHELL"@);
    assert(t.names[n + 6] == "PATH"@);
    t
}

/// A variable of the front keeps its value, or its absence, in the whole.
proof fn lemma_carried(s: SettingsView, t: SettingsView, name: Seq<char>, value: Option<Seq<char>>)
    requires
        ordered(s, 6),
        ordered(t, 13),
        s.names.len() <= t.names.len(),
        forall|i: int| 0 <= i < s.names.len() ==> #[trigger] t.names[i] == s.names[i],
        forall|i: int| 0 <= i < s.names.len() ==> #[trigger] t.values[i] == s.values[i],
        forall|i: int| s.names.len() <= i < t.names.len() ==> place(#[trigger] t.names[i]) >= 6,
        place(name) < 6,
        value matches Some(v) ==> s.has(name, v),
        value is None ==> !s.names.contains(name),
    ensures
        value matches Some(v) ==> t.has(name, v),
        value is None ==> !t.names.contains(name),
{
    if let Some(v) = value {
        let i = choose|i: int|
            0 <= i < s.names.len() && i < s.values.len() && #[trigger] s.names[i] == name
                && s.values[i] == v;
        assert(t.names[i] == name && t.values[i] == v);
    } else if t.names.contains(name) {
        let i = choose|i: int| 0 <= i < t.names.len() && t.names[i] == name;
        assert(t.names[i] == name);
        if i < s.names.len() {
            assert(s.names[i] == name);
        }
    }
}

/// The names of the variables are what they seem.
proof fn lemma_places()
    ensures
        place("TERM"@) == 0,
        place("SYSTEMD_LOG_LEVEL"@) == 1,
        place("SYSTEMD_LOG_TARGET"@) == 2,
        place("DISPLAY"@) == 3,
        place("XAUTHORITY"@) == 4,
        place("WAYLAND_DISPLAY"@) == 5,
        place("XDG_RUNTIME_DIR"@) == 6,
        place("PULSE_SERVER"@) == 7,
        place("HOME"@) == 8,
        place("USER"@) == 9,
        place("LOGNAME"@) == 10,
        place("SHELL"@) == 11,
        place("PATH"@) == 12,
{
    reveal_strlit("TERM");
    reveal_strlit("SYSTEMD_LOG_LEVEL");
    reveal_strlit("SYSTEMD_LOG_TARGET");
    reveal_strlit("DISPLAY");
    reveal_strlit("XAUTHORITY");
    reveal_strlit("WAYLAND_DISPLAY");
    reveal_strlit("XDG_RUNTIME_DIR");
    reveal_strlit("PULSE_SERVER");
    reveal_strlit("HOME");
    reveal_strlit("USER");
    reveal_strlit("LOGNAME");
    reveal_strlit("SHELL");
    reveal_strlit("PATH");
    assert("TERM"@.len() == 4);
    assert("SYSTEMD_LOG_LEVEL"@.len() == 17);
    assert("SYSTEMD_LOG_TARGET"@.len() == 18);
    assert("DISPLAY"@.len() == 7);
    assert("XAUTHORITY"@.len() == 10);
    assert("WAYLAND_DISPLAY"@.len() == 15);
    assert("XDG_RUNTIME_DIR"@.len() == 15);
    assert("PULSE_SERVER"@.len() == 12);
    assert("HOME"@.len() == 4);
    assert("USER"@.len() == 4);
    assert("LOGNAME"@.len() == 7);
    assert("SHELL"@.len() == 5);
    assert("PATH"@.len() == 4);
    assert("TERM"@[0] == 'T' && "HOME"@[0] == 'H' && "USER"@[0] == 'U' && "PATH"@[0] == 'P');
    assert("DISPLAY"@[0] == 'D' && "LOGNAME"@[0] == 'L');
    assert("WAYLAND_DISPLAY"@[0] == 'W' && "XDG_RUNTIME_DIR"@[0] == 'X');
}

/// A command in the guest sees each variable once. The host's screens and sound
/// are passed on to it, as far as the host has them, and it is told who it runs as.
pub proof fn law_guest_environment(
    env: VariablesView,
    host: Seq<char>,
    uid: u32,
    user: Seq<char>,
    home: Seq<char>,
    shell: Seq<char>,
)
    ensures
        ({
            let s = guest_settings(env, host, uid, user, home, shell);
            &&& s.names.len() == s.values.len()
            &&& s.names.no_duplicates()
            &&& env.term matches Some(v) ==> s.has("TERM"@, v)
            &&& env.term is None ==> s.has("TERM"@, "xterm-256color"@)
            &&& s.has("SYSTEMD_LOG_LEVEL"@, "emerg"@)
            &&& s.has("SYSTEMD_LOG_TARGET"@, "console"@)
            &&& env.display matches Some(v) ==> s.has("DISPLAY"@, v)
            &&& env.display is None ==> !s.names.contains("DISPLAY"@)
            &&& env.xauthority matches Some(v) ==> s.has("XAUTHORITY"@, v)
            &&& env.xauthority is None && host != "root"@ ==> s.has(
                "XAUTHORITY"@,
                "/home/"@ + host + "/.Xauthority"@,
            )
            &&& env.xauthority is None && host == "root"@ ==> !s.names.contains("XAUTHORITY"@)
            &&& env.wayland_display matches Some(v) ==> s.has("WAYLAND_DISPLAY"@, v)
            &&& env.wayland_display is None ==> !s.names.contains("WAYLAND_DISPLAY"@)
            &&& s.has("XDG_RUNTIME_DIR"@, "/run/user/"@ + decimal(uid as nat))
            &&& s.has(
                "PULSE_SERVER"@,
                "unix:/run/user/"@ + decimal(uid as nat) + "/pulse/native"@,
            )
            &&& s.has("HOME"@, home)
            &&& s.has("USER"@, user)
            &&& s.has("LOGNAME"@, user)
            &&& s.has("SHELL"@, shell)
            &&& s.has("PATH"@, GUEST_PATH@)
        }),
{
    lemma_places();
    let key = screen_key(env, host);
    let runtime = "/run/user/"@ + decimal(uid as nat);
    let sound = "unix:/run/user/"@ + decimal(uid as nat) + "/pulse/native"@;
    let s = lemma_front(env, key);
    let t = lemma_back(s, runtime, sound, home, user, shell, GUEST_PATH@);
    assert(t == guest_settings(env, host, uid, user, home, shell));
    lemma_carried(s, t, "TERM"@, Some(terminal(env)));
    lemma_carried(s, t, "SYSTEMD_LOG_LEVEL"@, Some("emerg"@));
    lemma_carried(s, t, "SYSTEMD_LOG_TARGET"@, Some("console"@));
    lemma_carried(s, t, "DISPLAY"@, env.display);
    lemma_carried(s, t, "XAUTHORITY"@, key);
    lemma_carried(s, t, "WAYLAND_DISPLAY"@, env.wayland_display);
    assert forall|i: int, j: int|
        0 <= i < t.names.len() && 0 <= j < t.names.len() && i != j implies t.names[i]
        != t.names[j] by {
        if i < j {
            assert(place(t.names[i]) < place(t.names[j]));
        } else {
            assert(place(t.names[j]) < place(t.names[i]));
        }
    }
}

/// The login hook is written when, and only when, it is not in place already; after
/// it was written it is in place.
pub proof fn law_hook_is_kept_current(visit: VisitView, reply: ReplyView)
    ensures
        SessionStage::next(SessionStageOf::Hook { visit }, ReplyOf::Text { text: HOOK_SCRIPT@ })
            == binary_turn(visit, no_steps()),
        reply != (ReplyView::Text { text: HOOK_SCRIPT@ }) ==> SessionStage::next(
            SessionStageOf::Hook { visit },
            reply,
        ) == (TurnView::<SessionStageView>::Go {
            stage: SessionStageOf::WriteHook { visit },
            steps: no_steps().push(
                attempt(
                    ActionOf::WriteText { path: hook_file(visit.name), text: HOOK_SCRIPT@ },
                ),
            ),
        }),
{
}

/// A reply to an action is among the first `n` of a session.
pub open spec fn told(
    order: OrderView,
    replies: spec_fn(nat) -> ReplyView,
    n: nat,
    action: ActionView,
    reply: ReplyView,
) -> bool {
    heard::<SessionStage>(visit_task(order), replies, n, action, reply)
}

/// The number of the distribution's init process, as it was found or as the boot told it.
pub open spec fn is_init(
    order: OrderView,
    replies: spec_fn(nat) -> ReplyView,
    n: nat,
    pid: u32,
) -> bool {
    ||| told(
        order,
        replies,
        n,
        ActionOf::FindPid { name: order.name },
        ReplyOf::Located { found: Some(pid) },
    )
    ||| told(order, replies, n, ActionOf::Boot { name: order.name }, ReplyOf::Booted { pid })
}

/// The account that the interview about the distribution came to.
pub open spec fn is_account(
    order: OrderView,
    replies: spec_fn(nat) -> ReplyView,
    n: nat,
    account: AccountView,
) -> bool {
    told(
        order,
        replies,
        n,
        ActionOf::Interview { name: order.name },
        ReplyOf::Account { account },
    )
}

/// The directory that the session was asked for in, and the root if there is none.
pub open spec fn is_dir(
    order: OrderView,
    replies: spec_fn(nat) -> ReplyView,
    n: nat,
    dir: Seq<char>,
) -> bool {
    exists|reply: ReplyView| #[trigger]
        told(order, replies, n, ActionOf::AskDirectory, reply) && match reply {
            ReplyOf::Text { text } => dir == text,
            _ => dir == "/"@,
        }
}

/// The user of the host who runs the program, and that user's numbers.
pub open spec fn is_host(
    order: OrderView,
    replies: spec_fn(nat) -> ReplyView,
    n: nat,
    name: Seq<char>,
    uid: u32,
    gid: u32,
) -> bool {
    told(order, replies, n, ActionOf::AskUser, ReplyOf::User { name, uid, gid })
}

/// The home and the shell that the guest's own table gives to the user.
pub open spec fn is_home(
    order: OrderView,
    replies: spec_fn(nat) -> ReplyView,
    n: nat,
    user: Seq<char>,
    home: Seq<char>,
    shell: Seq<char>,
) -> bool {
    if user == "root"@ {
        home == "/root"@ && shell == "/bin/bash"@
    } else {
        exists|reply: ReplyView| #[trigger]
            told(order, replies, n, ActionOf::ReadText { path: "/etc/passwd"@ }, reply)
                && match reply {
                ReplyOf::Text { text } => dwells(text, user, home, shell),
                _ => home == "/root"@ && shell == "/bin/bash"@,
            }
    }
}

/// The time zone of the host.
pub open spec fn is_zone(
    order: OrderView,
    replies: spec_fn(nat) -> ReplyView,
    n: nat,
    zone: Seq<char>,
) -> bool {
    exists|reply: ReplyView| #[trigger]
        told(order, replies, n, ActionOf::ReadText { path: "/etc/timezone"@ }, reply)
            && match reply {
            ReplyOf::Text { text } => zone == trimmed(text),
            _ => zone == "UTC"@,
        }
}

/// What was told stays told.
proof fn lemma_told_grows(order: OrderView, replies: spec_fn(nat) -> ReplyView, n: nat)
    ensures
        forall|action: ActionView, reply: ReplyView|
            told(order, replies, n, action, reply) ==> #[trigger] told(
                order,
                replies,
                n + 1,
                action,
                reply,
            ),
        forall|action: ActionView| #[trigger]
            told(order, replies, n + 1, action, replies(n)) || pending(
                after_replies::<SessionStage>(visit_task(order), replies, n),
            ) != Some(action),
{
    assert forall|action: ActionView, reply: ReplyView|
        told(order, replies, n, action, reply) implies #[trigger] told(
        order,
        replies,
        n + 1,
        action,
        reply,
    ) by {
        lemma_heard_grows::<SessionStage>(visit_task(order), replies, n, action, reply);
    }
    assert forall|action: ActionView| #[trigger]
        told(order, replies, n + 1, action, replies(n)) || pending(
            after_replies::<SessionStage>(visit_task(order), replies, n),
        ) != Some(action) by {
        lemma_heard_grows::<SessionStage>(visit_task(order), replies, n, action, replies(n));
    }
}

/// What was found out stays known.
proof fn lemma_known_grows(order: OrderView, replies: spec_fn(nat) -> ReplyView, n: nat)
    ensures
        forall|pid: u32|
            is_init(order, replies, n, pid) ==> #[trigger] is_init(order, replies, n + 1, pid),
        forall|account: AccountView|
            is_account(order, replies, n, account) ==> #[trigger] is_account(
                order,
                replies,
                n + 1,
                account,
            ),
        forall|dir: Seq<char>|
            is_dir(order, replies, n, dir) ==> #[trigger] is_dir(order, replies, n + 1, dir),
        forall|name: Seq<char>, uid: u32, gid: u32|
            is_host(order, replies, n, name, uid, gid) ==> #[trigger] is_host(
                order,
                replies,
                n + 1,
                name,
                uid,
                gid,
            ),
        forall|user: Seq<char>, home: Seq<char>, shell: Seq<char>|
            is_home(order, replies, n, user, home, shell) ==> #[trigger] is_home(
                order,
                replies,
                n + 1,
                user,
                home,
                shell,
            ),
        forall|zone: Seq<char>|
            is_zone(order, replies, n, zone) ==> #[trigger] is_zone(order, replies, n + 1, zone),
{
    lemma_told_grows(order, replies, n);
    assert forall|dir: Seq<char>| is_dir(order, replies, n, dir) implies #[trigger] is_dir(
        order,
        replies,
        n + 1,
        dir,
    ) by {
        let reply = choose|reply: ReplyView| #[trigger]
            told(order, replies, n, ActionOf::AskDirectory, reply) && match reply {
                ReplyOf::Text { text } => dir == text,
                _ => dir == "/"@,
            };
        assert(told(order, replies, n + 1, ActionOf::AskDirectory, reply));
    }
    assert forall|user: Seq<char>, home: Seq<char>, shell: Seq<char>|
        is_home(order, replies, n, user, home, shell) implies #[trigger] is_home(
        order,
        replies,
        n + 1,
        user,
        home,
        shell,
    ) by {
        let read = ActionView::ReadText { path: "/etc/passwd"@ };
        if user != "root"@ {
            let reply = choose|reply: ReplyView| #[trigger]
                told(order, replies, n, read, reply) && match reply {
                    ReplyOf::Text { text } => dwells(text, user, home, shell),
                    _ => home == "/root"@ && shell == "/bin/bash"@,
                };
            assert(told(order, replies, n + 1, read, reply));
        }
    }
    assert forall|zone: Seq<char>| is_zone(order, replies, n, zone) implies #[trigger] is_zone(
        order,
        replies,
        n + 1,
        zone,
    ) by {
        let read = ActionView::ReadText { path: "/etc/timezone"@ };
        let reply = choose|reply: ReplyView| #[trigger]
            told(order, replies, n, read, reply) && match reply {
                ReplyOf::Text { text } => zone == trimmed(text),
                _ => zone == "UTC"@,
            };
        assert(told(order, replies, n + 1, read, reply));
    }
}

/// The action whose reply a stage goes on with.
spec fn awaited(stage: SessionStageView) -> Option<ActionView> {
    match stage {
        SessionStageOf::Find { order } => Some(ActionOf::FindPid { name: order.name }),
        SessionStageOf::Start { order } => Some(ActionOf::Boot { name: order.name }),
        SessionStageOf::Ask { order, pid } => Some(ActionOf::Interview { name: order.name }),
        SessionStageOf::Zone { order, pid, account } => Some(
            ActionOf::ReadText { path: "/etc/timezone"@ },
        ),
        SessionStageOf::Equip { order, pid, account } => Some(ActionOf::AskUser),
        SessionStageOf::Enlist { order, account } => Some(ActionOf::LoadConfig),
        SessionStageOf::Restart { order } => Some(ActionOf::Boot { name: order.name }),
        SessionStageOf::Here { visit } => Some(ActionOf::AskDirectory),
        SessionStageOf::Root { visit } => Some(ActionOf::AskUser),
        SessionStageOf::Drop { visit, host, uid } => Some(
            ActionOf::ReadText { path: "/etc/passwd"@ },
        ),
        SessionStageOf::Surround { visit, host, uid, home, shell } => Some(ActionOf::AskVariables),
        _ => None,
    }
}

/// Steps none of which leaves out another.
spec fn leaves_out_nothing(steps: Seq<StepView>) -> bool {
    forall|i: int| 0 <= i < steps.len() ==> reach(#[trigger] steps[i]) == 0
}

/// The init process that a stage is about.
spec fn init_in(stage: SessionStageView) -> Option<u32> {
    match stage {
        SessionStageOf::Check { order, pid } => Some(pid),
        SessionStageOf::Flag { order, pid } => Some(pid),
        SessionStageOf::Ask { order, pid } => Some(pid),
        SessionStageOf::Zone { order, pid, account } => Some(pid),
        SessionStageOf::Equip { order, pid, account } => Some(pid),
        SessionStageOf::Target { order, pid } => Some(pid),
        SessionStageOf::Ids { visit } => Some(visit.pid),
        _ => match settled(stage) {
            Some(visit) => Some(visit.pid),
            None => None,
        },
    }
}

/// The account that a stage is about.
spec fn account_in(stage: SessionStageView) -> Option<AccountView> {
    match stage {
        SessionStageOf::Zone { order, pid, account } => Some(account),
        SessionStageOf::Equip { order, pid, account } => Some(account),
        SessionStageOf::Enlist { order, account } => Some(account),
        _ => None,
    }
}

/// An action that reaches into a guest reaches into the one whose init process is `pid`:
/// a program is run in it, or one of its namespaces is opened, each as what it is.
pub open spec fn reaches(action: ActionView, pid: u32) -> bool {
    match action {
        ActionOf::InGuest { pid: p, args } => p == pid,
        ActionOf::OpenNamespace { kind, path } => path == "/proc/"@ + decimal(pid as nat) + "/ns/"@
            + match kind {
            Namespace::User => "user"@,
            Namespace::Mnt => "mnt"@,
            Namespace::Uts => "uts"@,
            Namespace::Ipc => "ipc"@,
            Namespace::Net => "net"@,
            Namespace::Pid => "pid"@,
        },
        _ => true,
    }
}

/// Steps that reach into no other guest.
spec fn all_reach(steps: Seq<StepView>, pid: u32) -> bool {
    forall|i: int| 0 <= i < steps.len() ==> reaches((#[trigger] steps[i]).action, pid)
}

/// Steps that reach into a guest only if its init process is that of the distribution.
spec fn reach_home(
    order: OrderView,
    replies: spec_fn(nat) -> ReplyView,
    n: nat,
    steps: Seq<StepView>,
) -> bool {
    exists|pid: u32| #[trigger]
        all_reach(steps, pid) && (is_init(order, replies, n, pid) || forall|p: u32|
            all_reach(steps, p))
}

/// The steps equip the guest with what the account asks for, in the host's time zone.
pub open spec fn equips(
    order: OrderView,
    replies: spec_fn(nat) -> ReplyView,
    n: nat,
    steps: Seq<StepView>,
    account: AccountView,
) -> bool {
    exists|pid: u32, zone: Seq<char>|
        is_init(order, replies, n, pid) && is_zone(order, replies, n, zone) && steps
            == #[trigger] equip_steps(pid, zone, account.packages, account.username)
}

/// The steps make the account's user in the guest, with the numbers of the host's user.
pub open spec fn enlists(
    order: OrderView,
    replies: spec_fn(nat) -> ReplyView,
    n: nat,
    steps: Seq<StepView>,
    account: AccountView,
) -> bool {
    exists|pid: u32, host: Seq<char>, uid: u32, gid: u32|
        is_init(order, replies, n, pid) && #[trigger] is_host(order, replies, n, host, uid, gid)
            && steps == #[trigger] enlist_steps(pid, account, uid, gid)
}

/// The steps remember the account's user in the configuration that was loaded, mark the
/// guest as set up and restart it.
pub open spec fn remembers(
    order: OrderView,
    replies: spec_fn(nat) -> ReplyView,
    n: nat,
    steps: Seq<StepView>,
) -> bool {
    exists|config: ConfigView, account: AccountView|
        told(order, replies, n, ActionOf::LoadConfig, ReplyOf::Config { config }) && is_account(
            order,
            replies,
            n,
            account,
        ) && steps == #[trigger] restart_steps(config, order.name, account.username)
}

/// The three steps by which something takes over in a guest for a user: they set the
/// environment, go to the directory and start the command.
pub open spec fn launches(
    order: OrderView,
    replies: spec_fn(nat) -> ReplyView,
    n: nat,
    user: Seq<char>,
    steps: Seq<StepView>,
    home: Seq<char>,
    shell: Seq<char>,
) -> bool {
    &&& is_home(order, replies, n, user, home, shell)
    &&& steps.len() == 3
    &&& starts_with_settings(order, replies, n, user, steps[0].action, home, shell)
    &&& steps[1].action matches ActionOf::ChangeDir { path } && exists|dir: Seq<char>| #[trigger]
        is_dir(order, replies, n, dir) && path == if under_home(dir) {
            dir
        } else {
            home
        }
    &&& steps[2].action matches ActionOf::Exec { args } && (if order.args.len() > 0 {
        args == order.args
    } else {
        args == no_words().push(shell).push("--login"@)
    })
}

/// The action sets the environment of the guest, made from the variables and the user of
/// the host, for the user in the guest.
pub open spec fn starts_with_settings(
    order: OrderView,
    replies: spec_fn(nat) -> ReplyView,
    n: nat,
    user: Seq<char>,
    action: ActionView,
    home: Seq<char>,
    shell: Seq<char>,
) -> bool {
    action matches ActionOf::ReplaceVariables { names, values } && exists|
        env: VariablesView,
        host: Seq<char>,
        uid: u32,
        gid: u32,
    |
        told(order, replies, n, ActionOf::AskVariables, ReplyOf::Variables { env })
            && #[trigger] is_host(order, replies, n, host, uid, gid) && (SettingsOf {
            names,
            values,
        }) == #[trigger] guest_settings(env, host, uid, user, home, shell)
}

/// The user of the host who runs the program, and that user's number.
spec fn has_host(
    order: OrderView,
    replies: spec_fn(nat) -> ReplyView,
    n: nat,
    name: Seq<char>,
    uid: u32,
) -> bool {
    exists|gid: u32| #[trigger] is_host(order, replies, n, name, uid, gid)
}

/// What a session knows after any number of replies is what it was told.
spec fn informed(order: OrderView, replies: spec_fn(nat) -> ReplyView, n: nat) -> bool {
    match after_replies::<SessionStage>(visit_task(order), replies, n) {
        TaskOf::Over { result } => true,
        TaskOf::Active { stage, steps, at } => {
            &&& 0 <= at < steps.len()
            &&& leaves_out_nothing(steps)
            &&& awaited(stage) matches Some(action) ==> steps.last().action == action
            &&& reach_home(order, replies, n, steps)
            &&& informed_stage(order, replies, n, stage, steps)
        },
    }
}

/// What is known in a stage.
spec fn informed_stage(
    order: OrderView,
    replies: spec_fn(nat) -> ReplyView,
    n: nat,
    stage: SessionStageView,
    steps: Seq<StepView>,
) -> bool {
    &&& init_in(stage) matches Some(pid) ==> is_init(order, replies, n, pid)
    &&& account_in(stage) matches Some(account) ==> is_account(order, replies, n, account)
    &&& match stage {
        SessionStageOf::Zone { order: o, pid, account } => steps == identity_steps(
            order.name,
            account.hostname,
        ),
        SessionStageOf::Equip { order: o, pid, account } => equips(
            order,
            replies,
            n,
            steps,
            account,
        ),
        SessionStageOf::Enlist { order: o, account } => enlists(order, replies, n, steps, account),
        SessionStageOf::Restart { order: o } => remembers(order, replies, n, steps),
        SessionStageOf::Enter { visit } => is_dir(order, replies, n, visit.dir),
        SessionStageOf::Root { visit } => is_dir(order, replies, n, visit.dir),
        SessionStageOf::Drop { visit, host, uid } => {
            &&& is_dir(order, replies, n, visit.dir)
            &&& has_host(order, replies, n, host, uid)
        },
        SessionStageOf::Surround { visit, host, uid, home, shell } => {
            &&& is_dir(order, replies, n, visit.dir)
            &&& has_host(order, replies, n, host, uid)
            &&& is_home(order, replies, n, visit.user, home, shell)
        },
        SessionStageOf::Launch { visit } => exists|home: Seq<char>, shell: Seq<char>| #[trigger]
            launches(order, replies, n, visit.user, steps, home, shell),
        _ => true,
    }
}

/// What is known in a stage stays known.
proof fn lemma_informed_grows(
    order: OrderView,
    replies: spec_fn(nat) -> ReplyView,
    n: nat,
    stage: SessionStageView,
    steps: Seq<StepView>,
)
    requires
        informed_stage(order, replies, n, stage, steps),
        reach_home(order, replies, n, steps),
    ensures
        informed_stage(order, replies, n + 1, stage, steps),
        reach_home(order, replies, n + 1, steps),
{
    lemma_told_grows(order, replies, n);
    lemma_known_grows(order, replies, n);
    let p = choose|pid: u32| #[trigger]
        all_reach(steps, pid) && (is_init(order, replies, n, pid) || forall|p: u32|
            all_reach(steps, p));
    assert(all_reach(steps, p) && (is_init(order, replies, n + 1, p) || forall|q: u32|
        all_reach(steps, q)));
    match stage {
        SessionStageOf::Equip { order: o, pid, account } => {
            let (pid, zone) = choose|pid: u32, zone: Seq<char>|
                is_init(order, replies, n, pid) && is_zone(order, replies, n, zone) && steps
                    == #[trigger] equip_steps(pid, zone, account.packages, account.username);
            assert(is_init(order, replies, n + 1, pid) && is_zone(order, replies, n + 1, zone)
                && steps == equip_steps(pid, zone, account.packages, account.username));
        },
        SessionStageOf::Enlist { order: o, account } => {
            let (pid, host, uid, gid) = choose|pid: u32, host: Seq<char>, uid: u32, gid: u32|
                is_init(order, replies, n, pid) && #[trigger] is_host(
                    order,
                    replies,
                    n,
                    host,
                    uid,
                    gid,
                ) && steps == #[trigger] enlist_steps(pid, account, uid, gid);
            assert(is_init(order, replies, n + 1, pid) && is_host(
                order,
                replies,
                n + 1,
                host,
                uid,
                gid,
            ) && steps == enlist_steps(pid, account, uid, gid));
        },
        SessionStageOf::Restart { order: o } => {
            let (config, account) = choose|config: ConfigView, account: AccountView|
                told(order, replies, n, ActionOf::LoadConfig, ReplyOf::Config { config })
                    && is_account(order, replies, n, account) && steps == #[trigger] restart_steps(
                    config,
                    order.name,
                    account.username,
                );
            assert(told(order, replies, n + 1, ActionOf::LoadConfig, ReplyOf::Config { config }));
            assert(is_account(order, replies, n + 1, account));
        },
        SessionStageOf::Drop { visit, host, uid } => {
            let gid = choose|gid: u32| #[trigger] is_host(order, replies, n, host, uid, gid);
            assert(is_host(order, replies, n + 1, host, uid, gid));
        },
        SessionStageOf::Surround { visit, host, uid, home, shell } => {
            let gid = choose|gid: u32| #[trigger] is_host(order, replies, n, host, uid, gid);
            assert(is_host(order, replies, n + 1, host, uid, gid));
        },
        SessionStageOf::Launch { visit } => {
            let (home, shell) = choose|home: Seq<char>, shell: Seq<char>| #[trigger]
                launches(order, replies, n, visit.user, steps, home, shell);
            lemma_launches_grows(order, replies, n, visit.user, steps, home, shell);
        },
        _ => {},
    }
}

proof fn lemma_launches_grows(
    order: OrderView,
    replies: spec_fn(nat) -> ReplyView,
    n: nat,
    user: Seq<char>,
    steps: Seq<StepView>,
    home: Seq<char>,
    shell: Seq<char>,
)
    requires
        launches(order, replies, n, user, steps, home, shell),
    ensures
        launches(order, replies, n + 1, user, steps, home, shell),
{
    lemma_told_grows(order, replies, n);
    lemma_known_grows(order, replies, n);
    if let ActionOf::ReplaceVariables { names, values } = steps[0].action {
        let (env, host, uid, gid) = choose|
            env: VariablesView,
            host: Seq<char>,
            uid: u32,
            gid: u32,
        |
            told(order, replies, n, ActionOf::AskVariables, ReplyOf::Variables { env })
                && #[trigger] is_host(order, replies, n, host, uid, gid) && (SettingsOf {
                names,
                values,
            }) == #[trigger] guest_settings(env, host, uid, user, home, shell);
        assert(told(order, replies, n + 1, ActionOf::AskVariables, ReplyOf::Variables { env })
            && is_host(order, replies, n + 1, host, uid, gid) && (SettingsOf { names, values })
            == guest_settings(env, host, uid, user, home, shell));
    }
    if let ActionOf::ChangeDir { path } = steps[1].action {
        let dir = choose|dir: Seq<char>| #[trigger]
            is_dir(order, replies, n, dir) && path == if under_home(dir) {
                dir
            } else {
                home
            };
        assert(is_dir(order, replies, n + 1, dir));
    }
}

/// What a turn awaits, and that it leaves out nothing.
proof fn lemma_turns_await(stage: SessionStageView, reply: ReplyView)
    ensures
        SessionStage::next(stage, reply) matches TurnOf::Go { stage: s, steps } ==> {
            &&& steps.len() > 0
            &&& leaves_out_nothing(steps)
            &&& awaited(s) matches Some(action) ==> steps.last().action == action
        },
        forall|fault: FaultView, clean: bool|
            #[trigger] SessionStage::halted(stage, fault, clean) matches TurnOf::Go {
                stage: s,
                steps,
            } ==> {
                &&& steps.len() > 0
                &&& leaves_out_nothing(steps)
                &&& s is Fail
                &&& forall|p: u32| all_reach(steps, p)
            },
{
}

/// Into which guest a turn reaches.
proof fn lemma_turns_reach(stage: SessionStageView, reply: ReplyView)
    ensures
        SessionStage::next(stage, reply) matches TurnOf::Go { stage: s, steps } ==> {
            ||| forall|p: u32| all_reach(steps, p)
            ||| init_in(stage) matches Some(pid) && all_reach(steps, pid)
        },
{
    if let TurnOf::Go { stage: s, steps } = SessionStage::next(stage, reply) {
        match stage {
            SessionStageOf::Zone { order, pid, account } => {
                assert(all_reach(steps, pid));
            },
            SessionStageOf::Equip { order, pid, account } => {
                assert(all_reach(steps, pid));
            },
            SessionStageOf::Binary { visit } => {
                assert(all_reach(steps, visit.pid));
            },
            SessionStageOf::Here { visit } => {
                assert(all_reach(steps, visit.pid));
            },
            _ => {
                assert(forall|p: u32| all_reach(steps, p));
            },
        }
    }
}

/// What a turn passes on of what is known.
proof fn lemma_turns_inform(stage: SessionStageView, reply: ReplyView)
    ensures
        SessionStage::next(stage, reply) matches TurnOf::Go { stage: s, steps } ==> {
            &&& init_in(s) matches Some(pid) ==> {
                ||| init_in(stage) == Some(pid)
                ||| stage is Find && reply == (ReplyView::Located { found: Some(pid) })
                ||| (stage is Start || stage is Restart) && reply == (ReplyView::Booted { pid })
            }
            &&& account_in(s) matches Some(account) ==> {
                ||| account_in(stage) == Some(account)
                ||| stage is Ask && reply == (ReplyView::Account { account })
            }
            &&& s is Equip ==> stage is Zone
            &&& s is Enlist ==> stage is Equip
            &&& s is Restart ==> stage is Enlist
            &&& s is Enter ==> stage is Here
            &&& s is Root ==> stage is Enter && settled(s) == settled(stage)
            &&& s is Drop ==> stage is Root && settled(s) == settled(stage)
            &&& s is Surround ==> (stage is Drop || stage is Root && stage->Root_visit.user
                == "root"@) && settled(s) == settled(stage)
            &&& s is Launch ==> stage is Surround && settled(s) == settled(stage)
        },
{
}

/// One reply more keeps what is known true.
proof fn lemma_stays_informed(order: OrderView, replies: spec_fn(nat) -> ReplyView, n: nat)
    requires
        informed(order, replies, n),
        true_to(order, replies, n),
        safe(visit_task(order), replies, n),
    ensures
        informed(order, replies, n + 1),
{
    let t = visit_task(order);
    let now = after_replies::<SessionStage>(t, replies, n);
    let reply = replies(n);
    let then = after_replies::<SessionStage>(t, replies, n + 1);
    assert(then == resumed::<SessionStage>(now, reply));
    if let TaskOf::Active { stage, steps, at } = now {
        lemma_told_grows(order, replies, n);
        lemma_known_grows(order, replies, n);
        lemma_informed_grows(order, replies, n, stage, steps);
        lemma_turns_await(stage, reply);
        lemma_turns_reach(stage, reply);
        lemma_turns_inform(stage, reply);
        assert(reach(steps[at]) == 0);
        if let TaskOf::Active { stage: s, steps: p, at: a } = then {
            if s is Fail {
                if forall|pid: u32| all_reach(p, pid) {
                    assert(all_reach(p, 0));
                }
            } else if at == steps.len() - 1 {
                lemma_next_is_informed(order, replies, n, stage, steps, s, p);
            }
        }
    }
}

/// A turn leads from a stage, whose last action was replied to, to another.
spec fn turns_to(
    order: OrderView,
    replies: spec_fn(nat) -> ReplyView,
    n: nat,
    stage: SessionStageView,
    steps: Seq<StepView>,
    s: SessionStageView,
    p: Seq<StepView>,
) -> bool {
    &&& informed(order, replies, n)
    &&& true_to(order, replies, n)
    &&& safe(visit_task(order), replies, n)
    &&& after_replies::<SessionStage>(visit_task(order), replies, n) == (TaskView::<
        SessionStageView,
    >::Active { stage, steps, at: steps.len() - 1 })
    &&& SessionStage::next(stage, replies(n)) == (TurnView::<SessionStageView>::Go {
        stage: s,
        steps: p,
    })
}

/// The stage that a turn leads to is about an init process, and an account, that are known,
/// and reaches into no other guest.
proof fn lemma_next_is_about_the_guest(
    order: OrderView,
    replies: spec_fn(nat) -> ReplyView,
    n: nat,
    stage: SessionStageView,
    steps: Seq<StepView>,
    s: SessionStageView,
    p: Seq<StepView>,
)
    requires
        turns_to(order, replies, n, stage, steps, s, p),
    ensures
        init_in(s) matches Some(pid) ==> is_init(order, replies, n + 1, pid),
        account_in(s) matches Some(account) ==> is_account(order, replies, n + 1, account),
        reach_home(order, replies, n + 1, p),
        awaited(stage) matches Some(action) ==> told(order, replies, n + 1, action, replies(n)),
        informed_stage(order, replies, n + 1, stage, steps),
{
    let reply = replies(n);
    lemma_told_grows(order, replies, n);
    lemma_known_grows(order, replies, n);
    lemma_informed_grows(order, replies, n, stage, steps);
    lemma_turns_reach(stage, reply);
    lemma_turns_inform(stage, reply);
    if let Some(action) = awaited(stage) {
        assert(told(order, replies, n + 1, action, reply));
    }
    if let Some(pid) = init_in(stage) {
        assert(is_init(order, replies, n + 1, pid));
        if all_reach(p, pid) {
            assert(reach_home(order, replies, n + 1, p));
        }
    }
    if forall|q: u32| all_reach(p, q) {
        assert(all_reach(p, 0));
        assert(reach_home(order, replies, n + 1, p));
    }
}

/// What is known after a turn of the setup.
proof fn lemma_setup_is_informed(
    order: OrderView,
    replies: spec_fn(nat) -> ReplyView,
    n: nat,
    stage: SessionStageView,
    steps: Seq<StepView>,
    s: SessionStageView,
    p: Seq<StepView>,
)
    requires
        turns_to(order, replies, n, stage, steps, s, p),
        stage is Zone || stage is Equip || stage is Enlist,
    ensures
        informed_stage(order, replies, n + 1, s, p),
{
    let reply = replies(n);
    lemma_next_is_about_the_guest(order, replies, n, stage, steps, s, p);
    match stage {
        SessionStageOf::Zone { order: o, pid, account } => {
            let zone = match reply {
                ReplyOf::Text { text } => zone_of(Some(text)),
                _ => zone_of(None),
            };
            assert(is_zone(order, replies, n + 1, zone));
            assert(p == equip_steps(pid, zone, account.packages, account.username));
            assert(equips(order, replies, n + 1, p, account));
        },
        SessionStageOf::Equip { order: o, pid, account } => {
            if let ReplyOf::User { name, uid, gid } = reply {
                assert(is_host(order, replies, n + 1, name, uid, gid));
                assert(p == enlist_steps(pid, account, uid, gid));
                assert(enlists(order, replies, n + 1, p, account));
            }
        },
        SessionStageOf::Enlist { order: o, account } => {
            if let ReplyOf::Config { config } = reply {
                assert(p == restart_steps(config, order.name, account.username));
                assert(remembers(order, replies, n + 1, p));
            }
        },
        _ => {},
    }
}

/// What is known of the superuser in the guest.
proof fn lemma_informed_surround(
    order: OrderView,
    replies: spec_fn(nat) -> ReplyView,
    n: nat,
    visit: VisitView,
    host: Seq<char>,
    uid: u32,
    gid: u32,
    p: Seq<StepView>,
)
    requires
        visit.user == "root"@,
        is_init(order, replies, n, visit.pid),
        is_dir(order, replies, n, visit.dir),
        is_host(order, replies, n, host, uid, gid),
    ensures
        informed_stage(
            order,
            replies,
            n,
            SessionStageOf::Surround {
                visit,
                host,
                uid,
                home: "/root"@,
                shell: "/bin/bash"@,
            },
            p,
        ),
{
    assert(is_home(order, replies, n, visit.user, "/root"@, "/bin/bash"@));
}

/// What is known after a turn in the guest, up to the environment.
proof fn lemma_guest_is_informed(
    order: OrderView,
    replies: spec_fn(nat) -> ReplyView,
    n: nat,
    stage: SessionStageView,
    steps: Seq<StepView>,
    s: SessionStageView,
    p: Seq<StepView>,
)
    requires
        turns_to(order, replies, n, stage, steps, s, p),
        stage is Root || stage is Drop,
    ensures
        informed_stage(order, replies, n + 1, s, p),
{
    let reply = replies(n);
    lemma_next_is_about_the_guest(order, replies, n, stage, steps, s, p);
    match stage {
        SessionStageOf::Root { visit } => {
            if let ReplyOf::User { name, uid, gid } = reply {
                assert(is_host(order, replies, n + 1, name, uid, gid));
                assert(is_dir(order, replies, n + 1, visit.dir));
                law_home_is_that_of_the_line(Seq::empty(), visit.user);
                if visit.user == "root"@ {
                    assert(s == (SessionStageView::Surround {
                        visit,
                        host: name,
                        uid,
                        home: "/root"@,
                        shell: "/bin/bash"@,
                    }));
                    lemma_informed_surround(order, replies, n + 1, visit, name, uid, gid, p);
                } else {
                    assert(s == (SessionStageView::Drop { visit, host: name, uid }));
                }
            }
        },
        SessionStageOf::Drop { visit, host, uid } => {
            if let ReplyOf::Text { text } = reply {
                law_home_is_that_of_the_line(text, visit.user);
            } else {
                law_home_is_that_of_the_line(Seq::empty(), visit.user);
            }
        },
        _ => {},
    }
}

/// What is known when something takes over.
proof fn lemma_launch_is_informed(
    order: OrderView,
    replies: spec_fn(nat) -> ReplyView,
    n: nat,
    stage: SessionStageView,
    steps: Seq<StepView>,
    s: SessionStageView,
    p: Seq<StepView>,
)
    requires
        turns_to(order, replies, n, stage, steps, s, p),
        stage is Surround,
    ensures
        informed_stage(order, replies, n + 1, s, p),
{
    lemma_next_is_about_the_guest(order, replies, n, stage, steps, s, p);
    if let SessionStageOf::Surround { visit, host, uid, home, shell } = stage {
        if let ReplyOf::Variables { env } = replies(n) {
            let gid = choose|gid: u32| #[trigger] is_host(order, replies, n + 1, host, uid, gid);
            let settings = guest_settings(env, host, uid, visit.user, home, shell);
            assert(starts_with_settings(
                order,
                replies,
                n + 1,
                visit.user,
                p[0].action,
                home,
                shell,
            )) by {
                assert(is_host(order, replies, n + 1, host, uid, gid));
                assert((SettingsOf { names: settings.names, values: settings.values })
                    == guest_settings(env, host, uid, visit.user, home, shell));
            }
            assert(is_dir(order, replies, n + 1, visit.dir));
            assert(launches(order, replies, n + 1, visit.user, p, home, shell));
        }
    }
}

/// What is known in the stage that a turn leads to.
proof fn lemma_next_is_informed(
    order: OrderView,
    replies: spec_fn(nat) -> ReplyView,
    n: nat,
    stage: SessionStageView,
    steps: Seq<StepView>,
    s: SessionStageView,
    p: Seq<StepView>,
)
    requires
        turns_to(order, replies, n, stage, steps, s, p),
    ensures
        informed_stage(order, replies, n + 1, s, p),
        reach_home(order, replies, n + 1, p),
{
    lemma_next_is_about_the_guest(order, replies, n, stage, steps, s, p);
    if stage is Zone || stage is Equip || stage is Enlist {
        lemma_setup_is_informed(order, replies, n, stage, steps, s, p);
    } else if stage is Root || stage is Drop {
        lemma_guest_is_informed(order, replies, n, stage, steps, s, p);
    } else if stage is Surround {
        lemma_launch_is_informed(order, replies, n, stage, steps, s, p);
    } else {
        lemma_turns_inform(stage, replies(n));
    }
}

proof fn lemma_always_informed(order: OrderView, replies: spec_fn(nat) -> ReplyView, n: nat)
    ensures
        informed(order, replies, n),
    decreases n,
{
    if n > 0 {
        lemma_always_informed(order, replies, (n - 1) as nat);
        lemma_always_true(order, replies, (n - 1) as nat);
        lemma_always_safe(visit_task(order), replies, (n - 1) as nat);
        lemma_stays_informed(order, replies, (n - 1) as nat);
    } else {
        assert(forall|p: u32| all_reach(no_steps().push(
            attempt(ActionOf::FindPid { name: order.name }),
        ), p));
        assert(all_reach(no_steps().push(attempt(ActionOf::FindPid { name: order.name })), 0));
    }
}

/// Whatever the host replies, what takes over in the guest is the whole command that was
/// ordered, word for word; where none was ordered it is the shell that the guest's own
/// table gives to the user, as a login shell. Before it takes over, its environment was
/// set from what the host told and for that user, and its directory is the one that it
/// was asked for in, if that is below `/home`, else the user's home.
pub proof fn law_whole_command_takes_over(
    order: OrderView,
    replies: spec_fn(nat) -> ReplyView,
    n: nat,
    args: Seq<Seq<char>>,
) -> (found: (Seq<char>, Seq<char>, Seq<char>))
    requires
        pending(after_replies::<SessionStage>(visit_task(order), replies, n)) == Some(
            ActionView::Exec { args },
        ),
    ensures
        order.args.len() > 0 ==> args == order.args,
        order.args.len() == 0 ==> args.len() == 2 && args[0] == found.2 && args[1] == "--login"@,
        is_home(order, replies, n, found.0, found.1, found.2),
        order.as_root ==> found.0 == "root"@,
        !order.as_root ==> exists|config: ConfigView|
            found.0 == (#[trigger] config.user_of(order.name)) && told(
                order,
                replies,
                n,
                ActionOf::LoadConfig,
                ReplyOf::Config { config },
            ),
        after_replies::<SessionStage>(visit_task(order), replies, n) matches TaskOf::Active {
            stage,
            steps,
            at,
        } && launches(order, replies, n, found.0, steps, found.1, found.2) && at == 2,
{
    lemma_always_informed(order, replies, n);
    lemma_always_true(order, replies, n);
    lemma_always_safe(visit_task(order), replies, n);
    if let TaskOf::Active { stage: SessionStageOf::Launch { visit }, steps, at } = after_replies::<
        SessionStage,
    >(visit_task(order), replies, n) {
        let (home, shell) = choose|home: Seq<char>, shell: Seq<char>| #[trigger]
            launches(order, replies, n, visit.user, steps, home, shell);
        if !order.as_root {
            let config = choose|config: ConfigView|
                visit.user == (#[trigger] config.user_of(order.name)) && heard::<SessionStage>(
                    visit_task(order),
                    replies,
                    n,
                    ActionOf::LoadConfig,
                    ReplyOf::Config { config },
                );
            assert(visit.user == config.user_of(order.name) && told(
                order,
                replies,
                n,
                ActionOf::LoadConfig,
                ReplyOf::Config { config },
            ));
        }
        (visit.user, home, shell)
    } else {
        (Seq::empty(), Seq::empty(), Seq::empty())
    }
}

/// Whatever the host replies, whatever a session runs in a guest and every namespace that
/// it opens belongs to the init process of the distribution that it is for: the one that
/// was found, or that the boot told. Each namespace is opened as what it is.
pub proof fn law_only_the_guest_is_entered(
    order: OrderView,
    replies: spec_fn(nat) -> ReplyView,
    n: nat,
    action: ActionView,
) -> (pid: u32)
    requires
        pending(after_replies::<SessionStage>(visit_task(order), replies, n)) == Some(action),
        action is InGuest || action is OpenNamespace,
    ensures
        reaches(action, pid),
        is_init(order, replies, n, pid),
{
    lemma_always_informed(order, replies, n);
    if let TaskOf::Active { stage, steps, at } = after_replies::<SessionStage>(
        visit_task(order),
        replies,
        n,
    ) {
        let pid = choose|pid: u32| #[trigger]
            all_reach(steps, pid) && (is_init(order, replies, n, pid) || forall|p: u32|
                all_reach(steps, p));
        if !is_init(order, replies, n, pid) {
            lemma_one_guest_only(action);
            assert(all_reach(steps, 0) && all_reach(steps, 1));
            assert(reaches(steps[at].action, 0) && reaches(steps[at].action, 1));
        }
        pid
    } else {
        0
    }
}

/// Nothing that reaches into a guest reaches into all guests.
proof fn lemma_one_guest_only(action: ActionView)
    requires
        action is InGuest || action is OpenNamespace,
    ensures
        !(reaches(action, 0) && reaches(action, 1)),
{
    if let ActionOf::OpenNamespace { kind, path } = action {
        if reaches(action, 0) && reaches(action, 1) {
            let end = match kind {
                Namespace::User => "user"@,
                Namespace::Mnt => "mnt"@,
                Namespace::Uts => "uts"@,
                Namespace::Ipc => "ipc"@,
                Namespace::Net => "net"@,
                Namespace::Pid => "pid"@,
            };
            assert(decimal(0)[0] == '0');
            assert(decimal(1)[0] == '1');
            let a = "/proc/"@ + decimal(0) + "/ns/"@ + end;
            let b = "/proc/"@ + decimal(1) + "/ns/"@ + end;
            let k = "/proc/"@.len() as int;
            assert(a == b);
            assert(a[k] == '0' && b[k] == '1');
        }
    }
}

/// Whatever the host replies, a guest that is set up gets what the interview came to: its
/// host name, the packages that were chosen and the host's time zone, and its user with
/// the numbers that the host's user has; and the configuration then names that user.
pub proof fn law_setup_follows_the_answers(
    order: OrderView,
    replies: spec_fn(nat) -> ReplyView,
    n: nat,
)
    ensures
        after_replies::<SessionStage>(visit_task(order), replies, n) matches TaskOf::Active {
            stage,
            steps,
            at,
        } ==> match stage {
            SessionStageOf::Zone { order: o, pid, account } => is_account(
                order,
                replies,
                n,
                account,
            ) && steps == identity_steps(order.name, account.hostname),
            SessionStageOf::Equip { order: o, pid, account } => is_account(
                order,
                replies,
                n,
                account,
            ) && equips(order, replies, n, steps, account),
            SessionStageOf::Enlist { order: o, account } => is_account(
                order,
                replies,
                n,
                account,
            ) && enlists(order, replies, n, steps, account),
            SessionStageOf::Restart { order: o } => remembers(order, replies, n, steps),
            _ => true,
        },
{
    lemma_always_informed(order, replies, n);
}

/// A guest whose mark is missing is set up, stage by stage: the interview, the host name,
/// the packages, the user, and the restart. Only then is it entered.
pub proof fn law_setup_is_complete(
    order: OrderView,
    pid: u32,
    account: AccountView,
    reply: ReplyView,
    config: ConfigView,
    host: Seq<char>,
    uid: u32,
    gid: u32,
)
    ensures
        reply != (ReplyView::Found { exists: true }) ==> (SessionStage::next(
            SessionStageOf::Flag { order, pid },
            reply,
        ) matches TurnOf::Go { stage, steps } && stage is Ask && steps.len() == 1 && steps[0]
            == must(ActionOf::Interview { name: order.name })),
        SessionStage::next(SessionStageOf::Ask { order, pid }, ReplyOf::Account { account })
            matches TurnOf::Go { stage, steps } && stage is Zone,
        SessionStage::next(SessionStageOf::Zone { order, pid, account }, reply) matches TurnOf::Go {
            stage,
            steps,
        } && stage is Equip,
        SessionStage::next(
            SessionStageOf::Equip { order, pid, account },
            ReplyOf::User { name: host, uid, gid },
        ) matches TurnOf::Go { stage, steps } && stage is Enlist,
        SessionStage::next(
            SessionStageOf::Enlist { order, account },
            ReplyOf::Config { config },
        ) matches TurnOf::Go { stage, steps } && stage is Restart && steps.len() == 7
            && steps[1].action is StoreConfig && steps[2].action == (ActionView::CreateFile {
            path: merged_path(order.name, "etc/lsl_setup_completed"@),
        }) && steps[5] == must(ActionOf::Stop { name: order.name }) && steps[6] == must(
            ActionOf::Boot { name: order.name },
        ),
{
    lemma_restart_steps(config, order.name, account.username);
}

/// A login shell is greeted: the hook that greets it is looked at in the guest, and the
/// program that it runs is looked for there and installed if it is missing. A command is run
/// at once.
pub proof fn law_login_shell_is_greeted(visit: VisitView, reply: ReplyView)
    ensures
        visit.args.len() == 0 ==> visit_turn(visit) == (TurnView::<SessionStageView>::Go {
            stage: SessionStageOf::Profile { visit },
            steps: no_steps().push(
                attempt(ActionOf::CreateDirs { path: merged_path(visit.name, "etc/profile.d"@) }),
            ),
        }),
        visit.args.len() > 0 ==> visit_turn(visit) == (TurnView::<SessionStageView>::Go {
            stage: SessionStageOf::Here { visit },
            steps: no_steps().push(attempt(ActionOf::AskDirectory)),
        }),
        SessionStage::next(SessionStageOf::Profile { visit }, reply) matches TurnOf::Go {
            stage,
            steps,
        } && stage is Hook && steps.last().action == (ActionView::ReadText {
            path: path_join(merged_path(visit.name, "etc/profile.d"@), "fastfetch.sh"@),
        }),
        SessionStage::next(SessionStageOf::WriteHook { visit }, ReplyOf::Done) matches TurnOf::Go {
            stage,
            steps,
        } && stage is Binary && steps.len() == 2 && steps[0].action == (ActionView::SetMode {
            path: path_join(merged_path(visit.name, "etc/profile.d"@), "fastfetch.sh"@),
            mode: 0o755,
        }) && steps[1].action == (ActionView::Exists {
            path: merged_path(visit.name, "usr/bin/fastfetch"@),
        }),
        SessionStage::next(
            SessionStageOf::Binary { visit },
            ReplyOf::Found { exists: true },
        ) matches TurnOf::Go { stage, steps } && stage is Here,
        reply != (ReplyView::Found { exists: true }) ==> (SessionStage::next(
            SessionStageOf::Binary { visit },
            reply,
        ) matches TurnOf::Go { stage, steps } && stage is Install && steps.len() == 3
            && bash_script(steps[1].action, visit.pid) == Some(
            "apt-get update >/dev/null 2>&1"@,
        ) && bash_script(steps[2].action, visit.pid) == Some(
            "apt-get install -y fastfetch >/dev/null 2>&1"@,
        )),
{
}

/// The hook greets only in a terminal, and only if the guest has the program for it.
pub proof fn law_hook_greets_in_a_terminal()
    ensures
        begins(
            HOOK_SCRIPT@,
            "# Only run fastfetch if stdout is a tty (interactive session)\nif [ -t 1 ] && command -v fastfetch >/dev/null 2>&1; then\n"@,
        ),
        closes(HOOK_SCRIPT@, "\n    fastfetch\nfi\n"@),
{
    let head = "# Only run fastfetch if stdout is a tty (interactive session)\nif [ -t 1 ] && command -v fastfetch >/dev/null 2>&1; then\n"@;
    let tail = "\n    fastfetch\nfi\n"@;
    reveal_strlit("# Only run fastfetch if stdout is a tty (interactive session)\nif [ -t 1 ] && command -v fastfetch >/dev/null 2>&1; then\n    clear 2>/dev/null || printf \"\\033[H\\033[2J\"\n    fastfetch\nfi\n");
    reveal_strlit("# Only run fastfetch if stdout is a tty (interactive session)\nif [ -t 1 ] && command -v fastfetch >/dev/null 2>&1; then\n");
    reveal_strlit("\n    fastfetch\nfi\n");
    assert(HOOK_SCRIPT@.subrange(0, head.len() as int) =~= head);
    assert(HOOK_SCRIPT@.skip(HOOK_SCRIPT@.len() - tail.len()) =~= tail);
}

/// The process in the guest enters its root, and what cannot be started there is told with
/// the reason and ends the process with a failure. A user without numbers in the guest is
/// not let in.
pub proof fn law_failed_launch_is_told(
    visit: VisitView,
    kind: FaultKind,
    error: Seq<char>,
    fault: FaultView,
    clean: bool,
    host: Seq<char>,
    uid: u32,
)
    ensures
        SessionStage::next(SessionStageOf::Launch { visit }, ReplyOf::Failed { kind, error }) == (
        TurnView::<SessionStageView>::Go {
            stage: SessionStageOf::Fail,
            steps: no_steps().push(
                attempt(
                    error_line(
                        Style::Plain,
                        "Error executing command inside subsystem: "@ + error,
                    ),
                ),
            ).push(attempt(ActionOf::Exit { code: 1 })),
        }),
        SessionStage::halted(SessionStageOf::Drop { visit, host, uid }, fault, clean) matches
            TurnOf::Go { stage, steps } && steps.last().action == (ActionView::Exit { code: 1 })
            && steps[0].action == error_line(
            Style::Plain,
            "Error executing command inside subsystem: "@ + fault.message,
        ),
        stranger(visit) == failing::<SessionStageView>(
            FaultKind::NotFound,
            "User '"@ + visit.user + "' not found in distro '"@ + visit.name + "'"@,
        ),
{
}

/// The six namespaces of the guest are opened, those that must be there with an error that
/// names them, and entered, the mount namespace last; then the process forks.
pub proof fn law_guest_is_entered_by_all_gates(pid: u32)
    ensures
        ({
            let steps = gate_steps(pid);
            &&& steps.len() == 13
            &&& forall|i: int| 0 <= i < 6 ==> (#[trigger] steps[i]).action is OpenNamespace
            &&& forall|i: int| 1 <= i < 6 ==> !goes_on(#[trigger] steps[i])
            &&& forall|i: int| 7 <= i < 13 ==> !goes_on(#[trigger] steps[i])
            &&& steps[6].action == (ActionView::EnterNamespace { kind: Namespace::User })
            &&& steps[7].action == (ActionView::EnterNamespace { kind: Namespace::Uts })
            &&& steps[8].action == (ActionView::EnterNamespace { kind: Namespace::Ipc })
            &&& steps[9].action == (ActionView::EnterNamespace { kind: Namespace::Net })
            &&& steps[10].action == (ActionView::EnterNamespace { kind: Namespace::Pid })
            &&& steps[11].action == (ActionView::EnterNamespace { kind: Namespace::Mnt })
            &&& steps[12].action is Fork
        }),
{
}

/// The parent waits for the child that it forked; the child enters the guest's root, and
/// only then asks for whom it runs.
pub proof fn law_parent_waits_and_child_enters(visit: VisitView, child: i32)
    ensures
        SessionStage::next(
            SessionStageOf::Enter { visit },
            ReplyOf::Forked { child: Some(child) },
        ) matches TurnOf::Go { stage, steps } && stage is Wait && steps.len() == 1
            && steps[0].action == (ActionView::Wait { child }) && !goes_on(steps[0]),
        SessionStage::next(SessionStageOf::Enter { visit }, ReplyOf::Forked { child: None }) == (
        TurnView::<SessionStageView>::Go {
            stage: SessionStageOf::Root { visit },
            steps: no_steps().push(attempt(ActionOf::ChangeRoot { path: "/"@ })).push(
                attempt(ActionOf::ChangeDir { path: "/"@ }),
            ).push(attempt(ActionOf::AskUser)),
        }),
{
}

/// A visit goes on from stage to stage as long as the host replies to what it was asked: the
/// distribution that was found or booted is looked up, one that is registered is looked at
/// for its mark, the user is taken from the configuration and the user's numbers from the
/// guest's table, and the guest is entered by the gates of its init process.
pub proof fn law_visit_goes_on(
    order: OrderView,
    visit: VisitView,
    pid: u32,
    config: ConfigView,
    text: Seq<char>,
    reply: ReplyView,
)
    ensures
        visit_task(order) == started(
            SessionStageView::Find { order },
            no_steps().push(attempt(ActionOf::FindPid { name: order.name })),
        ),
        ({
            let known = TurnView::<SessionStageView>::Go {
                stage: SessionStageOf::Check { order, pid },
                steps: no_steps().push(attempt(ActionOf::LoadConfig)),
            };
            &&& SessionStage::next(
                SessionStageOf::Find { order },
                ReplyOf::Located { found: Some(pid) },
            ) == known
            &&& SessionStage::next(SessionStageOf::Start { order }, ReplyOf::Booted { pid })
                == known
        }),
        registered(config.distros, order.name) ==> SessionStage::next(
            SessionStageOf::Check { order, pid },
            ReplyOf::Config { config },
        ) == (TurnView::<SessionStageView>::Go {
            stage: SessionStageOf::Flag { order, pid },
            steps: no_steps().push(
                attempt(
                    ActionOf::Exists { path: merged_path(order.name, "etc/lsl_setup_completed"@) },
                ),
            ),
        }),
        !registered(config.distros, order.name) ==> SessionStage::next(
            SessionStageOf::Check { order, pid },
            ReplyOf::Config { config },
        ) == failing::<SessionStageView>(
            FaultKind::NotFound,
            "Distro '"@ + order.name + "' not found in config"@,
        ),
        SessionStage::next(SessionStageOf::Restart { order }, ReplyOf::Booted { pid })
            == SessionStage::next(
            SessionStageOf::Flag { order, pid },
            ReplyOf::Found { exists: true },
        ),
        !order.as_root ==> SessionStage::next(
            SessionStageOf::Flag { order, pid },
            ReplyOf::Found { exists: true },
        ) == (TurnView::<SessionStageView>::Go {
            stage: SessionStageOf::Target { order, pid },
            steps: no_steps().push(attempt(ActionOf::LoadConfig)),
        }),
        ({
            let user = config.user_of(order.name);
            let settled = VisitOf {
                name: order.name,
                args: order.args,
                pid,
                user,
                ids: None,
                dir: "/"@,
            };
            SessionStage::next(
                SessionStageOf::Target { order, pid },
                ReplyOf::Config { config },
            ) == if user == "root"@ {
                visit_turn(settled)
            } else {
                TurnView::<SessionStageView>::Go {
                    stage: SessionStageOf::Ids { visit: settled },
                    steps: no_steps().push(
                        attempt(ActionOf::ReadText { path: merged_path(order.name, "etc/passwd"@) }),
                    ),
                }
            }
        }),
        SessionStage::next(SessionStageOf::Here { visit }, ReplyOf::Text { text }) == (TurnView::<
            SessionStageView,
        >::Go {
            stage: SessionStageOf::Enter { visit: VisitOf { dir: text, ..visit } },
            steps: gate_steps(visit.pid),
        }),
        !(reply is Text) ==> SessionStage::next(SessionStageOf::Here { visit }, reply) == (
        TurnView::<SessionStageView>::Go {
            stage: SessionStageOf::Enter { visit: VisitOf { dir: "/"@, ..visit } },
            steps: gate_steps(visit.pid),
        }),
        SessionStage::next(SessionStageOf::Install { visit }, ReplyOf::Done) matches TurnOf::Go {
            stage,
            steps,
        } && stage == (SessionStageView::Installed { visit }),
        SessionStage::next(SessionStageOf::Installed { visit }, reply) matches TurnOf::Go {
            stage,
            steps,
        } && stage == (SessionStageView::Here { visit }),
{
}

/// In the guest, too, a visit goes on: the superuser keeps the rights of the process, anyone
/// else takes the rights of their numbers; then the environment is asked for and the command
/// takes over.
pub proof fn law_visit_goes_on_inside(
    visit: VisitView,
    host: Seq<char>,
    uid: u32,
    gid: u32,
    home: Seq<char>,
    shell: Seq<char>,
    env: VariablesView,
    reply: ReplyView,
)
    ensures
        visit.user == "root"@ ==> SessionStage::next(
            SessionStageOf::Root { visit },
            ReplyOf::User { name: host, uid, gid },
        ) == (TurnView::<SessionStageView>::Go {
            stage: SessionStageOf::Surround {
                visit,
                host,
                uid,
                home: "/root"@,
                shell: "/bin/bash"@,
            },
            steps: no_steps().push(attempt(ActionOf::AskVariables)),
        }),
        visit.user != "root"@ ==> (visit.ids matches Some((u, g)) ==> SessionStage::next(
            SessionStageOf::Root { visit },
            ReplyOf::User { name: host, uid, gid },
        ) == (TurnView::<SessionStageView>::Go {
            stage: SessionStageOf::Drop { visit, host, uid },
            steps: drop_steps(visit.user, u, g).push(
                attempt(ActionOf::ReadText { path: "/etc/passwd"@ }),
            ),
        })),
        SessionStage::next(SessionStageOf::Drop { visit, host, uid }, reply) matches TurnOf::Go {
            stage,
            steps,
        } && (stage matches SessionStageOf::Surround { visit: v, host: h, uid: u, home: a, shell: b }
            && v == visit && h == host && u == uid) && steps == no_steps().push(
            attempt(ActionOf::AskVariables),
        ),
        SessionStage::next(
            SessionStageOf::Surround { visit, host, uid, home, shell },
            ReplyOf::Variables { env },
        ) matches TurnOf::Go { stage, steps } && {
            let s = guest_settings(env, host, uid, visit.user, home, shell);
            &&& stage == (SessionStageView::Launch { visit })
            &&& steps.len() == 3
            &&& steps[0].action == (ActionView::ReplaceVariables {
                names: s.names,
                values: s.values,
            })
            &&& steps[1].action == (ActionView::ChangeDir {
                path: if under_home(visit.dir) {
                    visit.dir
                } else {
                    home
                },
            })
            &&& steps[2].action == (ActionView::Exec {
                args: if visit.args.len() > 0 {
                    visit.args
                } else {
                    no_words().push(shell).push("--login"@)
                },
            })
        },
{
}

} // verus!
