//! Finding, stopping and reaching distributions that run.
use vstd::prelude::*;

use crate::action::{
    fault, line, ActionOf, ActionView, Fault, FaultKind, FaultView, Namespace, Reply, ReplyOf,
    ReplyView, Style, ValueOf,
};
use crate::config::{
    distro_path, get_distro_path, get_run_path, law_everything_has_its_place, run_path,
};
use crate::network::{cleanup_network, cleanup_steps, namespace_path, proc_ns};
use crate::path::{join_path, path_join};
use crate::task::{
    after_replies, all_asked, asked, attempt, explained, giving, goes_on, heedless,
    law_heedless_stage_ends, lemma_all_asked, must, no_steps, only_if, pending, reach, resumed,
    started, stray, sure, take_stray, turned, Plan, StepView, Steps, Task, TaskOf, TaskView, Turn,
    TurnOf, TurnView,
};
use crate::text::{
    all_blank, copy_texts, decimal, format_decimal, is_blank, is_digit, law_decimal_reads_back,
    law_trimming_undoes_blanks, lemma_decimal, lemma_prefix_injective, lemma_suffix_injective,
    number, parse_u32, texts, trim, trimmed,
};

verus! {

// ------------------------------------------------------------------------ files

/// The file that holds the number of a distribution's init process.
pub open spec fn pid_file(name: Seq<char>) -> Seq<char> {
    run_path(name + ".pid"@)
}

/// Names the file that holds the number of a distribution's init process.
pub fn pid_file_path(name: &str) -> (r: String)
    ensures
        r@ == pid_file(name@),
{
    get_run_path(name.to_owned().concat(".pid").as_str())
}

/// The directory under the user's home where a guest's files appear.
pub open spec fn host_mount(home: Seq<char>, name: Seq<char>) -> Seq<char> {
    path_join(path_join(home, "LSL"@), name)
}

/// Names the directory under the user's home where a guest's files appear.
pub fn host_mount_path(home: &str, name: &str) -> (r: String)
    ensures
        r@ == host_mount(home@, name@),
{
    join_path(join_path(home, "LSL").as_str(), name)
}

// ----------------------------------------------------------------------- lookup

/// A stage of looking for an init process.
pub enum LookupStageOf<T> {
    /// The file with its number is being looked for.
    Seek { name: T },
    /// The number is being read.
    Read { name: T },
    /// The process is being looked for.
    Check { name: T, pid: u32 },
    /// The file is being removed, for there is no such process.
    Stale,
}

pub type LookupStage = LookupStageOf<String>;

pub type LookupStageView = LookupStageOf<Seq<char>>;

impl View for LookupStage {
    type V = LookupStageView;

    open spec fn view(&self) -> LookupStageView {
        match *self {
            LookupStageOf::Seek { name } => LookupStageOf::Seek { name: name@ },
            LookupStageOf::Read { name } => LookupStageOf::Read { name: name@ },
            LookupStageOf::Check { name, pid } => LookupStageOf::Check { name: name@, pid },
            LookupStageOf::Stale => LookupStageOf::Stale,
        }
    }
}

/// The process number that a file holds.
pub open spec fn recorded_pid(text: Seq<char>) -> Option<u32> {
    number(trimmed(text))
}

/// Reads the process number that a file holds.
pub fn read_pid(text: &str) -> (r: Option<u32>)
    ensures
        r == recorded_pid(text@),
{
    parse_u32(trim(text).as_str())
}

impl Plan for LookupStage {
    open spec fn rank(stage: LookupStageView) -> nat {
        match stage {
            LookupStageOf::Seek { name } => 3,
            LookupStageOf::Read { name } => 2,
            LookupStageOf::Check { name, pid } => 1,
            LookupStageOf::Stale => 0,
        }
    }

    open spec fn next(stage: LookupStageView, reply: ReplyView) -> TurnView<LookupStageView> {
        match stage {
            LookupStageOf::Seek { name } => if reply == (ReplyView::Found { exists: true }) {
                TurnOf::Go {
                    stage: LookupStageOf::Read { name },
                    steps: no_steps().push(attempt(ActionOf::ReadText { path: pid_file(name) })),
                }
            } else {
                giving(ValueOf::Located { found: None })
            },
            LookupStageOf::Read { name } => match reply {
                ReplyOf::Text { text } => match recorded_pid(text) {
                    Some(pid) => TurnOf::Go {
                        stage: LookupStageOf::Check { name, pid },
                        steps: no_steps().push(
                            attempt(ActionOf::Exists { path: proc_ns(pid, "uts"@) }),
                        ),
                    },
                    None => giving(ValueOf::Located { found: None }),
                },
                _ => giving(ValueOf::Located { found: None }),
            },
            LookupStageOf::Check { name, pid } => if reply == (ReplyView::Found { exists: true }) {
                giving(ValueOf::Located { found: Some(pid) })
            } else {
                TurnOf::Go {
                    stage: LookupStageOf::Stale,
                    steps: no_steps().push(attempt(ActionOf::RemoveFile { path: pid_file(name) })),
                }
            },
            LookupStageOf::Stale => giving(ValueOf::Located { found: None }),
        }
    }

    open spec fn halted(stage: LookupStageView, fault: FaultView, clean: bool) -> TurnView<
        LookupStageView,
    > {
        TurnOf::End { result: Err(fault) }
    }

    proof fn next_descends(stage: LookupStageView, reply: ReplyView) {
    }

    proof fn halted_descends(stage: LookupStageView, fault: FaultView, clean: bool) {
    }

    fn advance(self, reply: Reply) -> (r: Turn<Self>) {
        match self {
            LookupStageOf::Seek { name } => {
                let exists: bool = match reply {
                    ReplyOf::Found { exists } => exists,
                    _ => false,
                };
                if exists {
                    let path: String = pid_file_path(name.as_str());
                    TurnOf::Go {
                        stage: LookupStageOf::Read { name },
                        steps: Steps::new().attempt(ActionOf::ReadText { path }),
                    }
                } else {
                    TurnOf::End { result: Ok(ValueOf::Located { found: None }) }
                }
            },
            LookupStageOf::Read { name } => match reply {
                ReplyOf::Text { text } => match read_pid(text.as_str()) {
                    Some(pid) => TurnOf::Go {
                        stage: LookupStageOf::Check { name, pid },
                        steps: Steps::new().attempt(
                            ActionOf::Exists { path: namespace_path(pid, "uts") },
                        ),
                    },
                    None => TurnOf::End { result: Ok(ValueOf::Located { found: None }) },
                },
                _ => TurnOf::End { result: Ok(ValueOf::Located { found: None }) },
            },
            LookupStageOf::Check { name, pid } => {
                let exists: bool = match reply {
                    ReplyOf::Found { exists } => exists,
                    _ => false,
                };
                if exists {
                    TurnOf::End { result: Ok(ValueOf::Located { found: Some(pid) }) }
                } else {
                    let path: String = pid_file_path(name.as_str());
                    TurnOf::Go {
                        stage: LookupStageOf::Stale,
                        steps: Steps::new().attempt(ActionOf::RemoveFile { path }),
                    }
                }
            },
            LookupStageOf::Stale => TurnOf::End { result: Ok(ValueOf::Located { found: None }) },
        }
    }

    fn halt(self, fault: Fault, clean: bool) -> (r: Turn<Self>) {
        TurnOf::End { result: Err(fault) }
    }
}

/// The task that looks for the init process of a distribution.
pub open spec fn lookup_task(name: Seq<char>) -> TaskView<LookupStageView> {
    started(
        LookupStageOf::Seek { name },
        no_steps().push(attempt(ActionOf::Exists { path: pid_file(name) })),
    )
}

/// Starts to look for the init process of a distribution.
pub fn get_distro_init_pid(name: &str) -> (r: Task<LookupStage>)
    ensures
        r@ == lookup_task(name@),
{
    let stage: LookupStage = LookupStageOf::Seek { name: name.to_owned() };
    Task::start(stage, Steps::new().attempt(ActionOf::Exists { path: pid_file_path(name) }))
}

/// Tells whether a distribution runs, given its init process as it was found.
pub fn is_distro_running(found: Option<u32>) -> (r: bool)
    ensures
        r == (found is Some),
{
    found.is_some()
}

// --------------------------------------------------------------------- stopping

/// A stage of stopping a distribution.
pub enum StopStageOf<T> {
    /// The user's home directory is being asked for.
    Home { name: T },
    /// The guest's files are taken out of the home; its init process is looked for.
    Find { name: T },
    /// It did not run: only the network is cleaned up.
    Idle,
    /// It is being killed and all is cleaned up.
    Kill,
}

pub type StopStage = StopStageOf<String>;

pub type StopStageView = StopStageOf<Seq<char>>;

impl View for StopStage {
    type V = StopStageView;

    open spec fn view(&self) -> StopStageView {
        match *self {
            StopStageOf::Home { name } => StopStageOf::Home { name: name@ },
            StopStageOf::Find { name } => StopStageOf::Find { name: name@ },
            StopStageOf::Idle => StopStageOf::Idle,
            StopStageOf::Kill => StopStageOf::Kill,
        }
    }
}

/// Taking the guest's files out of the user's home and looking for the init process.
pub open spec fn unmap_steps(name: Seq<char>, home: Seq<char>) -> Seq<StepView> {
    no_steps().push(only_if(host_mount(home, name), true, 2)).push(
        attempt(ActionOf::Unmount { target: host_mount(home, name) }),
    ).push(attempt(ActionOf::RemoveDir { path: host_mount(home, name) })).push(
        attempt(ActionOf::FindPid { name }),
    )
}

fn unmap(name: &str, home: &str) -> (r: Steps)
    ensures
        r@ == unmap_steps(name@, home@),
{
    Steps::new().only_if(host_mount_path(home, name), true, 2).attempt(
        ActionOf::Unmount { target: host_mount_path(home, name) },
    ).attempt(ActionOf::RemoveDir { path: host_mount_path(home, name) }).attempt(
        ActionOf::FindPid { name: name.to_owned() },
    )
}

/// Cleaning up after a distribution that does not run.
pub open spec fn idle_steps(name: Seq<char>) -> Seq<StepView> {
    no_steps().push(
        attempt(line(Style::Yellow, "Distro '"@ + name + "' is already stopped."@)),
    ) + cleanup_steps(name)
}

fn leave_idle(name: &str) -> (r: Steps)
    ensures
        r@ == idle_steps(name@),
{
    Steps::new().say(
        Style::Yellow,
        "Distro '".to_owned().concat(name).concat("' is already stopped."),
    ).then_all(cleanup_network(name))
}

/// Killing the init process, with which all other processes of the guest go, and
/// removing what tells that it runs.
pub open spec fn kill_steps(name: Seq<char>, pid: u32) -> Seq<StepView> {
    no_steps().push(
        attempt(
            line(
                Style::Blue,
                "Stopping distro '"@ + name + "' (Init PID: "@ + decimal(pid as nat) + ")..."@,
            ),
        ),
    ).push(must(ActionOf::Kill { pid })).push(attempt(ActionOf::Sleep { millis: 200 })).push(
        only_if(pid_file(name), true, 1),
    ).push(attempt(ActionOf::RemoveFile { path: pid_file(name) })).push(
        attempt(ActionOf::Unmount { target: distro_path(name, "merged"@) }),
    )
}

fn kill(name: &str, pid: u32) -> (r: Steps)
    ensures
        r@ == kill_steps(name@, pid),
{
    Steps::new().say(
        Style::Blue,
        "Stopping distro '".to_owned().concat(name).concat("' (Init PID: ").concat(
            format_decimal(pid).as_str(),
        ).concat(")..."),
    ).must(ActionOf::Kill { pid }).attempt(ActionOf::Sleep { millis: 200 }).only_if(
        pid_file_path(name),
        true,
        1,
    ).attempt(ActionOf::RemoveFile { path: pid_file_path(name) }).attempt(
        ActionOf::Unmount { target: get_distro_path(name, "merged") },
    )
}

/// Stopping a distribution that runs.
pub open spec fn stop_steps(name: Seq<char>, pid: u32) -> Seq<StepView> {
    (kill_steps(name, pid) + cleanup_steps(name)).push(
        attempt(line(Style::Green, "Distro '"@ + name + "' stopped successfully."@)),
    )
}

fn stop(name: &str, pid: u32) -> (r: Steps)
    ensures
        r@ == stop_steps(name@, pid),
{
    kill(name, pid).then_all(cleanup_network(name)).say(
        Style::Green,
        "Distro '".to_owned().concat(name).concat("' stopped successfully."),
    )
}

impl Plan for StopStage {
    open spec fn rank(stage: StopStageView) -> nat {
        match stage {
            StopStageOf::Home { name } => 2,
            StopStageOf::Find { name } => 1,
            StopStageOf::Idle => 0,
            StopStageOf::Kill => 0,
        }
    }

    open spec fn next(stage: StopStageView, reply: ReplyView) -> TurnView<StopStageView> {
        match stage {
            StopStageOf::Home { name } => match reply {
                ReplyOf::Text { text } => TurnOf::Go {
                    stage: StopStageOf::Find { name },
                    steps: unmap_steps(name, text),
                },
                _ => stray(),
            },
            StopStageOf::Find { name } => match reply {
                ReplyOf::Located { found } => match found {
                    Some(pid) => TurnOf::Go {
                        stage: StopStageOf::Kill,
                        steps: stop_steps(name, pid),
                    },
                    None => TurnOf::Go { stage: StopStageOf::Idle, steps: idle_steps(name) },
                },
                _ => stray(),
            },
            StopStageOf::Idle => giving(ValueOf::Nothing),
            StopStageOf::Kill => giving(ValueOf::Nothing),
        }
    }

    open spec fn halted(stage: StopStageView, fault: FaultView, clean: bool) -> TurnView<
        StopStageView,
    > {
        TurnOf::End { result: Err(fault) }
    }

    proof fn next_descends(stage: StopStageView, reply: ReplyView) {
    }

    proof fn halted_descends(stage: StopStageView, fault: FaultView, clean: bool) {
    }

    fn advance(self, reply: Reply) -> (r: Turn<Self>) {
        match self {
            StopStageOf::Home { name } => match reply {
                ReplyOf::Text { text } => {
                    let steps: Steps = unmap(name.as_str(), text.as_str());
                    TurnOf::Go { stage: StopStageOf::Find { name }, steps }
                },
                _ => take_stray(),
            },
            StopStageOf::Find { name } => match reply {
                ReplyOf::Located { found } => match found {
                    Some(pid) => TurnOf::Go {
                        stage: StopStageOf::Kill,
                        steps: stop(name.as_str(), pid),
                    },
                    None => TurnOf::Go {
                        stage: StopStageOf::Idle,
                        steps: leave_idle(name.as_str()),
                    },
                },
                _ => take_stray(),
            },
            StopStageOf::Idle => TurnOf::End { result: Ok(ValueOf::Nothing) },
            StopStageOf::Kill => TurnOf::End { result: Ok(ValueOf::Nothing) },
        }
    }

    fn halt(self, fault: Fault, clean: bool) -> (r: Turn<Self>) {
        TurnOf::End { result: Err(fault) }
    }
}

/// The task that stops a distribution.
pub open spec fn stop_task(name: Seq<char>) -> TaskView<StopStageView> {
    started(StopStageOf::Home { name }, no_steps().push(attempt(ActionOf::AskHome)))
}

/// Starts to stop a distribution.
pub fn stop_distro(name: &str) -> (r: Task<StopStage>)
    ensures
        r@ == stop_task(name@),
{
    let stage: StopStage = StopStageOf::Home { name: name.to_owned() };
    Task::start(stage, Steps::new().attempt(ActionOf::AskHome))
}

// ------------------------------------------------------------- commands of our own

/// Where programs are looked for in a guest.
pub const GUEST_PATH: &'static str = "/usr/local/sbin:/usr/local/bin:/usr/sbin:/usr/bin:/sbin:/bin";

/// A stage of running a command in a guest on our own behalf.
pub enum GuestStageOf<L> {
    /// The guest's namespaces are being opened.
    Open { args: L },
    /// The host waits for its child.
    Outside,
    /// The child enters the namespaces.
    Enter { args: L },
    /// The child waits for a child of its own, which is in the process namespace.
    Between,
    /// The command is being run.
    Command,
    /// The process ends.
    Leave,
}

pub type GuestStage = GuestStageOf<Vec<String>>;

pub type GuestStageView = GuestStageOf<Seq<Seq<char>>>;

impl View for GuestStage {
    type V = GuestStageView;

    open spec fn view(&self) -> GuestStageView {
        match *self {
            GuestStageOf::Open { args } => GuestStageOf::Open { args: texts(args@) },
            GuestStageOf::Outside => GuestStageOf::Outside,
            GuestStageOf::Enter { args } => GuestStageOf::Enter { args: texts(args@) },
            GuestStageOf::Between => GuestStageOf::Between,
            GuestStageOf::Command => GuestStageOf::Command,
            GuestStageOf::Leave => GuestStageOf::Leave,
        }
    }
}

/// Opening a guest's namespaces, as long as the host's are still ours, and forking. Only
/// the user namespace may be missing.
pub open spec fn open_steps(pid: u32) -> Seq<StepView> {
    no_steps().push(
        attempt(ActionOf::OpenNamespace { kind: Namespace::User, path: proc_ns(pid, "user"@) }),
    ).push(must(ActionOf::OpenNamespace { kind: Namespace::Mnt, path: proc_ns(pid, "mnt"@) })).push(
        must(ActionOf::OpenNamespace { kind: Namespace::Uts, path: proc_ns(pid, "uts"@) }),
    ).push(must(ActionOf::OpenNamespace { kind: Namespace::Ipc, path: proc_ns(pid, "ipc"@) })).push(
        must(ActionOf::OpenNamespace { kind: Namespace::Net, path: proc_ns(pid, "net"@) }),
    ).push(must(ActionOf::OpenNamespace { kind: Namespace::Pid, path: proc_ns(pid, "pid"@) })).push(
        explained(ActionOf::Fork, FaultKind::Other, "Fork failed: "@),
    )
}

fn open(pid: u32) -> (r: Steps)
    ensures
        r@ == open_steps(pid),
{
    Steps::new().attempt(
        ActionOf::OpenNamespace { kind: Namespace::User, path: namespace_path(pid, "user") },
    ).must(ActionOf::OpenNamespace { kind: Namespace::Mnt, path: namespace_path(pid, "mnt") }).must(
        ActionOf::OpenNamespace { kind: Namespace::Uts, path: namespace_path(pid, "uts") },
    ).must(ActionOf::OpenNamespace { kind: Namespace::Ipc, path: namespace_path(pid, "ipc") }).must(
        ActionOf::OpenNamespace { kind: Namespace::Net, path: namespace_path(pid, "net") },
    ).must(ActionOf::OpenNamespace { kind: Namespace::Pid, path: namespace_path(pid, "pid") }).explained(
        ActionOf::Fork,
        FaultKind::Other,
        "Fork failed: ",
    )
}

/// Entering the namespaces that were opened, the mount namespace last, and forking into
/// the process namespace.
pub open spec fn enter_steps() -> Seq<StepView> {
    no_steps().push(attempt(ActionOf::EnterNamespace { kind: Namespace::User })).push(
        attempt(ActionOf::EnterNamespace { kind: Namespace::Uts }),
    ).push(attempt(ActionOf::EnterNamespace { kind: Namespace::Ipc })).push(
        attempt(ActionOf::EnterNamespace { kind: Namespace::Net }),
    ).push(attempt(ActionOf::EnterNamespace { kind: Namespace::Pid })).push(
        attempt(ActionOf::EnterNamespace { kind: Namespace::Mnt }),
    ).push(attempt(ActionOf::ChangeRoot { path: "/"@ })).push(
        attempt(ActionOf::ChangeDir { path: "/"@ }),
    ).push(must(ActionOf::Fork))
}

fn enter() -> (r: Steps)
    ensures
        r@ == enter_steps(),
{
    Steps::new().attempt(ActionOf::EnterNamespace { kind: Namespace::User }).attempt(
        ActionOf::EnterNamespace { kind: Namespace::Uts },
    ).attempt(ActionOf::EnterNamespace { kind: Namespace::Ipc }).attempt(
        ActionOf::EnterNamespace { kind: Namespace::Net },
    ).attempt(ActionOf::EnterNamespace { kind: Namespace::Pid }).attempt(
        ActionOf::EnterNamespace { kind: Namespace::Mnt },
    ).attempt(ActionOf::ChangeRoot { path: "/".to_owned() }).attempt(
        ActionOf::ChangeDir { path: "/".to_owned() },
    ).must(ActionOf::Fork)
}

/// A turn that ends the process.
pub open spec fn leave_guest(code: i32) -> TurnView<GuestStageView> {
    TurnOf::Go {
        stage: GuestStageOf::Leave,
        steps: no_steps().push(attempt(ActionOf::Exit { code })),
    }
}

fn take_leave(code: i32) -> (r: Turn<GuestStage>)
    ensures
        turned(r) == leave_guest(code),
{
    TurnOf::Go {
        stage: GuestStageOf::Leave,
        steps: Steps::new().attempt(ActionOf::Exit { code }),
    }
}

impl Plan for GuestStage {
    open spec fn rank(stage: GuestStageView) -> nat {
        match stage {
            GuestStageOf::Open { args } => 3,
            GuestStageOf::Outside => 0,
            GuestStageOf::Enter { args } => 2,
            GuestStageOf::Between => 1,
            GuestStageOf::Command => 1,
            GuestStageOf::Leave => 0,
        }
    }

    open spec fn next(stage: GuestStageView, reply: ReplyView) -> TurnView<GuestStageView> {
        match stage {
            GuestStageOf::Open { args } => match reply {
                ReplyOf::Forked { child } => match child {
                    Some(c) => TurnOf::Go {
                        stage: GuestStageOf::Outside,
                        steps: no_steps().push(attempt(ActionOf::Wait { child: c })),
                    },
                    None => TurnOf::Go {
                        stage: GuestStageOf::Enter { args },
                        steps: enter_steps(),
                    },
                },
                _ => stray(),
            },
            GuestStageOf::Outside => giving(ValueOf::Nothing),
            GuestStageOf::Enter { args } => match reply {
                ReplyOf::Forked { child } => match child {
                    Some(c) => TurnOf::Go {
                        stage: GuestStageOf::Between,
                        steps: no_steps().push(attempt(ActionOf::Wait { child: c })),
                    },
                    None => TurnOf::Go {
                        stage: GuestStageOf::Command,
                        steps: no_steps().push(
                            attempt(ActionOf::RunWith { path: GUEST_PATH@, args }),
                        ),
                    },
                },
                _ => stray(),
            },
            GuestStageOf::Between => match reply {
                ReplyOf::Waited { code } => match code {
                    Some(c) => leave_guest(c),
                    None => leave_guest(1),
                },
                _ => leave_guest(1),
            },
            GuestStageOf::Command => if reply == (ReplyView::Exit { success: true }) {
                leave_guest(0)
            } else {
                leave_guest(1)
            },
            GuestStageOf::Leave => stray(),
        }
    }

    open spec fn halted(stage: GuestStageView, fault: FaultView, clean: bool) -> TurnView<
        GuestStageView,
    > {
        match stage {
            GuestStageOf::Enter { args } => leave_guest(1),
            _ => TurnOf::End { result: Err(fault) },
        }
    }

    proof fn next_descends(stage: GuestStageView, reply: ReplyView) {
    }

    proof fn halted_descends(stage: GuestStageView, fault: FaultView, clean: bool) {
    }

    fn advance(self, reply: Reply) -> (r: Turn<Self>) {
        match self {
            GuestStageOf::Open { args } => match reply {
                ReplyOf::Forked { child } => match child {
                    Some(c) => TurnOf::Go {
                        stage: GuestStageOf::Outside,
                        steps: Steps::new().attempt(ActionOf::Wait { child: c }),
                    },
                    None => TurnOf::Go { stage: GuestStageOf::Enter { args }, steps: enter() },
                },
                _ => take_stray(),
            },
            GuestStageOf::Outside => TurnOf::End { result: Ok(ValueOf::Nothing) },
            GuestStageOf::Enter { args } => match reply {
                ReplyOf::Forked { child } => match child {
                    Some(c) => TurnOf::Go {
                        stage: GuestStageOf::Between,
                        steps: Steps::new().attempt(ActionOf::Wait { child: c }),
                    },
                    None => TurnOf::Go {
                        stage: GuestStageOf::Command,
                        steps: Steps::new().attempt(
                            ActionOf::RunWith { path: GUEST_PATH.to_owned(), args },
                        ),
                    },
                },
                _ => take_stray(),
            },
            GuestStageOf::Between => match reply {
                ReplyOf::Waited { code } => match code {
                    Some(c) => take_leave(c),
                    None => take_leave(1),
                },
                _ => take_leave(1),
            },
            GuestStageOf::Command => match reply {
                ReplyOf::Exit { success } => if success {
                    take_leave(0)
                } else {
                    take_leave(1)
                },
                _ => take_leave(1),
            },
            GuestStageOf::Leave => take_stray(),
        }
    }

    fn halt(self, fault: Fault, clean: bool) -> (r: Turn<Self>) {
        match self {
            GuestStageOf::Enter { args } => take_leave(1),
            _ => TurnOf::End { result: Err(fault) },
        }
    }
}

/// The task that runs a command in a guest.
pub open spec fn guest_task(pid: u32, args: Seq<Seq<char>>) -> TaskView<GuestStageView> {
    started(GuestStageOf::Open { args }, open_steps(pid))
}

/// Starts to run a command in the guest whose init process is given.
pub fn execute_setup_cmd_in_guest(init_pid: u32, cmd_args: &[String]) -> (r: Task<GuestStage>)
    ensures
        r@ == guest_task(init_pid, texts(cmd_args@)),
{
    let stage: GuestStage = GuestStageOf::Open { args: copy_texts(cmd_args) };
    Task::start(stage, open(init_pid))
}

// ---------------------------------------------------------------------- reaping

/// What became of a wait for children.
#[derive(Clone, Copy, Debug, PartialEq, Eq, Structural)]
pub enum Reaped {
    /// A child ended.
    One,
    /// No child has ended.
    Nobody,
    /// There was nothing to wait for.
    Failed,
}

/// What the init process of a guest does next; it never ends.
#[derive(Clone, Copy, Debug, PartialEq, Eq, Structural)]
pub enum Reaping {
    /// Wait until a child ends.
    Await,
    /// Collect a child that has ended, if there is one.
    Collect,
    /// Sleep for two seconds.
    Rest,
}

/// What the init process does after a wait: it collects until nothing is left,
/// and rests when there are no children.
pub fn reap_next(now: Reaping, reaped: Reaped) -> (r: Reaping)
    ensures
        now == Reaping::Await ==> r == (if reaped == Reaped::Failed {
            Reaping::Rest
        } else {
            Reaping::Collect
        }),
        now == Reaping::Collect ==> r == (if reaped == Reaped::One {
            Reaping::Collect
        } else {
            Reaping::Await
        }),
        now == Reaping::Rest ==> r == Reaping::Await,
{
    match now {
        Reaping::Await => match reaped {
            Reaped::Failed => Reaping::Rest,
            _ => Reaping::Collect,
        },
        Reaping::Collect => match reaped {
            Reaped::One => Reaping::Collect,
            _ => Reaping::Await,
        },
        Reaping::Rest => Reaping::Await,
    }
}

// ------------------------------------------------------------------------- laws

/// A text without blanks at its ends is its own trimmed form.
proof fn lemma_trimmed_solid(s: Seq<char>)
    requires
        s.len() > 0,
        !is_blank(s[0]),
        !is_blank(s.last()),
    ensures
        trimmed(s) == s,
{
}

/// The number of a process, written to a file as it is when a distribution has
/// booted, is found there again.
pub proof fn law_pid_file_reads_back(pid: u32)
    ensures
        recorded_pid(decimal(pid as nat)) == Some(pid),
{
    let s = decimal(pid as nat);
    lemma_decimal(pid as nat);
    law_decimal_reads_back(pid);
    assert(is_digit(s[0]));
    assert(is_digit(s.last()));
    lemma_trimmed_solid(s);
}

/// A process is reported only if its file holds its number and the process has
/// namespaces; a number whose process is gone leads to the removal of the file.
pub proof fn law_stale_pid_is_forgotten(name: Seq<char>, text: Seq<char>, pid: u32)
    requires
        recorded_pid(text) == Some(pid),
    ensures
        ({
            let checking = resumed::<LookupStage>(
                started(
                    LookupStageView::Read { name },
                    no_steps().push(attempt(ActionOf::ReadText { path: pid_file(name) })),
                ),
                ReplyOf::Text { text },
            );
            let alive = resumed::<LookupStage>(checking, ReplyOf::Found { exists: true });
            let gone = resumed::<LookupStage>(checking, ReplyOf::Found { exists: false });
            &&& pending(checking) == Some(ActionView::Exists { path: proc_ns(pid, "uts"@) })
            &&& alive == (TaskView::<LookupStageView>::Over {
                result: Ok(ValueOf::Located { found: Some(pid) }),
            })
            &&& pending(gone) == Some(ActionView::RemoveFile { path: pid_file(name) })
            &&& forall|reply: ReplyView| #[trigger]
                resumed::<LookupStage>(gone, reply) == (TaskView::<LookupStageView>::Over {
                    result: Ok(ValueOf::Located { found: None }),
                })
        }),
{
}

/// Looking for a process never fails, whatever the host replies.
pub proof fn law_lookup_never_fails(stage: LookupStageView, reply: ReplyView)
    ensures
        LookupStage::next(stage, reply) matches TurnOf::End { result } ==> result matches Ok(
            value,
        ) && value is Located,
        LookupStage::next(stage, reply) matches TurnOf::Go { stage: s, steps } ==> heedless(steps),
{
}

/// Stopping a distribution that does not run cannot fail: whatever the host
/// replies, its network is cleaned up and the task succeeds.
pub proof fn law_stopping_the_stopped_succeeds(
    name: Seq<char>,
    replies: spec_fn(nat) -> ReplyView,
) -> (n: nat)
    ensures
        n <= idle_steps(name).len(),
        after_replies::<StopStage>(
            started(StopStageOf::Idle, idle_steps(name)),
            replies,
            n,
        ) == (TaskView::<StopStageView>::Over { result: Ok(ValueOf::Nothing) }),
{
    law_heedless_stage_ends::<StopStage>(
        StopStageOf::Idle,
        idle_steps(name),
        Ok(ValueOf::Nothing),
        replies,
    )
}

/// Once the init process of a distribution is killed, or turns out to be gone,
/// nothing can keep the rest from being cleaned up: of the steps that stop a
/// distribution only the kill can fail.
pub proof fn law_only_the_kill_can_fail(name: Seq<char>, pid: u32, i: int)
    requires
        0 <= i < stop_steps(name, pid).len(),
        i != 1,
    ensures
        stop_steps(name, pid)[1] == must(ActionOf::Kill { pid }),
        crate::task::goes_on(stop_steps(name, pid)[i]),
{
    let a = kill_steps(name, pid);
    let b = cleanup_steps(name);
    if i < a.len() {
        assert(stop_steps(name, pid)[i] == a[i]);
    } else if i < a.len() + b.len() {
        assert(stop_steps(name, pid)[i] == b[i - a.len()]);
    }
}

/// A distribution that was written down when it had booted, and whose init process
/// is there, is found with that number.
pub proof fn law_recorded_is_found(name: Seq<char>, pid: u32)
    ensures
        ({
            let seeking = started(
                LookupStageView::Seek { name },
                no_steps().push(attempt(ActionOf::Exists { path: pid_file(name) })),
            );
            let reading = resumed::<LookupStage>(seeking, ReplyOf::Found { exists: true });
            let checking = resumed::<LookupStage>(
                reading,
                ReplyOf::Text { text: decimal(pid as nat) },
            );
            resumed::<LookupStage>(checking, ReplyOf::Found { exists: true }) == (TaskView::<
                LookupStageView,
            >::Over { result: Ok(ValueOf::Located { found: Some(pid) }) })
        }),
{
    law_pid_file_reads_back(pid);
}

/// What holds of a stop after any number of replies: what was due so far was done.
spec fn stops_in_order(name: Seq<char>, replies: spec_fn(nat) -> ReplyView, n: nat) -> bool {
    let t = stop_task(name);
    match after_replies::<StopStage>(t, replies, n) {
        TaskOf::Over { result } => result is Ok ==> cleanup_was_asked(name, replies, n),
        TaskOf::Active { stage, steps, at } => {
            &&& 0 <= at < steps.len()
            &&& match stage {
                StopStageOf::Home { name: d } => d == name,
                StopStageOf::Find { name: d } => d == name,
                StopStageOf::Idle => steps == idle_steps(name) && all_asked::<StopStage>(
                    t,
                    replies,
                    n,
                    steps,
                    at,
                ),
                StopStageOf::Kill => exists|pid: u32|
                    steps == #[trigger] stop_steps(name, pid) && all_asked::<StopStage>(
                        t,
                        replies,
                        n,
                        steps,
                        at,
                    ),
            }
        },
    }
}

/// The network of the distribution was cleaned up: every step of `cleanup_steps` was
/// taken, but for those about a namespace file that is not there.
pub open spec fn cleanup_was_asked(
    name: Seq<char>,
    replies: spec_fn(nat) -> ReplyView,
    n: nat,
) -> bool {
    forall|j: int|
        0 <= j < 5 ==> asked::<StopStage>(
            stop_task(name),
            replies,
            n,
            (#[trigger] cleanup_steps(name)[j]).action,
        )
}

/// Nothing can leave out the steps that clean up.
proof fn lemma_cleanup_is_sure(name: Seq<char>, pid: u32, j: int)
    requires
        0 <= j < 5,
    ensures
        idle_steps(name)[1 + j] == cleanup_steps(name)[j],
        sure(idle_steps(name), 1 + j),
        stop_steps(name, pid)[6 + j] == cleanup_steps(name)[j],
        sure(stop_steps(name, pid), 6 + j),
{
    let a = kill_steps(name, pid);
    let b = cleanup_steps(name);
    assert(a.len() == 6 && b.len() == 7);
    assert(forall|i: int| 0 <= i < 4 ==> reach(#[trigger] b[i]) == 0);
    assert(forall|i: int| 0 <= i < 6 && i != 3 ==> reach(#[trigger] a[i]) == 0);
    assert(reach(a[3]) == 1);
    let idle = idle_steps(name);
    let stop = stop_steps(name, pid);
    assert forall|i: int| 0 <= i < 1 + j implies i + reach(#[trigger] idle[i]) < 1 + j by {
        if i > 0 {
            assert(idle[i] == b[i - 1]);
        }
    }
    assert forall|i: int| 0 <= i < 6 + j implies i + reach(#[trigger] stop[i]) < 6 + j by {
        if i < 6 {
            assert(stop[i] == a[i]);
        } else {
            assert(stop[i] == b[i - 6]);
        }
    }
}

/// One reply more keeps what holds.
proof fn lemma_stop_stays_in_order(
    name: Seq<char>,
    replies: spec_fn(nat) -> ReplyView,
    n: nat,
)
    requires
        stops_in_order(name, replies, n),
    ensures
        stops_in_order(name, replies, n + 1),
{
    let t = stop_task(name);
    let now = after_replies::<StopStage>(t, replies, n);
    let reply = replies(n);
    let then = after_replies::<StopStage>(t, replies, n + 1);
    assert(then == resumed::<StopStage>(now, reply));
    match now {
        TaskOf::Over { result } => {
            if result is Ok {
                assert forall|j: int| 0 <= j < 5 implies asked::<StopStage>(
                    t,
                    replies,
                    n + 1,
                    (#[trigger] cleanup_steps(name)[j]).action,
                ) by {
                    let action = cleanup_steps(name)[j].action;
                    assert(asked::<StopStage>(t, replies, n, action));
                    let k = choose|k: nat|
                        k < n && pending(#[trigger] after_replies::<StopStage>(t, replies, k))
                            == Some(action);
                    assert(k < n + 1);
                }
            }
        },
        TaskOf::Active { stage, steps, at } => {
            if stage is Idle || stage is Kill {
                lemma_all_asked::<StopStage>(t, replies, n, stage, steps, at);
                if let TaskOf::Over { result } = then {
                    if result is Ok {
                        let pid = if stage is Kill {
                            choose|pid: u32|
                                steps == #[trigger] stop_steps(name, pid) && all_asked::<
                                    StopStage,
                                >(t, replies, n, steps, at)
                        } else {
                            0
                        };
                        assert forall|j: int| 0 <= j < 5 implies asked::<StopStage>(
                            t,
                            replies,
                            n + 1,
                            (#[trigger] cleanup_steps(name)[j]).action,
                        ) by {
                            lemma_cleanup_is_sure(name, pid, j);
                            if stage is Idle {
                                assert(idle_steps(name).len() == 8);
                                assert(sure(steps, 1 + j));
                                assert(asked::<StopStage>(t, replies, n + 1, steps[1 + j].action));
                            } else {
                                assert(stop_steps(name, pid).len() == 14);
                                assert(sure(steps, 6 + j));
                                assert(asked::<StopStage>(t, replies, n + 1, steps[6 + j].action));
                            }
                        }
                    }
                }
            } else {
                StopStage::next_descends(stage, reply);
                if let TaskOf::Active { stage: s, steps: p, at: a } = then {
                    if s is Kill {
                        if let ReplyOf::Located { found: Some(pid) } = reply {
                            assert(p == stop_steps(name, pid));
                        }
                    }
                }
            }
        },
    }
}

/// Whatever the host replies, a stop that succeeds has cleaned up the network of the
/// distribution, whether that ran or not.
pub proof fn law_every_stop_cleans_up(
    name: Seq<char>,
    replies: spec_fn(nat) -> ReplyView,
    n: nat,
)
    ensures
        after_replies::<StopStage>(stop_task(name), replies, n) matches TaskOf::Over {
            result: Ok(value),
        } ==> cleanup_was_asked(name, replies, n),
{
    lemma_stop_from_the_start(name, replies, n);
}

proof fn lemma_stop_from_the_start(
    name: Seq<char>,
    replies: spec_fn(nat) -> ReplyView,
    n: nat,
)
    ensures
        stops_in_order(name, replies, n),
    decreases n,
{
    if n > 0 {
        lemma_stop_from_the_start(name, replies, (n - 1) as nat);
        lemma_stop_stays_in_order(name, replies, (n - 1) as nat);
    }
}

/// Distributions with different names, none of which is an absolute path, are
/// written down in different files.
pub proof fn law_pid_files_do_not_clash(a: Seq<char>, b: Seq<char>)
    requires
        a != b,
        a.len() > 0 && a[0] != '/',
        b.len() > 0 && b[0] != '/',
    ensures
        pid_file(a) != pid_file(b),
{
    let run = path_join(crate::config::LSL_DIR@, "run"@);
    let stem = if run.len() == 0 || run.last() == '/' {
        run
    } else {
        run.push('/')
    };
    lemma_suffix_injective(a, b, ".pid"@);
    lemma_prefix_injective(stem, a + ".pid"@, b + ".pid"@);
    assert(pid_file(a) =~= stem + (a + ".pid"@));
    assert(pid_file(b) =~= stem + (b + ".pid"@));
}

/// A command in a guest is run only after the namespaces were entered, and its
/// process always ends: a success with code 0, anything else with code 1.
pub proof fn law_guest_command_ends_its_process(
    args: Seq<Seq<char>>,
    fault: FaultView,
    clean: bool,
    reply: ReplyView,
)
    ensures
        GuestStage::halted(GuestStageOf::Enter { args }, fault, clean) == leave_guest(1),
        GuestStage::next(GuestStageOf::Command, reply) == leave_guest(
            if reply == (ReplyView::Exit { success: true }) {
                0
            } else {
                1
            },
        ),
{
}

/// The number of a process is read whatever white space stands around it.
pub proof fn law_number_is_read_among_blanks(a: Seq<char>, pid: u32, b: Seq<char>)
    requires
        all_blank(a),
        all_blank(b),
    ensures
        recorded_pid(a + decimal(pid as nat) + b) == Some(pid),
{
    let s = decimal(pid as nat);
    lemma_decimal(pid as nat);
    assert(is_digit(s[0]) && is_digit(s[s.len() - 1]));
    law_decimal_reads_back(pid);
    law_trimming_undoes_blanks(a, s, b);
}

/// A lookup reads the file of the distribution that it is for and looks whether the process
/// whose number it holds is there; it finds exactly that process. A file that holds no number
/// is left alone, and one whose process is gone is removed.
pub proof fn law_lookup_is_for_the_distribution(
    name: Seq<char>,
    text: Seq<char>,
    reply: ReplyView,
    pid: u32,
)
    requires
        name.len() > 0 && name[0] != '/',
    ensures
        ({
            let file = "/var/lib/lsl/run/"@ + (name + ".pid"@);
            &&& lookup_task(name) == started(
                LookupStageView::Seek { name },
                no_steps().push(attempt(ActionOf::Exists { path: file })),
            )
            &&& LookupStage::next(
                LookupStageOf::Seek { name },
                ReplyOf::Found { exists: true },
            ) == (TurnView::<LookupStageView>::Go {
                stage: LookupStageOf::Read { name },
                steps: no_steps().push(attempt(ActionOf::ReadText { path: file })),
            })
            &&& reply != (ReplyView::Found { exists: true }) ==> LookupStage::next(
                LookupStageOf::Seek { name },
                reply,
            ) == giving::<LookupStageView>(ValueOf::Located { found: None })
            &&& number(trimmed(text)) is None ==> LookupStage::next(
                LookupStageOf::Read { name },
                ReplyOf::Text { text },
            ) == giving::<LookupStageView>(ValueOf::Located { found: None })
            &&& number(trimmed(text)) matches Some(p) ==> LookupStage::next(
                LookupStageOf::Read { name },
                ReplyOf::Text { text },
            ) == (TurnView::<LookupStageView>::Go {
                stage: LookupStageOf::Check { name, pid: p },
                steps: no_steps().push(
                    attempt(
                        ActionOf::Exists {
                            path: "/proc/"@ + decimal(p as nat) + "/ns/"@ + "uts"@,
                        },
                    ),
                ),
            })
            &&& LookupStage::next(
                LookupStageOf::Check { name, pid },
                ReplyOf::Found { exists: true },
            ) == giving::<LookupStageView>(ValueOf::Located { found: Some(pid) })
            &&& reply != (ReplyView::Found { exists: true }) ==> LookupStage::next(
                LookupStageOf::Check { name, pid },
                reply,
            ) == (TurnView::<LookupStageView>::Go {
                stage: LookupStageOf::Stale,
                steps: no_steps().push(attempt(ActionOf::RemoveFile { path: file })),
            })
        }),
{
    lemma_pid_file(name);
}

/// Where the number of an init process is kept.
proof fn lemma_pid_file(name: Seq<char>)
    requires
        name.len() > 0 && name[0] != '/',
    ensures
        pid_file(name) == "/var/lib/lsl/run/"@ + (name + ".pid"@),
{
    law_everything_has_its_place(
        Seq::empty().push('x'),
        Seq::empty().push('x'),
        name + ".pid"@,
    );
}

/// Stopping a distribution kills the process that was found, whatever its number, and no
/// other; it removes the file that tells of it, lets go of the guest's files, in their own
/// place and in the user's home, and takes its network down. If it does not run, only the
/// network is taken down.
pub proof fn law_stop_is_for_the_found(name: Seq<char>, home: Seq<char>, pid: u32)
    requires
        name.len() > 0 && name[0] != '/',
    ensures
        stop_task(name) == started(
            StopStageView::Home { name },
            no_steps().push(attempt(ActionOf::AskHome)),
        ),
        ({
            let place = path_join(path_join(home, "LSL"@), name);
            StopStage::next(StopStageOf::Home { name }, ReplyOf::Text { text: home }) matches
                TurnOf::Go { stage, steps } && stage == (StopStageView::Find { name })
                && steps.len() == 4 && steps[0] == only_if(place, true, 2) && steps[1].action == (
            ActionView::Unmount { target: place }) && steps[2].action == (ActionView::RemoveDir {
                path: place,
            }) && steps[3] == attempt(ActionOf::FindPid { name })
        }),
        ({
            let file = "/var/lib/lsl/run/"@ + (name + ".pid"@);
            StopStage::next(
                StopStageOf::Find { name },
                ReplyOf::Located { found: Some(pid) },
            ) matches TurnOf::Go { stage, steps } && {
                &&& stage is Kill
                &&& steps.len() == 14
                &&& steps[1] == must(ActionOf::Kill { pid })
                &&& steps[3] == only_if(file, true, 1)
                &&& steps[4].action == (ActionView::RemoveFile { path: file })
                &&& steps[5].action == (ActionView::Unmount { target: distro_path(name, "merged"@) })
                &&& forall|i: int| 6 <= i < 13 ==> #[trigger] steps[i] == cleanup_steps(name)[i - 6]
                &&& forall|i: int| 0 <= i < 14 && i != 1 ==> !((#[trigger] steps[i]).action is Kill)
            }
        }),
        StopStage::next(StopStageOf::Find { name }, ReplyOf::Located { found: None }) matches
            TurnOf::Go { stage, steps } && stage is Idle && steps.len() == 8 && (forall|i: int|
            1 <= i < 8 ==> #[trigger] steps[i] == cleanup_steps(name)[i - 1]) && (forall|i: int|
            0 <= i < 8 ==> !((#[trigger] steps[i]).action is Kill)),
{
    lemma_pid_file(name);
    let all = stop_steps(name, pid);
    let a = kill_steps(name, pid);
    let b = cleanup_steps(name);
    assert(a.len() == 6 && b.len() == 7);
    assert(forall|i: int| 0 <= i < 7 ==> !((#[trigger] b[i]).action is Kill));
    assert forall|i: int| 0 <= i < 14 && i != 1 implies !((#[trigger] all[i]).action is Kill) by {
        if i < 6 {
            assert(all[i] == a[i]);
        } else if i < 13 {
            assert(all[i] == b[i - 6]);
        }
    }
    let idle = idle_steps(name);
    assert forall|i: int| 0 <= i < 8 implies !((#[trigger] idle[i]).action is Kill) by {
        if i >= 1 {
            assert(idle[i] == b[i - 1]);
        }
    }
}

/// What holds of a command in a guest after any number of replies.
spec fn runs_as_told(
    pid: u32,
    args: Seq<Seq<char>>,
    replies: spec_fn(nat) -> ReplyView,
    n: nat,
) -> bool {
    match after_replies::<GuestStage>(guest_task(pid, args), replies, n) {
        TaskOf::Over { result } => true,
        TaskOf::Active { stage, steps, at } => {
            &&& 0 <= at < steps.len()
            &&& stage matches GuestStageOf::Open { args: a } ==> a == args
            &&& stage matches GuestStageOf::Enter { args: a } ==> a == args
            &&& stage is Open || forall|i: int|
                0 <= i < steps.len() ==> !((#[trigger] steps[i]).action is OpenNamespace)
            &&& stage is Open ==> steps == open_steps(pid)
            &&& forall|i: int|
                0 <= i < steps.len() ==> ((#[trigger] steps[i]).action matches ActionOf::RunWith {
                    path,
                    args: a,
                } ==> a == args && path
                    == "/usr/local/sbin:/usr/local/bin:/usr/sbin:/usr/bin:/sbin:/bin"@)
        },
    }
}

proof fn lemma_runs_as_told(
    pid: u32,
    args: Seq<Seq<char>>,
    replies: spec_fn(nat) -> ReplyView,
    n: nat,
)
    ensures
        runs_as_told(pid, args, replies, n),
    decreases n,
{
    let t = guest_task(pid, args);
    if n > 0 {
        let m = (n - 1) as nat;
        lemma_runs_as_told(pid, args, replies, m);
        let now = after_replies::<GuestStage>(t, replies, m);
        assert(after_replies::<GuestStage>(t, replies, n) == resumed::<GuestStage>(
            now,
            replies(m),
        ));
        assert(enter_steps().len() == 9);
        assert(forall|i: int|
            0 <= i < 9 ==> !((#[trigger] enter_steps()[i]).action is RunWith)
                && !(enter_steps()[i].action is OpenNamespace));
    } else {
        assert(open_steps(pid).len() == 7);
        assert(forall|i: int| 0 <= i < 7 ==> !((#[trigger] open_steps(pid)[i]).action is RunWith));
    }
}

/// Whatever the host replies, what is run in a guest is the whole command that was given,
/// with the usual places to look for programs, and every namespace that is opened for it is
/// one of that guest, as what it is.
pub proof fn law_whole_command_is_run_in_the_guest(
    pid: u32,
    args: Seq<Seq<char>>,
    replies: spec_fn(nat) -> ReplyView,
    n: nat,
    action: ActionView,
)
    requires
        pending(after_replies::<GuestStage>(guest_task(pid, args), replies, n)) == Some(action),
    ensures
        action matches ActionOf::RunWith { path, args: a } ==> a == args && path
            == "/usr/local/sbin:/usr/local/bin:/usr/sbin:/usr/bin:/sbin:/bin"@,
        action matches ActionOf::OpenNamespace { kind, path } ==> path == "/proc/"@ + decimal(
            pid as nat,
        ) + "/ns/"@ + (match kind {
            Namespace::User => "user"@,
            Namespace::Mnt => "mnt"@,
            Namespace::Uts => "uts"@,
            Namespace::Ipc => "ipc"@,
            Namespace::Net => "net"@,
            Namespace::Pid => "pid"@,
        }),
{
    lemma_runs_as_told(pid, args, replies, n);
    if let TaskOf::Active { stage, steps, at } = after_replies::<GuestStage>(
        guest_task(pid, args),
        replies,
        n,
    ) {
        assert(steps[at].action == action);
    }
}

/// All six namespaces of a guest are opened before one is entered, and entered, the mount
/// namespace last, before the command is run; a guest that lacks one other than the user
/// namespace is not entered.
pub proof fn law_guest_is_entered_whole(pid: u32, args: Seq<Seq<char>>, fault: FaultView, clean: bool)
    ensures
        open_steps(pid).len() == 7,
        forall|i: int| 0 <= i < 6 ==> (#[trigger] open_steps(pid)[i]).action is OpenNamespace,
        forall|i: int| 1 <= i < 6 ==> !goes_on(#[trigger] open_steps(pid)[i]),
        open_steps(pid)[6].action is Fork,
        GuestStage::halted(GuestStageOf::Open { args }, fault, clean) == (TurnView::<
            GuestStageView,
        >::End { result: Err(fault) }),
        enter_steps()[0].action == (ActionView::EnterNamespace { kind: Namespace::User }),
        enter_steps()[1].action == (ActionView::EnterNamespace { kind: Namespace::Uts }),
        enter_steps()[2].action == (ActionView::EnterNamespace { kind: Namespace::Ipc }),
        enter_steps()[3].action == (ActionView::EnterNamespace { kind: Namespace::Net }),
        enter_steps()[4].action == (ActionView::EnterNamespace { kind: Namespace::Pid }),
        enter_steps()[5].action == (ActionView::EnterNamespace { kind: Namespace::Mnt }),
        GuestStage::next(GuestStageOf::Open { args }, ReplyOf::Forked { child: None }) == (
        TurnView::<GuestStageView>::Go { stage: GuestStageOf::Enter { args }, steps: enter_steps() }),
        GuestStage::next(GuestStageOf::Enter { args }, ReplyOf::Forked { child: None }) matches
            TurnOf::Go { stage, steps } && steps.len() == 1 && steps[0].action is RunWith,
{
}

/// The process between the host and the command hands the command's exit code on, and fails
/// where there is none.
pub proof fn law_guest_hands_the_code_on(code: i32, reply: ReplyView, child: i32)
    ensures
        GuestStage::next(GuestStageOf::Between, ReplyOf::Waited { code: Some(code) }) == leave_guest(
            code,
        ),
        !(reply matches ReplyOf::Waited { code: Some(c) }) ==> GuestStage::next(
            GuestStageOf::Between,
            reply,
        ) == leave_guest(1),
        leave_guest(code) matches TurnOf::Go { stage, steps } && steps == no_steps().push(
            attempt(ActionOf::Exit { code }),
        ),
{
}

/// A stop that got through its steps has succeeded; and whoever had a command run in a guest
/// waits for the process that was forked for it and then goes on.
pub proof fn law_stops_and_commands_end_well(args: Seq<Seq<char>>, child: i32, reply: ReplyView)
    ensures
        StopStage::next(StopStageOf::Kill, reply) == giving::<StopStageView>(ValueOf::Nothing),
        StopStage::next(StopStageOf::Idle, reply) == giving::<StopStageView>(ValueOf::Nothing),
        GuestStage::next(GuestStageOf::Open { args }, ReplyOf::Forked { child: Some(child) }) == (
        TurnView::<GuestStageView>::Go {
            stage: GuestStageOf::Outside,
            steps: no_steps().push(attempt(ActionOf::Wait { child })),
        }),
        GuestStage::next(GuestStageOf::Enter { args }, ReplyOf::Forked { child: Some(child) }) == (
        TurnView::<GuestStageView>::Go {
            stage: GuestStageOf::Between,
            steps: no_steps().push(attempt(ActionOf::Wait { child })),
        }),
        GuestStage::next(GuestStageOf::Outside, reply) == giving::<GuestStageView>(
            ValueOf::Nothing,
        ),
{
}

} // verus!
