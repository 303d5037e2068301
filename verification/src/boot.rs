//! Booting a distribution.
//!
//! Three processes take part: the host's, a short-lived one that leaves the
//! host's namespaces, and a child of that one, which becomes the guest's init
//! process. All run the same task and part where it forks.
use vstd::prelude::*;

use crate::action::{
    command, fault, line, no_words, run, words, Action, ActionOf, ActionView, Fault, FaultKind,
    FaultOf, FaultView, Kinds, MountFlags, Reply, ReplyOf, ReplyView, Style, ValueOf,
};
use crate::config::{
    distro_path, get_distro_path, get_merged_path, get_run_path, law_everything_has_its_place,
    lookup, merged_path, run_path, ConfigView,
};
use crate::path::{join_path, path_join};
use crate::runtime::{
    host_mount, host_mount_path, law_pid_file_reads_back, pid_file, pid_file_path, recorded_pid,
};
use crate::task::{
    after_replies, attempt, entered, explained, failing, giving, goes_on, heard, leading, led_by,
    lemma_heard_grows, must, needed, no_steps, only_if, pending, resumed, started, stray, sure,
    take_stray, turned, vital, FlowOf, Plan, StepView, Steps, Task, TaskOf, TaskView, Turn, TurnOf,
    TurnView,
};
use crate::text::{decimal, format_decimal, has_char, same, trim, trimmed};

verus! {

// ------------------------------------------------------------------------- jobs

/// What is to be booted.
pub struct JobOf<T> {
    pub name: T,
    pub ip: T,
    pub mac: T,
}

pub type Job = JobOf<String>;

pub type JobView = JobOf<Seq<char>>;

impl View for Job {
    type V = JobView;

    open spec fn view(&self) -> JobView {
        JobOf { name: self.name@, ip: self.ip@, mac: self.mac@ }
    }
}

/// A stage of booting, in one of the three processes.
pub enum BootStageOf<T> {
    /// The distribution is being looked up.
    Load { name: T },
    /// The file system of the guest is being put together.
    Prepare { job: JobOf<T> },
    /// The first fork is due.
    Split { job: JobOf<T>, uid: u32 },
    /// On the host: the number of the init process is awaited.
    Receive { job: JobOf<T> },
    /// On the host: the init process is given a moment and looked for.
    Probe { job: JobOf<T>, pid: u32 },
    /// On the host: the network is being set up.
    Connect { job: JobOf<T>, pid: u32 },
    /// On the host: the failure of the network is being told.
    Unconnected { fault: FaultOf<T> },
    /// On the host: the init process is looked for again.
    ProbeAgain { name: T, pid: u32 },
    /// On the host: the log of an init process that is gone is looked for.
    Dead { name: T, connected: bool },
    /// On the host: the log of an init process that is gone is read.
    DeadLog,
    /// On the host: the number of the init process is being written down.
    Record { name: T, pid: u32 },
    /// On the host: a place in the user's home is being made.
    Place { name: T, pid: u32, home: T },
    /// On the host: the guest's files are made to appear in the user's home.
    Expose { pid: u32 },
    /// In the middle process: the host's namespaces are being left.
    Part { name: T, uid: u32 },
    /// In the middle process: its end.
    Leave,
    /// In the guest: the changed host name is being read.
    Name { name: T, uid: u32 },
    /// In the guest: the host name that came with it is being read.
    BaseName { name: T, uid: u32 },
    /// In the guest: the file systems are being mounted.
    Inside { name: T },
    /// In the guest: the old root is being left behind.
    Pivoted,
    /// In the guest: the root is being changed the other way.
    Rooted,
}

pub type BootStage = BootStageOf<String>;

pub type BootStageView = BootStageOf<Seq<char>>;

impl View for BootStage {
    type V = BootStageView;

    open spec fn view(&self) -> BootStageView {
        match *self {
            BootStageOf::Load { name } => BootStageOf::Load { name: name@ },
            BootStageOf::Prepare { job } => BootStageOf::Prepare { job: job@ },
            BootStageOf::Split { job, uid } => BootStageOf::Split { job: job@, uid },
            BootStageOf::Receive { job } => BootStageOf::Receive { job: job@ },
            BootStageOf::Probe { job, pid } => BootStageOf::Probe { job: job@, pid },
            BootStageOf::Connect { job, pid } => BootStageOf::Connect { job: job@, pid },
            BootStageOf::Unconnected { fault } => BootStageOf::Unconnected { fault: fault@ },
            BootStageOf::ProbeAgain { name, pid } => BootStageOf::ProbeAgain { name: name@, pid },
            BootStageOf::Dead { name, connected } => BootStageOf::Dead { name: name@, connected },
            BootStageOf::DeadLog => BootStageOf::DeadLog,
            BootStageOf::Record { name, pid } => BootStageOf::Record { name: name@, pid },
            BootStageOf::Place { name, pid, home } => BootStageOf::Place {
                name: name@,
                pid,
                home: home@,
            },
            BootStageOf::Expose { pid } => BootStageOf::Expose { pid },
            BootStageOf::Part { name, uid } => BootStageOf::Part { name: name@, uid },
            BootStageOf::Leave => BootStageOf::Leave,
            BootStageOf::Name { name, uid } => BootStageOf::Name { name: name@, uid },
            BootStageOf::BaseName { name, uid } => BootStageOf::BaseName { name: name@, uid },
            BootStageOf::Inside { name } => BootStageOf::Inside { name: name@ },
            BootStageOf::Pivoted => BootStageOf::Pivoted,
            BootStageOf::Rooted => BootStageOf::Rooted,
        }
    }
}

/// The file that takes the output of a guest's init process.
pub open spec fn boot_log(name: Seq<char>) -> Seq<char> {
    run_path(name + "-boot.log"@)
}

fn boot_log_path(name: &str) -> (r: String)
    ensures
        r@ == boot_log(name@),
{
    get_run_path(name.to_owned().concat("-boot.log").as_str())
}

// ------------------------------------------------------------------ the file system

/// The options that stack the layers: the root file system stays as it is, changes
/// go to the upper layer.
pub open spec fn overlay_options(name: Seq<char>) -> Seq<char> {
    "lowerdir="@ + distro_path(name, "rootfs"@) + ",upperdir="@ + distro_path(name, "diff"@)
        + ",workdir="@ + distro_path(name, "work"@)
}

fn stack_options(name: &str) -> (r: String)
    ensures
        r@ == overlay_options(name@),
{
    "lowerdir=".to_owned().concat(get_distro_path(name, "rootfs").as_str()).concat(
        ",upperdir=",
    ).concat(get_distro_path(name, "diff").as_str()).concat(",workdir=").concat(
        get_distro_path(name, "work").as_str(),
    )
}

/// Mounting the layers of the file system one above the other.
pub open spec fn stack_steps(name: Seq<char>) -> Seq<StepView> {
    no_steps().push(attempt(line(Style::BlueBold, "Booting distro '"@ + name + "'..."@))).push(
        must(ActionOf::CreateDirs { path: distro_path(name, "diff"@) }),
    ).push(must(ActionOf::CreateDirs { path: distro_path(name, "work"@) })).push(
        must(ActionOf::CreateDirs { path: distro_path(name, "merged"@) }),
    ).push(attempt(ActionOf::Unmount { target: distro_path(name, "merged"@) })).push(
        explained(
            ActionOf::Mount {
                source: Some("overlay"@),
                target: distro_path(name, "merged"@),
                fstype: Some("overlay"@),
                flags: MountFlags::Plain,
                data: Some(overlay_options(name)),
            },
            FaultKind::Other,
            "Failed to mount overlayfs on host: "@,
        ),
    )
}

fn stack(name: &str) -> (r: Steps)
    ensures
        r@ == stack_steps(name@),
{
    Steps::new().say(Style::BlueBold, "Booting distro '".to_owned().concat(name).concat("'...")).must(
        ActionOf::CreateDirs { path: get_distro_path(name, "diff") },
    ).must(ActionOf::CreateDirs { path: get_distro_path(name, "work") }).must(
        ActionOf::CreateDirs { path: get_distro_path(name, "merged") },
    ).attempt(ActionOf::Unmount { target: get_distro_path(name, "merged") }).explained(
        ActionOf::Mount {
            source: Some("overlay".to_owned()),
            target: get_distro_path(name, "merged"),
            fstype: Some("overlay".to_owned()),
            flags: MountFlags::Plain,
            data: Some(stack_options(name)),
        },
        FaultKind::Other,
        "Failed to mount overlayfs on host: ",
    )
}

/// Letting every user of the guest send pings and the members of two groups become
/// the superuser; asking who runs the program.
pub open spec fn adjust_steps(name: Seq<char>) -> Seq<StepView> {
    no_steps().push(only_if(merged_path(name, "bin/ping"@), true, 1)).push(
        attempt(command("chmod"@, no_words().push("u+s"@).push(merged_path(name, "bin/ping"@)))),
    ).push(only_if(merged_path(name, "usr/bin/ping"@), true, 1)).push(
        attempt(
            command("chmod"@, no_words().push("u+s"@).push(merged_path(name, "usr/bin/ping"@))),
        ),
    ).push(attempt(ActionOf::CreateDirs { path: merged_path(name, "etc/sudoers.d"@) })).push(
        leading(
            ActionOf::CreateFile {
                path: path_join(merged_path(name, "etc/sudoers.d"@), "lsl-sudoers"@),
            },
            2,
        ),
    ).push(
        attempt(
            ActionOf::WriteText {
                path: path_join(merged_path(name, "etc/sudoers.d"@), "lsl-sudoers"@),
                text: "%sudo ALL=(ALL:ALL) ALL\n%wheel ALL=(ALL:ALL) ALL\n"@,
            },
        ),
    ).push(
        attempt(
            ActionOf::SetMode {
                path: path_join(merged_path(name, "etc/sudoers.d"@), "lsl-sudoers"@),
                mode: 0o440,
            },
        ),
    ).push(attempt(ActionOf::AskUser))
}

fn adjust(name: &str) -> (r: Steps)
    ensures
        r@ == adjust_steps(name@),
{
    Steps::new().only_if(get_merged_path(name, "bin/ping"), true, 1).attempt(
        run("chmod", words().with("u+s").with(get_merged_path(name, "bin/ping").as_str())),
    ).only_if(get_merged_path(name, "usr/bin/ping"), true, 1).attempt(
        run("chmod", words().with("u+s").with(get_merged_path(name, "usr/bin/ping").as_str())),
    ).attempt(ActionOf::CreateDirs { path: get_merged_path(name, "etc/sudoers.d") }).leading(
        ActionOf::CreateFile {
            path: join_path(get_merged_path(name, "etc/sudoers.d").as_str(), "lsl-sudoers"),
        },
        2,
    ).attempt(
        ActionOf::WriteText {
            path: join_path(get_merged_path(name, "etc/sudoers.d").as_str(), "lsl-sudoers"),
            text: "%sudo ALL=(ALL:ALL) ALL\n%wheel ALL=(ALL:ALL) ALL\n".to_owned(),
        },
    ).attempt(
        ActionOf::SetMode {
            path: join_path(get_merged_path(name, "etc/sudoers.d").as_str(), "lsl-sudoers"),
            mode: 0o440,
        },
    ).attempt(ActionOf::AskUser)
}

/// Putting together the file system of the guest.
pub open spec fn prepare_steps(name: Seq<char>) -> Seq<StepView> {
    stack_steps(name) + adjust_steps(name)
}

fn prepare(name: &str) -> (r: Steps)
    ensures
        r@ == prepare_steps(name@),
{
    stack(name).then_all(adjust(name))
}

/// Opening the pipe through which the number of the init process comes back, and
/// forking.
pub open spec fn split_steps() -> Seq<StepView> {
    no_steps().push(explained(ActionOf::OpenPipe, FaultKind::Other, "Failed to create pipe: "@)).push(
        explained(ActionOf::Fork, FaultKind::Other, "Fork failed: "@),
    )
}

fn split() -> (r: Steps)
    ensures
        r@ == split_steps(),
{
    Steps::new().explained(ActionOf::OpenPipe, FaultKind::Other, "Failed to create pipe: ").explained(
        ActionOf::Fork,
        FaultKind::Other,
        "Fork failed: ",
    )
}

// ------------------------------------------------------------------- on the host

/// Waiting for the middle process to end and for what it sent.
pub open spec fn receive_steps(child: i32) -> Seq<StepView> {
    no_steps().push(attempt(ActionOf::CloseWriter)).push(attempt(ActionOf::Wait { child })).push(
        needed(ActionOf::ReceivePid, "Failed to read guest init PID from pipe"@),
    )
}

fn receive(child: i32) -> (r: Steps)
    ensures
        r@ == receive_steps(child),
{
    Steps::new().attempt(ActionOf::CloseWriter).attempt(ActionOf::Wait { child }).needed(
        ActionOf::ReceivePid,
        "Failed to read guest init PID from pipe",
    )
}

/// A file of a process in which the users or groups of its namespace are mapped.
pub open spec fn id_map(pid: u32, file: Seq<char>) -> Seq<char> {
    "/proc/"@ + decimal(pid as nat) + "/"@ + file
}

fn id_map_path(pid: u32, file: &str) -> (r: String)
    ensures
        r@ == id_map(pid, file@),
{
    "/proc/".to_owned().concat(format_decimal(pid).as_str()).concat("/").concat(file)
}

/// Making every user and group of the guest the one with the same number on the
/// host, and giving the init process a moment before it is looked for.
pub open spec fn probe_steps(pid: u32) -> Seq<StepView> {
    no_steps().push(
        attempt(
            ActionOf::WriteText { path: id_map(pid, "uid_map"@), text: "0 0 4294967295\n"@ },
        ),
    ).push(
        attempt(
            ActionOf::WriteText { path: id_map(pid, "gid_map"@), text: "0 0 4294967295\n"@ },
        ),
    ).push(attempt(ActionOf::Sleep { millis: 150 })).push(attempt(ActionOf::Probe { pid }))
}

fn probe(pid: u32) -> (r: Steps)
    ensures
        r@ == probe_steps(pid),
{
    Steps::new().attempt(
        ActionOf::WriteText {
            path: id_map_path(pid, "uid_map"),
            text: "0 0 4294967295\n".to_owned(),
        },
    ).attempt(
        ActionOf::WriteText {
            path: id_map_path(pid, "gid_map"),
            text: "0 0 4294967295\n".to_owned(),
        },
    ).attempt(ActionOf::Sleep { millis: 150 }).attempt(ActionOf::Probe { pid })
}

/// Giving the place in the home to the user and making the guest's files appear there.
pub open spec fn expose_steps(
    name: Seq<char>,
    home: Seq<char>,
    uid: u32,
    gid: u32,
    pid: u32,
) -> Seq<StepView> {
    no_steps().push(attempt(ActionOf::SetOwner { path: path_join(home, "LSL"@), uid, gid })).push(
        attempt(ActionOf::SetOwner { path: host_mount(home, name), uid, gid }),
    ).push(
        attempt(
            ActionOf::Mount {
                source: Some(distro_path(name, "merged"@)),
                target: host_mount(home, name),
                fstype: Some("none"@),
                flags: MountFlags::Bind,
                data: None,
            },
        ),
    ).push(
        attempt(
            line(
                Style::Green,
                "Distro '"@ + name + "' booted successfully (PID "@ + decimal(pid as nat) + ")."@,
            ),
        ),
    )
}

fn expose(name: &str, home: &str, uid: u32, gid: u32, pid: u32) -> (r: Steps)
    ensures
        r@ == expose_steps(name@, home@, uid, gid, pid),
{
    Steps::new().attempt(ActionOf::SetOwner { path: join_path(home, "LSL"), uid, gid }).attempt(
        ActionOf::SetOwner { path: host_mount_path(home, name), uid, gid },
    ).attempt(
        ActionOf::Mount {
            source: Some(get_distro_path(name, "merged")),
            target: host_mount_path(home, name),
            fstype: Some("none".to_owned()),
            flags: MountFlags::Bind,
            data: None,
        },
    ).say(
        Style::Green,
        "Distro '".to_owned().concat(name).concat("' booted successfully (PID ").concat(
            format_decimal(pid).as_str(),
        ).concat(")."),
    )
}

/// What is told of an init process that is gone.
pub open spec fn early_end(connected: bool) -> Seq<char> {
    if connected {
        "Subsystem init process exited early after network setup"@
    } else {
        "Subsystem init process exited early"@
    }
}

/// The error for an init process that is gone.
pub open spec fn dead_init(report: Seq<char>) -> TurnView<BootStageView> {
    failing(FaultKind::Other, "Subsystem init process failed to boot:\n"@ + report)
}

fn take_dead(report: &str) -> (r: Turn<BootStage>)
    ensures
        turned(r) == dead_init(report@),
{
    let message: String = "Subsystem init process failed to boot:\n".to_owned().concat(report);
    TurnOf::End { result: Err(FaultOf { kind: FaultKind::Other, message }) }
}

/// Whether a process that was signalled is there: the signal went through, or was
/// denied by someone.
pub open spec fn alive(reply: ReplyView) -> bool {
    reply matches ReplyOf::Probed { delivered, denied } && (delivered || denied)
}

fn is_alive(reply: &Reply) -> (r: bool)
    ensures
        r == alive(reply@),
{
    match reply {
        ReplyOf::Probed { delivered, denied } => *delivered || *denied,
        _ => false,
    }
}

/// The turn to the log of an init process that is gone.
pub open spec fn dead_turn(name: Seq<char>, connected: bool) -> TurnView<BootStageView> {
    TurnOf::Go {
        stage: BootStageOf::Dead { name, connected },
        steps: no_steps().push(attempt(ActionOf::Exists { path: boot_log(name) })),
    }
}

fn take_log(name: String, connected: bool) -> (r: Turn<BootStage>)
    ensures
        turned(r) == dead_turn(name@, connected),
{
    let path: String = boot_log_path(name.as_str());
    TurnOf::Go {
        stage: BootStageOf::Dead { name, connected },
        steps: Steps::new().attempt(ActionOf::Exists { path }),
    }
}

// --------------------------------------------------------------- the middle process

/// Leaving the host's namespaces, all of them, and forking into the new process
/// namespace.
pub open spec fn part_steps() -> Seq<StepView> {
    no_steps().push(attempt(ActionOf::CloseReader)).push(
        must(
            ActionOf::Unshare {
                kinds: Kinds { user: true, mnt: true, uts: true, ipc: true, net: true, pid: true },
            },
        ),
    ).push(
        attempt(
            ActionOf::Mount {
                source: None,
                target: "/"@,
                fstype: None,
                flags: MountFlags::PrivateTree,
                data: None,
            },
        ),
    ).push(must(ActionOf::Fork))
}

fn part() -> (r: Steps)
    ensures
        r@ == part_steps(),
{
    Steps::new().attempt(ActionOf::CloseReader).must(
        ActionOf::Unshare {
            kinds: Kinds { user: true, mnt: true, uts: true, ipc: true, net: true, pid: true },
        },
    ).attempt(
        ActionOf::Mount {
            source: None,
            target: "/".to_owned(),
            fstype: None,
            flags: MountFlags::PrivateTree,
            data: None,
        },
    ).must(ActionOf::Fork)
}

/// A turn that ends the middle process.
pub open spec fn leave_turn(steps: Seq<StepView>, code: i32) -> TurnView<BootStageView> {
    TurnOf::Go { stage: BootStageOf::Leave, steps: steps.push(attempt(ActionOf::Exit { code })) }
}

fn take_leave(steps: Steps, code: i32) -> (r: Turn<BootStage>)
    ensures
        turned(r) == leave_turn(steps@, code),
{
    TurnOf::Go { stage: BootStageOf::Leave, steps: steps.attempt(ActionOf::Exit { code }) }
}

// -------------------------------------------------------------------- in the guest

/// The host name of a guest, given what its file holds: the name of the
/// distribution stands in for a missing one, and for the place holder that images
/// come with.
pub open spec fn guest_hostname(name: Seq<char>, content: Option<Seq<char>>) -> Seq<char> {
    match content {
        Some(text) => if trimmed(text) == "LXC_NAME"@ || trimmed(text).len() == 0 {
            "lsl-"@ + name
        } else {
            trimmed(text)
        },
        None => "lsl-"@ + name,
    }
}

/// Finds the host name of a guest.
pub fn pick_hostname(name: &str, content: Option<&str>) -> (r: String)
    ensures
        r@ == guest_hostname(name@, crate::accounts::slice_text(content)),
{
    match content {
        Some(text) => {
            let found: String = trim(text);
            if same(found.as_str(), "LXC_NAME") || found.as_str().is_empty() {
                "lsl-".to_owned().concat(name)
            } else {
                found
            }
        },
        None => "lsl-".to_owned().concat(name),
    }
}

/// The first steps of the init process: it waits until the host has mapped its
/// users, and reads its host name.
pub open spec fn name_steps(name: Seq<char>) -> Seq<StepView> {
    no_steps().push(attempt(ActionOf::CloseWriter)).push(
        attempt(ActionOf::Redirect { path: boot_log(name) }),
    ).push(attempt(ActionOf::Sleep { millis: 50 })).push(
        attempt(
            ActionOf::ReadText { path: path_join(distro_path(name, "diff"@), "etc/hostname"@) },
        ),
    )
}

fn read_name(name: &str) -> (r: Steps)
    ensures
        r@ == name_steps(name@),
{
    Steps::new().attempt(ActionOf::CloseWriter).attempt(
        ActionOf::Redirect { path: boot_log_path(name) },
    ).attempt(ActionOf::Sleep { millis: 50 }).attempt(
        ActionOf::ReadText {
            path: join_path(get_distro_path(name, "diff").as_str(), "etc/hostname"),
        },
    )
}

/// A directory that appears at another place, or once more at its own, with all that
/// is mounted below it.
pub open spec fn shared(source: Seq<char>, target: Seq<char>) -> StepView {
    attempt(
        ActionOf::Mount {
            source: Some(source),
            target,
            fstype: None,
            flags: MountFlags::BindTree,
            data: None,
        },
    )
}

/// Setting the host name, making the guest's files a mount of the guest's own, which
/// it may take as its root, and mounting in it what the kernel offers.
pub open spec fn kernel_steps(name: Seq<char>, hostname: Seq<char>) -> Seq<StepView> {
    no_steps().push(attempt(ActionOf::SetHostname { name: hostname })).push(
        shared(distro_path(name, "merged"@), distro_path(name, "merged"@)),
    ).push(
        vital(
            ActionOf::CreateDirs { path: merged_path(name, "proc"@) },
            "called `Result::unwrap()` on an `Err` value: "@,
        ),
    ).push(
        vital(
            ActionOf::Mount {
                source: Some("proc"@),
                target: merged_path(name, "proc"@),
                fstype: Some("proc"@),
                flags: MountFlags::Plain,
                data: None,
            },
            "Failed to mount procfs: "@,
        ),
    ).push(
        vital(
            ActionOf::CreateDirs { path: merged_path(name, "sys"@) },
            "called `Result::unwrap()` on an `Err` value: "@,
        ),
    ).push(
        vital(
            ActionOf::Mount {
                source: Some("sysfs"@),
                target: merged_path(name, "sys"@),
                fstype: Some("sysfs"@),
                flags: MountFlags::Plain,
                data: None,
            },
            "Failed to mount sysfs: "@,
        ),
    ).push(
        vital(
            ActionOf::CreateDirs { path: merged_path(name, "dev"@) },
            "called `Result::unwrap()` on an `Err` value: "@,
        ),
    ).push(
        vital(
            ActionOf::Mount {
                source: Some("/dev"@),
                target: merged_path(name, "dev"@),
                fstype: None,
                flags: MountFlags::BindTree,
                data: None,
            },
            "Failed to bind mount /dev: "@,
        ),
    ).push(
        vital(
            ActionOf::CreateDirs { path: path_join(merged_path(name, "dev"@), "pts"@) },
            "called `Result::unwrap()` on an `Err` value: "@,
        ),
    ).push(
        vital(
            ActionOf::Mount {
                source: Some("devpts"@),
                target: path_join(merged_path(name, "dev"@), "pts"@),
                fstype: Some("devpts"@),
                flags: MountFlags::Plain,
                data: Some("newinstance,ptmxmode=0666,mode=620"@),
            },
            "Failed to mount devpts: "@,
        ),
    )
}

fn mount_kernel(name: &str, hostname: &str) -> (r: Steps)
    ensures
        r@ == kernel_steps(name@, hostname@),
{
    Steps::new().attempt(ActionOf::SetHostname { name: hostname.to_owned() }).attempt(
        ActionOf::Mount {
            source: Some(get_distro_path(name, "merged")),
            target: get_distro_path(name, "merged"),
            fstype: None,
            flags: MountFlags::BindTree,
            data: None,
        },
    ).vital(
        ActionOf::CreateDirs { path: get_merged_path(name, "proc") },
        "called `Result::unwrap()` on an `Err` value: ",
    ).vital(
        ActionOf::Mount {
            source: Some("proc".to_owned()),
            target: get_merged_path(name, "proc"),
            fstype: Some("proc".to_owned()),
            flags: MountFlags::Plain,
            data: None,
        },
        "Failed to mount procfs: ",
    ).vital(
        ActionOf::CreateDirs { path: get_merged_path(name, "sys") },
        "called `Result::unwrap()` on an `Err` value: ",
    ).vital(
        ActionOf::Mount {
            source: Some("sysfs".to_owned()),
            target: get_merged_path(name, "sys"),
            fstype: Some("sysfs".to_owned()),
            flags: MountFlags::Plain,
            data: None,
        },
        "Failed to mount sysfs: ",
    ).vital(
        ActionOf::CreateDirs { path: get_merged_path(name, "dev") },
        "called `Result::unwrap()` on an `Err` value: ",
    ).vital(
        ActionOf::Mount {
            source: Some("/dev".to_owned()),
            target: get_merged_path(name, "dev"),
            fstype: None,
            flags: MountFlags::BindTree,
            data: None,
        },
        "Failed to bind mount /dev: ",
    ).vital(
        ActionOf::CreateDirs { path: join_path(get_merged_path(name, "dev").as_str(), "pts") },
        "called `Result::unwrap()` on an `Err` value: ",
    ).vital(
        ActionOf::Mount {
            source: Some("devpts".to_owned()),
            target: join_path(get_merged_path(name, "dev").as_str(), "pts"),
            fstype: Some("devpts".to_owned()),
            flags: MountFlags::Plain,
            data: Some("newinstance,ptmxmode=0666,mode=620".to_owned()),
        },
        "Failed to mount devpts: ",
    )
}

/// Mounting the guest's own temporary directories, and in them the host's sockets for
/// graphics and sound.
pub open spec fn share_steps(name: Seq<char>, uid: u32) -> Seq<StepView> {
    no_steps().push(
        vital(
            ActionOf::CreateDirs { path: merged_path(name, "tmp"@) },
            "called `Result::unwrap()` on an `Err` value: "@,
        ),
    ).push(
        vital(
            ActionOf::Mount {
                source: Some("tmpfs"@),
                target: merged_path(name, "tmp"@),
                fstype: Some("tmpfs"@),
                flags: MountFlags::Plain,
                data: Some("mode=1777"@),
            },
            "Failed to mount tmpfs on /tmp: "@,
        ),
    ).push(only_if("/tmp/.X11-unix"@, true, 2)).push(
        vital(
            ActionOf::CreateDirs { path: path_join(merged_path(name, "tmp"@), ".X11-unix"@) },
            "called `Result::unwrap()` on an `Err` value: "@,
        ),
    ).push(
        attempt(
            ActionOf::Mount {
                source: Some("/tmp/.X11-unix"@),
                target: path_join(merged_path(name, "tmp"@), ".X11-unix"@),
                fstype: None,
                flags: MountFlags::BindTree,
                data: None,
            },
        ),
    ).push(
        vital(
            ActionOf::CreateDirs { path: merged_path(name, "run"@) },
            "called `Result::unwrap()` on an `Err` value: "@,
        ),
    ).push(
        vital(
            ActionOf::Mount {
                source: Some("tmpfs"@),
                target: merged_path(name, "run"@),
                fstype: Some("tmpfs"@),
                flags: MountFlags::Plain,
                data: Some("mode=755"@),
            },
            "Failed to mount tmpfs on /run: "@,
        ),
    ).push(only_if("/run/user/"@ + decimal(uid as nat), true, 2)).push(
        vital(
            ActionOf::CreateDirs {
                path: path_join(path_join(merged_path(name, "run"@), "user"@), decimal(uid as nat)),
            },
            "called `Result::unwrap()` on an `Err` value: "@,
        ),
    ).push(
        attempt(
            ActionOf::Mount {
                source: Some("/run/user/"@ + decimal(uid as nat)),
                target: path_join(
                    path_join(merged_path(name, "run"@), "user"@),
                    decimal(uid as nat),
                ),
                fstype: None,
                flags: MountFlags::BindTree,
                data: None,
            },
        ),
    )
}

fn share(name: &str, uid: u32) -> (r: Steps)
    ensures
        r@ == share_steps(name@, uid),
{
    Steps::new().vital(
        ActionOf::CreateDirs { path: get_merged_path(name, "tmp") },
        "called `Result::unwrap()` on an `Err` value: ",
    ).vital(
        ActionOf::Mount {
            source: Some("tmpfs".to_owned()),
            target: get_merged_path(name, "tmp"),
            fstype: Some("tmpfs".to_owned()),
            flags: MountFlags::Plain,
            data: Some("mode=1777".to_owned()),
        },
        "Failed to mount tmpfs on /tmp: ",
    ).only_if("/tmp/.X11-unix".to_owned(), true, 2).vital(
        ActionOf::CreateDirs {
            path: join_path(get_merged_path(name, "tmp").as_str(), ".X11-unix"),
        },
        "called `Result::unwrap()` on an `Err` value: ",
    ).attempt(
        ActionOf::Mount {
            source: Some("/tmp/.X11-unix".to_owned()),
            target: join_path(get_merged_path(name, "tmp").as_str(), ".X11-unix"),
            fstype: None,
            flags: MountFlags::BindTree,
            data: None,
        },
    ).vital(
        ActionOf::CreateDirs { path: get_merged_path(name, "run") },
        "called `Result::unwrap()` on an `Err` value: ",
    ).vital(
        ActionOf::Mount {
            source: Some("tmpfs".to_owned()),
            target: get_merged_path(name, "run"),
            fstype: Some("tmpfs".to_owned()),
            flags: MountFlags::Plain,
            data: Some("mode=755".to_owned()),
        },
        "Failed to mount tmpfs on /run: ",
    ).only_if("/run/user/".to_owned().concat(format_decimal(uid).as_str()), true, 2).vital(
        ActionOf::CreateDirs {
            path: join_path(
                join_path(get_merged_path(name, "run").as_str(), "user").as_str(),
                format_decimal(uid).as_str(),
            ),
        },
        "called `Result::unwrap()` on an `Err` value: ",
    ).attempt(
        ActionOf::Mount {
            source: Some("/run/user/".to_owned().concat(format_decimal(uid).as_str())),
            target: join_path(
                join_path(get_merged_path(name, "run").as_str(), "user").as_str(),
                format_decimal(uid).as_str(),
            ),
            fstype: None,
            flags: MountFlags::BindTree,
            data: None,
        },
    )
}

/// Making the host's home directories appear, naming the servers that resolve names, and
/// changing the root.
pub open spec fn home_steps(name: Seq<char>) -> Seq<StepView> {
    no_steps().push(
        vital(
            ActionOf::CreateDirs { path: merged_path(name, "mnt/host"@) },
            "called `Result::unwrap()` on an `Err` value: "@,
        ),
    ).push(
        attempt(
            ActionOf::Mount {
                source: Some("/home"@),
                target: merged_path(name, "mnt/host"@),
                fstype: None,
                flags: MountFlags::BindTree,
                data: None,
            },
        ),
    ).push(
        vital(
            ActionOf::CreateDirs { path: merged_path(name, "etc"@) },
            "called `Result::unwrap()` on an `Err` value: "@,
        ),
    ).push(
        attempt(
            ActionOf::WriteText {
                path: path_join(merged_path(name, "etc"@), "resolv.conf"@),
                text: "nameserver 1.1.1.1\nnameserver 8.8.8.8\n"@,
            },
        ),
    ).push(attempt(ActionOf::CreateDirs { path: merged_path(name, ".old_root"@) })).push(
        attempt(
            ActionOf::PivotRoot {
                root: distro_path(name, "merged"@),
                old: merged_path(name, ".old_root"@),
            },
        ),
    )
}

fn bring_home(name: &str) -> (r: Steps)
    ensures
        r@ == home_steps(name@),
{
    Steps::new().vital(
        ActionOf::CreateDirs { path: get_merged_path(name, "mnt/host") },
        "called `Result::unwrap()` on an `Err` value: ",
    ).attempt(
        ActionOf::Mount {
            source: Some("/home".to_owned()),
            target: get_merged_path(name, "mnt/host"),
            fstype: None,
            flags: MountFlags::BindTree,
            data: None,
        },
    ).vital(
        ActionOf::CreateDirs { path: get_merged_path(name, "etc") },
        "called `Result::unwrap()` on an `Err` value: ",
    ).attempt(
        ActionOf::WriteText {
            path: join_path(get_merged_path(name, "etc").as_str(), "resolv.conf"),
            text: "nameserver 1.1.1.1\nnameserver 8.8.8.8\n".to_owned(),
        },
    ).attempt(ActionOf::CreateDirs { path: get_merged_path(name, ".old_root") }).attempt(
        ActionOf::PivotRoot {
            root: get_distro_path(name, "merged"),
            old: get_merged_path(name, ".old_root"),
        },
    )
}

/// All that is mounted in the guest.
pub open spec fn inside_steps(name: Seq<char>, uid: u32, hostname: Seq<char>) -> Seq<StepView> {
    kernel_steps(name, hostname) + share_steps(name, uid) + home_steps(name)
}

/// The turn into the guest; a host name that no C string can hold is beyond help.
pub open spec fn inside_turn(name: Seq<char>, uid: u32, hostname: Seq<char>) -> TurnView<
    BootStageView,
> {
    if hostname.contains('\0') {
        failing(
            FaultKind::Panic,
            "called `Result::unwrap()` on an `Err` value: nul byte found in host name"@,
        )
    } else {
        TurnOf::Go {
            stage: BootStageOf::Inside { name },
            steps: inside_steps(name, uid, hostname),
        }
    }
}

fn take_inside(name: String, uid: u32, hostname: String) -> (r: Turn<BootStage>)
    ensures
        turned(r) == inside_turn(name@, uid, hostname@),
{
    if has_char(hostname.as_str(), '\0') {
        TurnOf::End {
            result: Err(
                fault(
                    FaultKind::Panic,
                    "called `Result::unwrap()` on an `Err` value: nul byte found in host name",
                ),
            ),
        }
    } else {
        let steps: Steps = mount_kernel(name.as_str(), hostname.as_str()).then_all(
            share(name.as_str(), uid),
        ).then_all(bring_home(name.as_str()));
        TurnOf::Go { stage: BootStageOf::Inside { name }, steps }
    }
}

/// Going to the new root and letting go of the old one.
pub open spec fn pivoted_steps() -> Seq<StepView> {
    no_steps().push(vital(ActionOf::ChangeDir { path: "/"@ }, "Failed to chdir inside rootfs: "@)).push(
        attempt(ActionOf::Unmount { target: "/.old_root"@ }),
    ).push(attempt(ActionOf::RemoveDir { path: "/.old_root"@ }))
}

fn leave_old_root() -> (r: Steps)
    ensures
        r@ == pivoted_steps(),
{
    Steps::new().vital(
        ActionOf::ChangeDir { path: "/".to_owned() },
        "Failed to chdir inside rootfs: ",
    ).attempt(ActionOf::Unmount { target: "/.old_root".to_owned() }).attempt(
        ActionOf::RemoveDir { path: "/.old_root".to_owned() },
    )
}

/// Changing the root without a pivot.
pub open spec fn rooted_steps(name: Seq<char>) -> Seq<StepView> {
    no_steps().push(
        vital(
            ActionOf::ChangeRoot { path: distro_path(name, "merged"@) },
            "Failed to chroot into rootfs: "@,
        ),
    ).push(vital(ActionOf::ChangeDir { path: "/"@ }, "Failed to chdir inside rootfs: "@))
}

fn change_root(name: &str) -> (r: Steps)
    ensures
        r@ == rooted_steps(name@),
{
    Steps::new().vital(
        ActionOf::ChangeRoot { path: get_distro_path(name, "merged") },
        "Failed to chroot into rootfs: ",
    ).vital(ActionOf::ChangeDir { path: "/".to_owned() }, "Failed to chdir inside rootfs: ")
}

// ------------------------------------------------------------------------- plan

impl Plan for BootStage {
    open spec fn rank(stage: BootStageView) -> nat {
        match stage {
            BootStageOf::Load { name } => 12,
            BootStageOf::Prepare { job } => 11,
            BootStageOf::Split { job, uid } => 10,
            BootStageOf::Receive { job } => 9,
            BootStageOf::Probe { job, pid } => 8,
            BootStageOf::Connect { job, pid } => 7,
            BootStageOf::Unconnected { fault } => 0,
            BootStageOf::ProbeAgain { name, pid } => 6,
            BootStageOf::Dead { name, connected } => 1,
            BootStageOf::DeadLog => 0,
            BootStageOf::Record { name, pid } => 5,
            BootStageOf::Place { name, pid, home } => 4,
            BootStageOf::Expose { pid } => 0,
            BootStageOf::Part { name, uid } => 4,
            BootStageOf::Leave => 0,
            BootStageOf::Name { name, uid } => 3,
            BootStageOf::BaseName { name, uid } => 2,
            BootStageOf::Inside { name } => 1,
            BootStageOf::Pivoted => 0,
            BootStageOf::Rooted => 0,
        }
    }

    open spec fn next(stage: BootStageView, reply: ReplyView) -> TurnView<BootStageView> {
        match stage {
            BootStageOf::Load { name } => match reply {
                ReplyOf::Config { config } => match lookup(config.distros, name) {
                    Some(d) => TurnOf::Go {
                        stage: BootStageOf::Prepare {
                            job: JobOf { name, ip: d.ip_address, mac: d.mac_address },
                        },
                        steps: prepare_steps(name),
                    },
                    None => failing(
                        FaultKind::NotFound,
                        "Distro '"@ + name + "' not registered"@,
                    ),
                },
                _ => stray(),
            },
            BootStageOf::Prepare { job } => match reply {
                ReplyOf::User { name, uid, gid } => TurnOf::Go {
                    stage: BootStageOf::Split { job, uid },
                    steps: split_steps(),
                },
                _ => stray(),
            },
            BootStageOf::Split { job, uid } => match reply {
                ReplyOf::Forked { child } => match child {
                    Some(c) => TurnOf::Go {
                        stage: BootStageOf::Receive { job },
                        steps: receive_steps(c),
                    },
                    None => TurnOf::Go {
                        stage: BootStageOf::Part { name: job.name, uid },
                        steps: part_steps(),
                    },
                },
                _ => stray(),
            },
            BootStageOf::Receive { job } => match reply {
                ReplyOf::Received { number } => TurnOf::Go {
                    stage: BootStageOf::Probe { job, pid: number as u32 },
                    steps: probe_steps(number as u32),
                },
                _ => stray(),
            },
            BootStageOf::Probe { job, pid } => if alive(reply) {
                TurnOf::Go {
                    stage: BootStageOf::Connect { job, pid },
                    steps: no_steps().push(
                        must(
                            ActionOf::SetUpNetwork { name: job.name, pid, ip: job.ip, mac: job.mac },
                        ),
                    ),
                }
            } else {
                dead_turn(job.name, false)
            },
            BootStageOf::Connect { job, pid } => TurnOf::Go {
                stage: BootStageOf::ProbeAgain { name: job.name, pid },
                steps: no_steps().push(attempt(ActionOf::Probe { pid })),
            },
            BootStageOf::Unconnected { fault } => TurnOf::End { result: Err(fault) },
            BootStageOf::ProbeAgain { name, pid } => if alive(reply) {
                TurnOf::Go {
                    stage: BootStageOf::Record { name, pid },
                    steps: no_steps().push(
                        must(
                            ActionOf::WriteText {
                                path: pid_file(name),
                                text: decimal(pid as nat),
                            },
                        ),
                    ).push(attempt(ActionOf::AskHome)),
                }
            } else {
                dead_turn(name, true)
            },
            BootStageOf::Dead { name, connected } => if reply == (ReplyView::Found {
                exists: true,
            }) {
                TurnOf::Go {
                    stage: BootStageOf::DeadLog,
                    steps: no_steps().push(attempt(ActionOf::ReadText { path: boot_log(name) })),
                }
            } else {
                dead_init(early_end(connected))
            },
            BootStageOf::DeadLog => match reply {
                ReplyOf::Text { text } => dead_init(text),
                _ => dead_init("Unknown initialization error"@),
            },
            BootStageOf::Record { name, pid } => match reply {
                ReplyOf::Text { text } => TurnOf::Go {
                    stage: BootStageOf::Place { name, pid, home: text },
                    steps: no_steps().push(
                        attempt(ActionOf::CreateDirs { path: host_mount(text, name) }),
                    ).push(attempt(ActionOf::AskUser)),
                },
                _ => stray(),
            },
            BootStageOf::Place { name, pid, home } => match reply {
                ReplyOf::User { name: user, uid, gid } => TurnOf::Go {
                    stage: BootStageOf::Expose { pid },
                    steps: expose_steps(name, home, uid, gid, pid),
                },
                _ => stray(),
            },
            BootStageOf::Expose { pid } => giving(ValueOf::Pid { pid }),
            BootStageOf::Part { name, uid } => match reply {
                ReplyOf::Forked { child } => match child {
                    Some(c) => leave_turn(
                        no_steps().push(attempt(ActionOf::SendPid { child: c })),
                        0,
                    ),
                    None => TurnOf::Go {
                        stage: BootStageOf::Name { name, uid },
                        steps: name_steps(name),
                    },
                },
                _ => stray(),
            },
            BootStageOf::Leave => stray(),
            BootStageOf::Name { name, uid } => match reply {
                ReplyOf::Text { text } => inside_turn(name, uid, guest_hostname(name, Some(text))),
                _ => TurnOf::Go {
                    stage: BootStageOf::BaseName { name, uid },
                    steps: no_steps().push(
                        attempt(
                            ActionOf::ReadText {
                                path: path_join(distro_path(name, "rootfs"@), "etc/hostname"@),
                            },
                        ),
                    ),
                },
            },
            BootStageOf::BaseName { name, uid } => match reply {
                ReplyOf::Text { text } => inside_turn(name, uid, guest_hostname(name, Some(text))),
                _ => inside_turn(name, uid, guest_hostname(name, None)),
            },
            BootStageOf::Inside { name } => if reply is Failed {
                TurnOf::Go { stage: BootStageOf::Rooted, steps: rooted_steps(name) }
            } else {
                TurnOf::Go { stage: BootStageOf::Pivoted, steps: pivoted_steps() }
            },
            BootStageOf::Pivoted => giving(ValueOf::Nothing),
            BootStageOf::Rooted => giving(ValueOf::Nothing),
        }
    }

    open spec fn halted(stage: BootStageView, fault: FaultView, clean: bool) -> TurnView<
        BootStageView,
    > {
        match stage {
            BootStageOf::Connect { job, pid } => TurnOf::Go {
                stage: BootStageOf::Unconnected { fault },
                steps: no_steps().push(
                    attempt(
                        line(
                            Style::Yellow,
                            "Warning: Network configuration failed: "@ + fault.message,
                        ),
                    ),
                ),
            },
            BootStageOf::Part { name, uid } => leave_turn(no_steps(), 1),
            _ => TurnOf::End { result: Err(fault) },
        }
    }

    proof fn next_descends(stage: BootStageView, reply: ReplyView) {
    }

    proof fn halted_descends(stage: BootStageView, fault: FaultView, clean: bool) {
    }

    fn advance(self, reply: Reply) -> (r: Turn<Self>) {
        match self {
            BootStageOf::Load { name } => match reply {
                ReplyOf::Config { config } => match config.distros.get(name.as_str()) {
                    Some(d) => {
                        let steps: Steps = prepare(name.as_str());
                        let job: Job = JobOf {
                            name,
                            ip: d.ip_address.clone(),
                            mac: d.mac_address.clone(),
                        };
                        TurnOf::Go { stage: BootStageOf::Prepare { job }, steps }
                    },
                    None => {
                        let message: String = "Distro '".to_owned().concat(name.as_str()).concat(
                            "' not registered",
                        );
                        TurnOf::End { result: Err(FaultOf { kind: FaultKind::NotFound, message }) }
                    },
                },
                _ => take_stray(),
            },
            BootStageOf::Prepare { job } => match reply {
                ReplyOf::User { name, uid, gid } => TurnOf::Go {
                    stage: BootStageOf::Split { job, uid },
                    steps: split(),
                },
                _ => take_stray(),
            },
            BootStageOf::Split { job, uid } => match reply {
                ReplyOf::Forked { child } => match child {
                    Some(c) => TurnOf::Go {
                        stage: BootStageOf::Receive { job },
                        steps: receive(c),
                    },
                    None => TurnOf::Go {
                        stage: BootStageOf::Part { name: job.name, uid },
                        steps: part(),
                    },
                },
                _ => take_stray(),
            },
            BootStageOf::Receive { job } => match reply {
                ReplyOf::Received { number } => {
                    let pid: u32 = number as u32;
                    TurnOf::Go { stage: BootStageOf::Probe { job, pid }, steps: probe(pid) }
                },
                _ => take_stray(),
            },
            BootStageOf::Probe { job, pid } => if is_alive(&reply) {
                let setup: Action = ActionOf::SetUpNetwork {
                    name: job.name.clone(),
                    pid,
                    ip: job.ip.clone(),
                    mac: job.mac.clone(),
                };
                TurnOf::Go {
                    stage: BootStageOf::Connect { job, pid },
                    steps: Steps::new().must(setup),
                }
            } else {
                take_log(job.name, false)
            },
            BootStageOf::Connect { job, pid } => TurnOf::Go {
                stage: BootStageOf::ProbeAgain { name: job.name, pid },
                steps: Steps::new().attempt(ActionOf::Probe { pid }),
            },
            BootStageOf::Unconnected { fault } => TurnOf::End { result: Err(fault) },
            BootStageOf::ProbeAgain { name, pid } => if is_alive(&reply) {
                let path: String = pid_file_path(name.as_str());
                TurnOf::Go {
                    stage: BootStageOf::Record { name, pid },
                    steps: Steps::new().must(
                        ActionOf::WriteText { path, text: format_decimal(pid) },
                    ).attempt(ActionOf::AskHome),
                }
            } else {
                take_log(name, true)
            },
            BootStageOf::Dead { name, connected } => {
                let exists: bool = match reply {
                    ReplyOf::Found { exists } => exists,
                    _ => false,
                };
                if exists {
                    TurnOf::Go {
                        stage: BootStageOf::DeadLog,
                        steps: Steps::new().attempt(
                            ActionOf::ReadText { path: boot_log_path(name.as_str()) },
                        ),
                    }
                } else if connected {
                    take_dead("Subsystem init process exited early after network setup")
                } else {
                    take_dead("Subsystem init process exited early")
                }
            },
            BootStageOf::DeadLog => match reply {
                ReplyOf::Text { text } => take_dead(text.as_str()),
                _ => take_dead("Unknown initialization error"),
            },
            BootStageOf::Record { name, pid } => match reply {
                ReplyOf::Text { text } => {
                    let path: String = host_mount_path(text.as_str(), name.as_str());
                    TurnOf::Go {
                        stage: BootStageOf::Place { name, pid, home: text },
                        steps: Steps::new().attempt(ActionOf::CreateDirs { path }).attempt(
                            ActionOf::AskUser,
                        ),
                    }
                },
                _ => take_stray(),
            },
            BootStageOf::Place { name, pid, home } => match reply {
                ReplyOf::User { name: user, uid, gid } => TurnOf::Go {
                    stage: BootStageOf::Expose { pid },
                    steps: expose(name.as_str(), home.as_str(), uid, gid, pid),
                },
                _ => take_stray(),
            },
            BootStageOf::Expose { pid } => TurnOf::End { result: Ok(ValueOf::Pid { pid }) },
            BootStageOf::Part { name, uid } => match reply {
                ReplyOf::Forked { child } => match child {
                    Some(c) => take_leave(
                        Steps::new().attempt(ActionOf::SendPid { child: c }),
                        0,
                    ),
                    None => {
                        let steps: Steps = read_name(name.as_str());
                        TurnOf::Go { stage: BootStageOf::Name { name, uid }, steps }
                    },
                },
                _ => take_stray(),
            },
            BootStageOf::Leave => take_stray(),
            BootStageOf::Name { name, uid } => match reply {
                ReplyOf::Text { text } => {
                    let hostname: String = pick_hostname(name.as_str(), Some(text.as_str()));
                    take_inside(name, uid, hostname)
                },
                _ => {
                    let path: String = join_path(
                        get_distro_path(name.as_str(), "rootfs").as_str(),
                        "etc/hostname",
                    );
                    TurnOf::Go {
                        stage: BootStageOf::BaseName { name, uid },
                        steps: Steps::new().attempt(ActionOf::ReadText { path }),
                    }
                },
            },
            BootStageOf::BaseName { name, uid } => match reply {
                ReplyOf::Text { text } => {
                    let hostname: String = pick_hostname(name.as_str(), Some(text.as_str()));
                    take_inside(name, uid, hostname)
                },
                _ => {
                    let hostname: String = pick_hostname(name.as_str(), None);
                    take_inside(name, uid, hostname)
                },
            },
            BootStageOf::Inside { name } => match reply {
                ReplyOf::Failed { kind, error } => TurnOf::Go {
                    stage: BootStageOf::Rooted,
                    steps: change_root(name.as_str()),
                },
                _ => TurnOf::Go { stage: BootStageOf::Pivoted, steps: leave_old_root() },
            },
            BootStageOf::Pivoted => TurnOf::End { result: Ok(ValueOf::Nothing) },
            BootStageOf::Rooted => TurnOf::End { result: Ok(ValueOf::Nothing) },
        }
    }

    fn halt(self, fault: Fault, clean: bool) -> (r: Turn<Self>) {
        match self {
            BootStageOf::Connect { job, pid } => {
                let text: String = "Warning: Network configuration failed: ".to_owned().concat(
                    fault.message.as_str(),
                );
                TurnOf::Go {
                    stage: BootStageOf::Unconnected { fault },
                    steps: Steps::new().say(Style::Yellow, text),
                }
            },
            BootStageOf::Part { name, uid } => take_leave(Steps::new(), 1),
            _ => TurnOf::End { result: Err(fault) },
        }
    }
}

/// The task that boots a distribution.
pub open spec fn boot_task(name: Seq<char>) -> TaskView<BootStageView> {
    started(BootStageOf::Load { name }, no_steps().push(attempt(ActionOf::LoadConfig)))
}

/// Starts to boot a distribution. On the host the task gives the number of the
/// init process; in the init process itself it gives nothing.
pub fn boot_distro(name: &str) -> (r: Task<BootStage>)
    ensures
        r@ == boot_task(name@),
{
    let stage: BootStage = BootStageOf::Load { name: name.to_owned() };
    Task::start(stage, Steps::new().attempt(ActionOf::LoadConfig))
}

// ------------------------------------------------------------------------- laws

/// Which of the three processes a stage belongs to.
pub enum Side {
    Host,
    Middle,
    Guest,
}

/// The process that a stage belongs to.
pub open spec fn side(stage: BootStageView) -> Side {
    match stage {
        BootStageOf::Part { name, uid } => Side::Middle,
        BootStageOf::Leave => Side::Middle,
        BootStageOf::Name { name, uid } => Side::Guest,
        BootStageOf::BaseName { name, uid } => Side::Guest,
        BootStageOf::Inside { name } => Side::Guest,
        BootStageOf::Pivoted => Side::Guest,
        BootStageOf::Rooted => Side::Guest,
        _ => Side::Host,
    }
}

/// The three processes keep to their own stages: only a child that has just been
/// forked changes sides, and each side ends in its own way. The host gives the
/// number of the init process, the guest gives nothing, and the middle process
/// gives no result.
pub proof fn law_processes_keep_apart(stage: BootStageView, reply: ReplyView)
    ensures
        BootStage::next(stage, reply) matches TurnOf::Go { stage: s, steps } ==> side(s) == (
        if reply == (ReplyView::Forked { child: None }) && stage is Split {
            Side::Middle
        } else if reply == (ReplyView::Forked { child: None }) && stage is Part {
            Side::Guest
        } else {
            side(stage)
        }),
        BootStage::next(stage, reply) matches TurnOf::End { result: Ok(value) }
            ==> (side(stage) is Host && value is Pid) || (side(stage) is Guest && value
            is Nothing),
{
}

/// A guest is cut off from the host before its init process starts: the process in
/// between leaves the host's user, mount, host-name, message, network and process
/// namespaces, and gives up if it cannot; the guest's files become a mount of its own
/// before anything is mounted below them; and the old root is left behind right after
/// the pivot.
pub proof fn law_guest_is_cut_off(
    name: Seq<char>,
    uid: u32,
    hostname: Seq<char>,
    fault: FaultView,
    clean: bool,
)
    ensures
        inside_steps(name, uid, hostname)[0] == attempt(ActionOf::SetHostname { name: hostname }),
        inside_steps(name, uid, hostname)[1] == shared(
            distro_path(name, "merged"@),
            distro_path(name, "merged"@),
        ),
        inside_steps(name, uid, hostname).last().action == (ActionView::PivotRoot {
            root: distro_path(name, "merged"@),
            old: merged_path(name, ".old_root"@),
        }),
        part_steps()[1] == must(
            ActionOf::Unshare {
                kinds: Kinds { user: true, mnt: true, uts: true, ipc: true, net: true, pid: true },
            },
        ),
        part_steps().last() == must(ActionOf::Fork),
        BootStage::halted(BootStageOf::Part { name, uid }, fault, clean) == leave_turn(
            no_steps(),
            1,
        ),
        BootStage::next(BootStageOf::Inside { name }, ReplyOf::Done) == (TurnView::<
            BootStageView,
        >::Go { stage: BootStageOf::Pivoted, steps: pivoted_steps() }),
        pivoted_steps()[0].action == (ActionView::ChangeDir { path: "/"@ }),
        pivoted_steps()[1].action == (ActionView::Unmount { target: "/.old_root"@ }),
{
}

/// Only a registered distribution is booted.
pub proof fn law_only_registered_boots(name: Seq<char>, config: ConfigView)
    ensures
        BootStage::next(BootStageOf::Load { name }, ReplyOf::Config { config }) is Go
            <==> crate::config::registered(config.distros, name),
        !crate::config::registered(config.distros, name) ==> BootStage::next(
            BootStageOf::Load { name },
            ReplyOf::Config { config },
        ) == failing::<BootStageView>(
            FaultKind::NotFound,
            "Distro '"@ + name + "' not registered"@,
        ),
{
}

/// An init process is written down only if it was there after the network was set
/// up, and what is written down is found again.
pub proof fn law_only_the_living_are_recorded(stage: BootStageView, reply: ReplyView)
    ensures
        BootStage::next(stage, reply) matches TurnOf::Go {
            stage: BootStageOf::Record { name, pid },
            steps,
        } ==> stage == (BootStageView::ProbeAgain { name, pid }) && alive(reply) && steps[0]
            == must(ActionOf::WriteText { path: pid_file(name), text: decimal(pid as nat) })
            && recorded_pid(decimal(pid as nat)) == Some(pid),
{
    if let BootStageOf::ProbeAgain { name, pid } = stage {
        law_pid_file_reads_back(pid);
    }
}

/// The distribution that a stage on the host is about.
spec fn booted_name(stage: BootStageView) -> Option<Seq<char>> {
    match stage {
        BootStageOf::Load { name } => Some(name),
        BootStageOf::Prepare { job } => Some(job.name),
        BootStageOf::Split { job, uid } => Some(job.name),
        BootStageOf::Receive { job } => Some(job.name),
        BootStageOf::Probe { job, pid } => Some(job.name),
        BootStageOf::Connect { job, pid } => Some(job.name),
        BootStageOf::ProbeAgain { name, pid } => Some(name),
        BootStageOf::Record { name, pid } => Some(name),
        BootStageOf::Place { name, pid, home } => Some(name),
        _ => None,
    }
}

/// Writing down the init process of a distribution.
pub open spec fn recording(name: Seq<char>, pid: u32) -> ActionView {
    ActionOf::WriteText { path: pid_file(name), text: decimal(pid as nat) }
}

/// An action after which every file holds what it held before.
pub open spec fn spares_files(action: ActionView) -> bool {
    match action {
        ActionOf::AskHome => true,
        ActionOf::AskUser => true,
        ActionOf::CreateDirs { path } => true,
        ActionOf::SetOwner { path, uid, gid } => true,
        ActionOf::Mount { source, target, fstype, flags, data } => true,
        ActionOf::Say { lead, style, text, tail } => true,
        _ => false,
    }
}

/// The `k`-th action wrote the init process down, and those after it, up to the `n`-th,
/// left all files as they were.
pub open spec fn recorded_by(
    name: Seq<char>,
    pid: u32,
    replies: spec_fn(nat) -> ReplyView,
    k: nat,
    n: nat,
) -> bool {
    let t = boot_task(name);
    &&& k < n
    &&& pending(after_replies::<BootStage>(t, replies, k)) == Some(recording(name, pid))
    &&& !(replies(k) is Failed)
    &&& forall|m: nat|
        k < m < n ==> (pending(#[trigger] after_replies::<BootStage>(t, replies, m)) matches Some(
            action,
        ) && spares_files(action))
}

/// The init process was written down and is so still.
pub open spec fn is_recorded(
    name: Seq<char>,
    pid: u32,
    replies: spec_fn(nat) -> ReplyView,
    n: nat,
) -> bool {
    exists|k: nat| #[trigger] recorded_by(name, pid, replies, k, n)
}

/// What holds after any number of replies: the boot is about the distribution, and in
/// its last stages the init process is written down.
spec fn boots_so_far(name: Seq<char>, replies: spec_fn(nat) -> ReplyView, n: nat) -> bool {
    match after_replies::<BootStage>(boot_task(name), replies, n) {
        TaskOf::Over { result } => result matches Ok(ValueOf::Pid { pid }) ==> exists|m: nat|
            m <= n && #[trigger] is_recorded(name, pid, replies, m) && after_replies::<BootStage>(
                boot_task(name),
                replies,
                m,
            ) is Over,
        TaskOf::Active { stage, steps, at } => {
            &&& 0 <= at < steps.len()
            &&& booted_name(stage) matches Some(d) ==> d == name
            &&& stage matches BootStageOf::Record { name: d, pid } ==> steps == no_steps().push(
                must(recording(name, pid)),
            ).push(attempt(ActionOf::AskHome)) && (at >= 1 ==> is_recorded(name, pid, replies, n))
            &&& stage matches BootStageOf::Place { name: d, pid, home } ==> steps
                == no_steps().push(
                attempt(ActionOf::CreateDirs { path: host_mount(home, name) }),
            ).push(attempt(ActionOf::AskUser)) && is_recorded(name, pid, replies, n)
            &&& stage matches BootStageOf::Expose { pid } ==> all_spare_files(steps)
                && is_recorded(name, pid, replies, n)
        },
    }
}

/// Steps that leave all files as they were.
spec fn all_spare_files(steps: Seq<StepView>) -> bool {
    forall|i: int| 0 <= i < steps.len() ==> spares_files((#[trigger] steps[i]).action)
}

/// What was written down stays so while the files are spared.
proof fn lemma_record_stays(
    name: Seq<char>,
    pid: u32,
    replies: spec_fn(nat) -> ReplyView,
    n: nat,
)
    requires
        is_recorded(name, pid, replies, n),
        pending(after_replies::<BootStage>(boot_task(name), replies, n)) matches Some(action)
            && spares_files(action),
    ensures
        is_recorded(name, pid, replies, n + 1),
{
    let k = choose|k: nat| #[trigger] recorded_by(name, pid, replies, k, n);
    assert(recorded_by(name, pid, replies, k, n + 1));
}

/// How a turn leads to the last stages.
proof fn lemma_turns_to_the_record(stage: BootStageView, reply: ReplyView)
    ensures
        BootStage::next(stage, reply) matches TurnOf::Go { stage: s, steps } ==> {
            &&& booted_name(s) is Some ==> booted_name(stage) == booted_name(s)
            &&& s matches BootStageOf::Record { name, pid } ==> steps == no_steps().push(
                must(recording(name, pid)),
            ).push(attempt(ActionOf::AskHome))
            &&& s matches BootStageOf::Place { name, pid, home } ==> stage
                == (BootStageView::Record { name, pid }) && steps == no_steps().push(
                attempt(ActionOf::CreateDirs { path: host_mount(home, name) }),
            ).push(attempt(ActionOf::AskUser))
            &&& s matches BootStageOf::Expose { pid } ==> (stage matches BootStageOf::Place {
                name,
                pid: p,
                home,
            } && p == pid)
        },
        BootStage::next(stage, reply) matches TurnOf::End { result: Ok(ValueOf::Pid { pid }) }
            ==> stage == (BootStageView::Expose { pid }),
        forall|fault: FaultView, clean: bool|
            #[trigger] BootStage::halted(stage, fault, clean) matches TurnOf::Go {
                stage: s,
                steps,
            } ==> booted_name(s) is None && !(s is Expose),
        forall|fault: FaultView, clean: bool|
            #[trigger] BootStage::halted(stage, fault, clean) matches TurnOf::End { result }
                ==> result is Err,
{
}

proof fn lemma_expose_spares_files(
    name: Seq<char>,
    home: Seq<char>,
    uid: u32,
    gid: u32,
    pid: u32,
)
    ensures
        all_spare_files(expose_steps(name, home, uid, gid, pid)),
{
}

/// One reply more keeps what holds.
proof fn lemma_boots_further(name: Seq<char>, replies: spec_fn(nat) -> ReplyView, n: nat)
    requires
        boots_so_far(name, replies, n),
    ensures
        boots_so_far(name, replies, n + 1),
{
    let t = boot_task(name);
    let now = after_replies::<BootStage>(t, replies, n);
    let reply = replies(n);
    let then = after_replies::<BootStage>(t, replies, n + 1);
    assert(then == resumed::<BootStage>(now, reply));
    match now {
        TaskOf::Over { result } => {
            if let Ok(ValueOf::Pid { pid }) = result {
                let m = choose|m: nat|
                    m <= n && #[trigger] is_recorded(name, pid, replies, m) && after_replies::<
                        BootStage,
                    >(t, replies, m) is Over;
                assert(m <= n + 1 && is_recorded(name, pid, replies, m));
            }
        },
        TaskOf::Active { stage, steps, at } => {
            BootStage::next_descends(stage, reply);
            if let FlowOf::Halt { fault, clean } = led_by(steps[at].rule, reply) {
                BootStage::halted_descends(stage, fault, clean);
            }
            lemma_turns_to_the_record(stage, reply);
            match stage {
                BootStageOf::Record { name: d, pid } => {
                    if at == 0 {
                        if !(reply is Failed) {
                            assert(recorded_by(name, pid, replies, n, n + 1));
                        }
                    } else {
                        lemma_record_stays(name, pid, replies, n);
                    }
                },
                BootStageOf::Place { name: d, pid, home } => {
                    lemma_record_stays(name, pid, replies, n);
                    if let ReplyOf::User { name: user, uid, gid } = reply {
                        lemma_expose_spares_files(name, home, uid, gid, pid);
                    }
                },
                BootStageOf::Expose { pid } => {
                    assert(spares_files(steps[at].action));
                    lemma_record_stays(name, pid, replies, n);
                    if then is Over {
                        assert(is_recorded(name, pid, replies, n + 1));
                    }
                },
                _ => {},
            }
        },
    }
}

proof fn lemma_boots_always(name: Seq<char>, replies: spec_fn(nat) -> ReplyView, n: nat)
    ensures
        boots_so_far(name, replies, n),
    decreases n,
{
    if n > 0 {
        lemma_boots_always(name, replies, (n - 1) as nat);
        lemma_boots_further(name, replies, (n - 1) as nat);
    }
}

/// Whatever the host replies, a boot that succeeds has written the number of the init
/// process down, where a lookup reads it back, and has left that file as it is.
pub proof fn law_booted_is_written_down(
    name: Seq<char>,
    pid: u32,
    replies: spec_fn(nat) -> ReplyView,
    n: nat,
) -> (m: nat)
    requires
        after_replies::<BootStage>(boot_task(name), replies, n) == (TaskView::<
            BootStageView,
        >::Over { result: Ok(ValueOf::Pid { pid }) }),
    ensures
        m <= n,
        is_recorded(name, pid, replies, m),
        after_replies::<BootStage>(boot_task(name), replies, m) is Over,
        recorded_pid(decimal(pid as nat)) == Some(pid),
{
    lemma_boots_always(name, replies, n);
    law_pid_file_reads_back(pid);
    choose|m: nat|
        m <= n && #[trigger] is_recorded(name, pid, replies, m) && after_replies::<BootStage>(
            boot_task(name),
            replies,
            m,
        ) is Over
}

/// An init process that is gone makes the boot fail with what its log says, or with
/// what is known without a log.
pub proof fn law_dead_init_is_reported(
    name: Seq<char>,
    connected: bool,
    log: Seq<char>,
    kind: FaultKind,
)
    ensures
        BootStage::next(
            BootStageOf::Dead { name, connected },
            ReplyOf::Found { exists: false },
        ) == dead_init(early_end(connected)),
        BootStage::next(BootStageOf::DeadLog, ReplyOf::Text { text: log }) == dead_init(log),
        BootStage::next(BootStageOf::DeadLog, ReplyOf::Failed { kind, error: log }) == dead_init(
            "Unknown initialization error"@,
        ),
{
}

/// A network that could not be set up is told of, and makes the boot fail with that
/// very error.
pub proof fn law_network_failure_is_told(
    job: JobView,
    pid: u32,
    fault: FaultView,
    clean: bool,
    reply: ReplyView,
)
    ensures
        ({
            let telling = entered(
                BootStage::halted(BootStageOf::Connect { job, pid }, fault, clean),
            );
            &&& pending(telling) == Some(
                line(Style::Yellow, "Warning: Network configuration failed: "@ + fault.message),
            )
            &&& resumed::<BootStage>(telling, reply) == (TaskView::<
                BootStageView,
            >::Over { result: Err(fault) })
        }),
{
}

/// The host's home directories appear in the guest, and so do the sockets of its
/// screen and of its user, where it has them.
pub proof fn law_host_is_shared(name: Seq<char>, uid: u32, hostname: Seq<char>)
    ensures
        ({
            let steps = inside_steps(name, uid, hostname);
            let screen = path_join(merged_path(name, "tmp"@), ".X11-unix"@);
            let host_run = "/run/user/"@ + decimal(uid as nat);
            let user_run = path_join(
                path_join(merged_path(name, "run"@), "user"@),
                decimal(uid as nat),
            );
            &&& steps.contains(shared("/home"@, merged_path(name, "mnt/host"@)))
            &&& steps[12] == only_if("/tmp/.X11-unix"@, true, 2)
            &&& steps[14] == shared("/tmp/.X11-unix"@, screen)
            &&& steps[17] == only_if(host_run, true, 2)
            &&& steps[19] == shared(host_run, user_run)
        }),
{
    let steps = inside_steps(name, uid, hostname);
    assert(steps[21] == shared("/home"@, merged_path(name, "mnt/host"@)));
}

/// A host name is never empty and never the place holder, unless the
/// distribution's own name makes it so.
pub proof fn law_hostname_is_real(name: Seq<char>, content: Option<Seq<char>>)
    ensures
        guest_hostname(name, content) == "lsl-"@ + name || (guest_hostname(name, content).len() > 0
            && guest_hostname(name, content) != "LXC_NAME"@),
{
}

/// A reply to an action is among the first `n` of a boot.
pub open spec fn told_boot(
    name: Seq<char>,
    replies: spec_fn(nat) -> ReplyView,
    n: nat,
    action: ActionView,
    reply: ReplyView,
) -> bool {
    heard::<BootStage>(boot_task(name), replies, n, action, reply)
}

/// The addresses are those that the configuration has for the distribution.
pub open spec fn has_addresses(
    name: Seq<char>,
    replies: spec_fn(nat) -> ReplyView,
    n: nat,
    ip: Seq<char>,
    mac: Seq<char>,
) -> bool {
    exists|config: ConfigView| #[trigger]
        told_boot(name, replies, n, ActionOf::LoadConfig, ReplyOf::Config { config }) && (lookup(
            config.distros,
            name,
        ) matches Some(d) && d.ip_address == ip && d.mac_address == mac)
}

/// The number of the init process is the one that came through the pipe.
pub open spec fn was_received(
    name: Seq<char>,
    replies: spec_fn(nat) -> ReplyView,
    n: nat,
    pid: u32,
) -> bool {
    exists|number: i32| #[trigger]
        told_boot(name, replies, n, ActionOf::ReceivePid, ReplyOf::Received { number }) && pid
            == number as u32
}

/// The numbers are those of the user who runs the program.
pub open spec fn runs_it(
    name: Seq<char>,
    replies: spec_fn(nat) -> ReplyView,
    n: nat,
    uid: u32,
    gid: u32,
) -> bool {
    exists|user: Seq<char>| #[trigger]
        told_boot(name, replies, n, ActionOf::AskUser, ReplyOf::User { name: user, uid, gid })
}

/// The home is that of the user who runs the program.
pub open spec fn lives_in(
    name: Seq<char>,
    replies: spec_fn(nat) -> ReplyView,
    n: nat,
    home: Seq<char>,
) -> bool {
    told_boot(name, replies, n, ActionOf::AskHome, ReplyOf::Text { text: home })
}

/// The host name is the one that the guest's own file holds, without the blanks around it:
/// the file among its changes if that can be read, else the one it came with. Where neither
/// can be read, or what was read is empty or the place holder of images, it is made from
/// the distribution's name.
pub open spec fn is_hostname(
    name: Seq<char>,
    replies: spec_fn(nat) -> ReplyView,
    n: nat,
    hostname: Seq<char>,
) -> bool {
    let changed = ActionView::ReadText {
        path: path_join(distro_path(name, "diff"@), "etc/hostname"@),
    };
    let first_kept = ActionView::ReadText {
        path: path_join(distro_path(name, "rootfs"@), "etc/hostname"@),
    };
    ||| exists|text: Seq<char>| #[trigger]
        told_boot(name, replies, n, changed, ReplyOf::Text { text }) && names_host(
            name,
            text,
            hostname,
        )
    ||| exists|first: ReplyView, text: Seq<char>|
        !(first is Text) && #[trigger] told_boot(name, replies, n, changed, first)
            && #[trigger] told_boot(name, replies, n, first_kept, ReplyOf::Text { text })
            && names_host(name, text, hostname)
    ||| hostname == "lsl-"@ + name && exists|first: ReplyView, second: ReplyView|
        !(first is Text) && !(second is Text) && #[trigger] told_boot(
            name,
            replies,
            n,
            changed,
            first,
        ) && #[trigger] told_boot(name, replies, n, first_kept, second)
}

/// What a file of a host name says.
pub open spec fn names_host(name: Seq<char>, text: Seq<char>, hostname: Seq<char>) -> bool {
    let t = trimmed(text);
    if t.len() == 0 || t == "LXC_NAME"@ {
        hostname == "lsl-"@ + name
    } else {
        hostname == t
    }
}

/// A file of a host name is read as it says.
pub proof fn law_hostname_is_that_of_the_file(name: Seq<char>, text: Seq<char>)
    ensures
        names_host(name, text, guest_hostname(name, Some(text))),
        guest_hostname(name, None) == "lsl-"@ + name,
{
}

/// What was told stays told, and what was known stays known.
proof fn lemma_told_boot_grows(name: Seq<char>, replies: spec_fn(nat) -> ReplyView, n: nat)
    ensures
        forall|action: ActionView, reply: ReplyView|
            told_boot(name, replies, n, action, reply) ==> #[trigger] told_boot(
                name,
                replies,
                n + 1,
                action,
                reply,
            ),
        pending(after_replies::<BootStage>(boot_task(name), replies, n)) matches Some(action)
            ==> told_boot(name, replies, n + 1, action, replies(n)),
        forall|ip: Seq<char>, mac: Seq<char>|
            has_addresses(name, replies, n, ip, mac) ==> #[trigger] has_addresses(
                name,
                replies,
                n + 1,
                ip,
                mac,
            ),
        forall|pid: u32|
            was_received(name, replies, n, pid) ==> #[trigger] was_received(
                name,
                replies,
                n + 1,
                pid,
            ),
        forall|uid: u32, gid: u32|
            runs_it(name, replies, n, uid, gid) ==> #[trigger] runs_it(
                name,
                replies,
                n + 1,
                uid,
                gid,
            ),
        forall|hostname: Seq<char>|
            is_hostname(name, replies, n, hostname) ==> #[trigger] is_hostname(
                name,
                replies,
                n + 1,
                hostname,
            ),
{
    let t = boot_task(name);
    assert forall|action: ActionView, reply: ReplyView|
        told_boot(name, replies, n, action, reply) implies #[trigger] told_boot(
        name,
        replies,
        n + 1,
        action,
        reply,
    ) by {
        lemma_heard_grows::<BootStage>(t, replies, n, action, reply);
    }
    if let Some(action) = pending(after_replies::<BootStage>(t, replies, n)) {
        lemma_heard_grows::<BootStage>(t, replies, n, action, replies(n));
    }
    assert forall|ip: Seq<char>, mac: Seq<char>|
        has_addresses(name, replies, n, ip, mac) implies #[trigger] has_addresses(
        name,
        replies,
        n + 1,
        ip,
        mac,
    ) by {
        let config = choose|config: ConfigView| #[trigger]
            told_boot(name, replies, n, ActionOf::LoadConfig, ReplyOf::Config { config }) && (
            lookup(config.distros, name) matches Some(d) && d.ip_address == ip && d.mac_address
                == mac);
        assert(told_boot(name, replies, n + 1, ActionOf::LoadConfig, ReplyOf::Config { config }));
    }
    assert forall|pid: u32|
        was_received(name, replies, n, pid) implies #[trigger] was_received(
        name,
        replies,
        n + 1,
        pid,
    ) by {
        let number = choose|number: i32| #[trigger]
            told_boot(name, replies, n, ActionOf::ReceivePid, ReplyOf::Received { number }) && pid
                == number as u32;
        assert(told_boot(
            name,
            replies,
            n + 1,
            ActionOf::ReceivePid,
            ReplyOf::Received { number },
        ));
    }
    assert forall|uid: u32, gid: u32| runs_it(name, replies, n, uid, gid) implies #[trigger] runs_it(
        name,
        replies,
        n + 1,
        uid,
        gid,
    ) by {
        let user = choose|user: Seq<char>| #[trigger]
            told_boot(name, replies, n, ActionOf::AskUser, ReplyOf::User { name: user, uid, gid });
        assert(told_boot(
            name,
            replies,
            n + 1,
            ActionOf::AskUser,
            ReplyOf::User { name: user, uid, gid },
        ));
    }
    assert forall|hostname: Seq<char>|
        is_hostname(name, replies, n, hostname) implies #[trigger] is_hostname(
        name,
        replies,
        n + 1,
        hostname,
    ) by {
        lemma_hostname_grows(name, replies, n, hostname);
    }
}

proof fn lemma_hostname_grows(
    name: Seq<char>,
    replies: spec_fn(nat) -> ReplyView,
    n: nat,
    hostname: Seq<char>,
)
    requires
        is_hostname(name, replies, n, hostname),
        forall|action: ActionView, reply: ReplyView|
            told_boot(name, replies, n, action, reply) ==> #[trigger] told_boot(
                name,
                replies,
                n + 1,
                action,
                reply,
            ),
    ensures
        is_hostname(name, replies, n + 1, hostname),
{
    let changed = ActionView::ReadText {
        path: path_join(distro_path(name, "diff"@), "etc/hostname"@),
    };
    let first_kept = ActionView::ReadText {
        path: path_join(distro_path(name, "rootfs"@), "etc/hostname"@),
    };
    if exists|text: Seq<char>| #[trigger]
        told_boot(name, replies, n, changed, ReplyOf::Text { text }) && names_host(
            name,
            text,
            hostname,
        ) {
        let text = choose|text: Seq<char>| #[trigger]
            told_boot(name, replies, n, changed, ReplyOf::Text { text }) && names_host(
                name,
                text,
                hostname,
            );
        assert(told_boot(name, replies, n + 1, changed, ReplyOf::Text { text }));
    } else if exists|first: ReplyView, text: Seq<char>|
        !(first is Text) && #[trigger] told_boot(name, replies, n, changed, first)
            && #[trigger] told_boot(name, replies, n, first_kept, ReplyOf::Text { text })
            && names_host(name, text, hostname) {
        let (first, text) = choose|first: ReplyView, text: Seq<char>|
            !(first is Text) && #[trigger] told_boot(name, replies, n, changed, first)
                && #[trigger] told_boot(name, replies, n, first_kept, ReplyOf::Text { text })
                && names_host(name, text, hostname);
        assert(told_boot(name, replies, n + 1, changed, first));
        assert(told_boot(name, replies, n + 1, first_kept, ReplyOf::Text { text }));
    } else {
        let (first, second) = choose|first: ReplyView, second: ReplyView|
            !(first is Text) && !(second is Text) && #[trigger] told_boot(
                name,
                replies,
                n,
                changed,
                first,
            ) && #[trigger] told_boot(name, replies, n, first_kept, second);
        assert(told_boot(name, replies, n + 1, changed, first));
        assert(told_boot(name, replies, n + 1, first_kept, second));
    }
}

/// The action whose reply a stage goes on with.
spec fn booted_by(stage: BootStageView) -> Option<ActionView> {
    match stage {
        BootStageOf::Load { name } => Some(ActionOf::LoadConfig),
        BootStageOf::Prepare { job } => Some(ActionOf::AskUser),
        BootStageOf::Receive { job } => Some(ActionOf::ReceivePid),
        BootStageOf::Record { name, pid } => Some(ActionOf::AskHome),
        BootStageOf::Place { name, pid, home } => Some(ActionOf::AskUser),
        BootStageOf::Name { name, uid } => Some(
            ActionOf::ReadText { path: path_join(distro_path(name, "diff"@), "etc/hostname"@) },
        ),
        BootStageOf::BaseName { name, uid } => Some(
            ActionOf::ReadText { path: path_join(distro_path(name, "rootfs"@), "etc/hostname"@) },
        ),
        _ => None,
    }
}

/// The distribution that a stage is about, on the host or in the guest.
spec fn name_in(stage: BootStageView) -> Option<Seq<char>> {
    match stage {
        BootStageOf::Part { name, uid } => Some(name),
        BootStageOf::Name { name, uid } => Some(name),
        BootStageOf::BaseName { name, uid } => Some(name),
        BootStageOf::Inside { name } => Some(name),
        _ => booted_name(stage),
    }
}

/// The job that a stage is about.
spec fn job_in(stage: BootStageView) -> Option<JobView> {
    match stage {
        BootStageOf::Prepare { job } => Some(job),
        BootStageOf::Split { job, uid } => Some(job),
        BootStageOf::Receive { job } => Some(job),
        BootStageOf::Probe { job, pid } => Some(job),
        BootStageOf::Connect { job, pid } => Some(job),
        _ => None,
    }
}

/// The init process that a stage is about.
spec fn pid_in(stage: BootStageView) -> Option<u32> {
    match stage {
        BootStageOf::Probe { job, pid } => Some(pid),
        BootStageOf::Connect { job, pid } => Some(pid),
        BootStageOf::ProbeAgain { name, pid } => Some(pid),
        BootStageOf::Record { name, pid } => Some(pid),
        BootStageOf::Place { name, pid, home } => Some(pid),
        BootStageOf::Expose { pid } => Some(pid),
        _ => None,
    }
}

/// The number of the user for whom a stage is.
spec fn uid_in(stage: BootStageView) -> Option<u32> {
    match stage {
        BootStageOf::Split { job, uid } => Some(uid),
        BootStageOf::Part { name, uid } => Some(uid),
        BootStageOf::Name { name, uid } => Some(uid),
        BootStageOf::BaseName { name, uid } => Some(uid),
        _ => None,
    }
}

/// The steps show the guest's files in the home of the user who runs the program, and give
/// the place to that user.
pub open spec fn exposes(
    name: Seq<char>,
    replies: spec_fn(nat) -> ReplyView,
    n: nat,
    steps: Seq<StepView>,
    pid: u32,
) -> bool {
    exists|home: Seq<char>, uid: u32, gid: u32|
        lives_in(name, replies, n, home) && #[trigger] runs_it(name, replies, n, uid, gid) && steps
            == #[trigger] expose_steps(name, home, uid, gid, pid)
}

/// The steps mount in the guest what it needs, for the user who runs the program, under
/// the guest's own host name.
pub open spec fn furnishes(
    name: Seq<char>,
    replies: spec_fn(nat) -> ReplyView,
    n: nat,
    steps: Seq<StepView>,
) -> bool {
    exists|uid: u32, gid: u32, hostname: Seq<char>| #[trigger]
        runs_it(name, replies, n, uid, gid) && is_hostname(name, replies, n, hostname) && steps
            == #[trigger] inside_steps(name, uid, hostname)
}

/// The number is that of the user who runs the program.
pub open spec fn is_callers(
    name: Seq<char>,
    replies: spec_fn(nat) -> ReplyView,
    n: nat,
    uid: u32,
) -> bool {
    exists|gid: u32| #[trigger] runs_it(name, replies, n, uid, gid)
}

/// What is known in a stage.
spec fn boots_knowing(
    name: Seq<char>,
    replies: spec_fn(nat) -> ReplyView,
    n: nat,
    stage: BootStageView,
    steps: Seq<StepView>,
) -> bool {
    &&& name_in(stage) matches Some(d) ==> d == name
    &&& job_in(stage) matches Some(job) ==> has_addresses(name, replies, n, job.ip, job.mac)
    &&& pid_in(stage) matches Some(pid) ==> was_received(name, replies, n, pid)
    &&& uid_in(stage) matches Some(uid) ==> is_callers(name, replies, n, uid)
    &&& stage matches BootStageOf::Connect { job, pid } ==> steps == no_steps().push(
        must(ActionOf::SetUpNetwork { name, pid, ip: job.ip, mac: job.mac }),
    )
    &&& stage matches BootStageOf::Place { name: d, pid, home } ==> lives_in(
        name,
        replies,
        n,
        home,
    )
    &&& stage matches BootStageOf::Expose { pid } ==> exposes(name, replies, n, steps, pid)
    &&& stage matches BootStageOf::BaseName { name: d, uid } ==> exists|first: ReplyView|
        !(first is Text) && #[trigger] told_boot(
            name,
            replies,
            n,
            ActionOf::ReadText { path: path_join(distro_path(name, "diff"@), "etc/hostname"@) },
            first,
        )
    &&& stage is Inside ==> furnishes(name, replies, n, steps)
    &&& stage is Connect || !sets_up_network(steps)
}

/// Steps among which a network is set up.
spec fn sets_up_network(steps: Seq<StepView>) -> bool {
    exists|i: int| 0 <= i < steps.len() && (#[trigger] steps[i]).action is SetUpNetwork
}

/// What holds after any number of replies.
spec fn boots_informed(name: Seq<char>, replies: spec_fn(nat) -> ReplyView, n: nat) -> bool {
    match after_replies::<BootStage>(boot_task(name), replies, n) {
        TaskOf::Over { result } => true,
        TaskOf::Active { stage, steps, at } => {
            &&& 0 <= at < steps.len()
            &&& booted_by(stage) matches Some(action) ==> steps.last().action == action && sure(
                steps,
                steps.len() - 1,
            )
            &&& boots_knowing(name, replies, n, stage, steps)
        },
    }
}

/// What was known in a stage stays known.
proof fn lemma_knowing_grows(
    name: Seq<char>,
    replies: spec_fn(nat) -> ReplyView,
    n: nat,
    stage: BootStageView,
    steps: Seq<StepView>,
)
    requires
        boots_knowing(name, replies, n, stage, steps),
    ensures
        boots_knowing(name, replies, n + 1, stage, steps),
{
    lemma_told_boot_grows(name, replies, n);
    if let Some(uid) = uid_in(stage) {
        let gid = choose|gid: u32| #[trigger] runs_it(name, replies, n, uid, gid);
        assert(runs_it(name, replies, n + 1, uid, gid));
    }
    match stage {
        BootStageOf::Expose { pid } => {
            let (home, uid, gid) = choose|home: Seq<char>, uid: u32, gid: u32|
                lives_in(name, replies, n, home) && #[trigger] runs_it(name, replies, n, uid, gid)
                    && steps == #[trigger] expose_steps(name, home, uid, gid, pid);
            assert(lives_in(name, replies, n + 1, home));
            assert(runs_it(name, replies, n + 1, uid, gid));
        },
        BootStageOf::BaseName { name: d, uid } => {
            let read = ActionView::ReadText {
                path: path_join(distro_path(name, "diff"@), "etc/hostname"@),
            };
            let first = choose|first: ReplyView|
                !(first is Text) && #[trigger] told_boot(name, replies, n, read, first);
            assert(told_boot(name, replies, n + 1, read, first));
        },
        BootStageOf::Inside { name: d } => {
            let (uid, gid, hostname) = choose|uid: u32, gid: u32, hostname: Seq<char>| #[trigger]
                runs_it(name, replies, n, uid, gid) && is_hostname(name, replies, n, hostname)
                    && steps == #[trigger] inside_steps(name, uid, hostname);
            assert(runs_it(name, replies, n + 1, uid, gid));
            assert(is_hostname(name, replies, n + 1, hostname));
        },
        _ => {},
    }
}

/// What a turn awaits.
proof fn lemma_boots_await(stage: BootStageView, reply: ReplyView)
    ensures
        BootStage::next(stage, reply) matches TurnOf::Go { stage: s, steps } ==> {
            &&& steps.len() > 0
            &&& booted_by(s) matches Some(action) ==> steps.last().action == action && sure(
                steps,
                steps.len() - 1,
            )
            &&& !(s is Connect) ==> !sets_up_network(steps)
        },
        forall|fault: FaultView, clean: bool|
            #[trigger] BootStage::halted(stage, fault, clean) matches TurnOf::Go {
                stage: s,
                steps,
            } ==> {
                &&& steps.len() > 0
                &&& s is Unconnected || s is Leave
                &&& !sets_up_network(steps)
            },
{
    if let TurnOf::Go { stage: s, steps } = BootStage::next(stage, reply) {
        match stage {
            BootStageOf::Load { name } => {
                lemma_prepare_is_sure(name);
            },
            BootStageOf::Name { name, uid } => {
                lemma_inside_sets_up_nothing(stage, reply);
            },
            BootStageOf::BaseName { name, uid } => {
                lemma_inside_sets_up_nothing(stage, reply);
            },
            _ => {},
        }
    }
}

proof fn lemma_prepare_is_sure(name: Seq<char>)
    ensures
        ({
            let steps = prepare_steps(name);
            &&& steps.len() == 15
            &&& steps[14] == attempt(ActionOf::AskUser)
            &&& sure(steps, 14)
            &&& !sets_up_network(steps)
        }),
{
}

proof fn lemma_inside_sets_up_nothing(stage: BootStageView, reply: ReplyView)
    requires
        stage is Name || stage is BaseName,
    ensures
        BootStage::next(stage, reply) matches TurnOf::Go { stage: s, steps } ==> steps.len() > 0
            && !sets_up_network(steps),
{
    let content = match reply {
        ReplyOf::Text { text } => Some(text),
        _ => None,
    };
    match stage {
        BootStageOf::Name { name, uid } => {
            lemma_furniture_is_no_network(name, uid, guest_hostname(name, content));
        },
        BootStageOf::BaseName { name, uid } => {
            lemma_furniture_is_no_network(name, uid, guest_hostname(name, content));
        },
        _ => {},
    }
}

proof fn lemma_furniture_is_no_network(name: Seq<char>, uid: u32, hostname: Seq<char>)
    ensures
        inside_steps(name, uid, hostname).len() > 0,
        !sets_up_network(inside_steps(name, uid, hostname)),
{
    lemma_kernel_is_no_network(name, hostname);
    lemma_shares_are_no_network(name, uid);
    lemma_home_is_no_network(name);
    let a = kernel_steps(name, hostname);
    let b = share_steps(name, uid);
    let c = home_steps(name);
    lemma_no_network_adds(a, b);
    lemma_no_network_adds(a + b, c);
}

proof fn lemma_kernel_is_no_network(name: Seq<char>, hostname: Seq<char>)
    ensures
        kernel_steps(name, hostname).len() > 0,
        !sets_up_network(kernel_steps(name, hostname)),
{
}

proof fn lemma_shares_are_no_network(name: Seq<char>, uid: u32)
    ensures
        !sets_up_network(share_steps(name, uid)),
{
}

proof fn lemma_home_is_no_network(name: Seq<char>)
    ensures
        !sets_up_network(home_steps(name)),
{
}

proof fn lemma_no_network_adds(a: Seq<StepView>, b: Seq<StepView>)
    requires
        !sets_up_network(a),
        !sets_up_network(b),
    ensures
        !sets_up_network(a + b),
{
    if sets_up_network(a + b) {
        let i = choose|i: int| 0 <= i < (a + b).len() && (#[trigger] (a + b)[i]).action
            is SetUpNetwork;
        if i < a.len() {
            assert(a[i].action is SetUpNetwork);
        } else {
            assert(b[i - a.len()].action is SetUpNetwork);
        }
    }
}

/// What a turn passes on of what is known.
proof fn lemma_boots_pass_on(stage: BootStageView, reply: ReplyView)
    ensures
        BootStage::next(stage, reply) matches TurnOf::Go { stage: s, steps } ==> {
            &&& name_in(s) is Some ==> name_in(stage) == name_in(s)
            &&& job_in(s) matches Some(job) ==> {
                ||| job_in(stage) == Some(job)
                ||| stage matches BootStageOf::Load { name } && (reply matches ReplyOf::Config {
                    config,
                } && (lookup(config.distros, name) matches Some(d) && job.ip == d.ip_address
                    && job.mac == d.mac_address))
            }
            &&& pid_in(s) matches Some(pid) ==> {
                ||| pid_in(stage) == Some(pid)
                ||| stage is Receive && (reply matches ReplyOf::Received { number } && pid
                    == number as u32)
            }
            &&& uid_in(s) matches Some(uid) ==> {
                ||| uid_in(stage) == Some(uid)
                ||| stage is Prepare && (reply matches ReplyOf::User { name, uid: u, gid } && u
                    == uid)
            }
            &&& s matches BootStageOf::Connect { job, pid } ==> steps == no_steps().push(
                must(ActionOf::SetUpNetwork { name: job.name, pid, ip: job.ip, mac: job.mac }),
            )
            &&& s matches BootStageOf::Place { name, pid, home } ==> stage is Record && reply == (
            ReplyView::Text { text: home })
            &&& s is Expose ==> stage is Place
            &&& s is BaseName ==> stage is Name && !(reply is Text)
            &&& s is Inside ==> stage is Name || stage is BaseName
        },
{
}

/// One reply more keeps what is known true.
proof fn lemma_boots_stay_informed(name: Seq<char>, replies: spec_fn(nat) -> ReplyView, n: nat)
    requires
        boots_informed(name, replies, n),
    ensures
        boots_informed(name, replies, n + 1),
{
    let t = boot_task(name);
    let now = after_replies::<BootStage>(t, replies, n);
    let reply = replies(n);
    let then = after_replies::<BootStage>(t, replies, n + 1);
    assert(then == resumed::<BootStage>(now, reply));
    if let TaskOf::Active { stage, steps, at } = now {
        lemma_told_boot_grows(name, replies, n);
        lemma_knowing_grows(name, replies, n, stage, steps);
        lemma_boots_await(stage, reply);
        if let TaskOf::Active { stage: s, steps: p, at: a } = then {
            if let FlowOf::Advance { skip } = led_by(steps[at].rule, reply) {
                if at + 1 + skip >= steps.len() {
                    if booted_by(stage) is Some {
                        assert(at == steps.len() - 1);
                    }
                    lemma_next_boot_is_informed(name, replies, n, stage, steps, at, s, p);
                }
            }
        }
    }
}

/// What is known in the stage that a turn of a boot leads to.
proof fn lemma_next_boot_is_informed(
    name: Seq<char>,
    replies: spec_fn(nat) -> ReplyView,
    n: nat,
    stage: BootStageView,
    steps: Seq<StepView>,
    at: int,
    s: BootStageView,
    p: Seq<StepView>,
)
    requires
        boots_knowing(name, replies, n, stage, steps),
        after_replies::<BootStage>(boot_task(name), replies, n) == (TaskView::<
            BootStageView,
        >::Active { stage, steps, at }),
        0 <= at < steps.len(),
        booted_by(stage) matches Some(action) ==> steps[at].action == action,
        BootStage::next(stage, replies(n)) == (TurnView::<BootStageView>::Go {
            stage: s,
            steps: p,
        }),
    ensures
        boots_knowing(name, replies, n + 1, s, p),
{
    let reply = replies(n);
    lemma_told_boot_grows(name, replies, n);
    lemma_knowing_grows(name, replies, n, stage, steps);
    lemma_boots_await(stage, reply);
    lemma_boots_pass_on(stage, reply);
    if let Some(action) = booted_by(stage) {
        assert(told_boot(name, replies, n + 1, action, reply));
    }
    match stage {
        BootStageOf::Load { name: d } => {
            if let ReplyOf::Config { config } = reply {
                assert(told_boot(
                    name,
                    replies,
                    n + 1,
                    ActionOf::LoadConfig,
                    ReplyOf::Config { config },
                ));
            }
        },
        BootStageOf::Prepare { job } => {
            if let ReplyOf::User { name: user, uid, gid } = reply {
                assert(told_boot(
                    name,
                    replies,
                    n + 1,
                    ActionOf::AskUser,
                    ReplyOf::User { name: user, uid, gid },
                ));
                assert(runs_it(name, replies, n + 1, uid, gid));
            }
        },
        BootStageOf::Receive { job } => {
            if let ReplyOf::Received { number } = reply {
                assert(told_boot(
                    name,
                    replies,
                    n + 1,
                    ActionOf::ReceivePid,
                    ReplyOf::Received { number },
                ));
            }
        },
        BootStageOf::Place { name: d, pid, home } => {
            if let ReplyOf::User { name: user, uid, gid } = reply {
                assert(told_boot(
                    name,
                    replies,
                    n + 1,
                    ActionOf::AskUser,
                    ReplyOf::User { name: user, uid, gid },
                ));
                assert(runs_it(name, replies, n + 1, uid, gid));
                assert(p == expose_steps(name, home, uid, gid, pid));
                assert(exposes(name, replies, n + 1, p, pid));
            }
        },
        BootStageOf::Name { name: d, uid } => {
            lemma_named_guest(name, replies, n, stage, uid, s, p);
        },
        BootStageOf::BaseName { name: d, uid } => {
            lemma_named_guest(name, replies, n, stage, uid, s, p);
        },
        _ => {},
    }
}

/// What is known once the host name was read.
proof fn lemma_named_guest(
    name: Seq<char>,
    replies: spec_fn(nat) -> ReplyView,
    n: nat,
    stage: BootStageView,
    uid: u32,
    s: BootStageView,
    p: Seq<StepView>,
)
    requires
        stage == (BootStageView::Name { name, uid }) || stage == (BootStageView::BaseName {
            name,
            uid,
        }),
        is_callers(name, replies, n + 1, uid),
        stage is BaseName ==> exists|first: ReplyView|
            !(first is Text) && #[trigger] told_boot(
                name,
                replies,
                n + 1,
                ActionOf::ReadText { path: path_join(distro_path(name, "diff"@), "etc/hostname"@) },
                first,
            ),
        booted_by(stage) matches Some(action) && told_boot(
            name,
            replies,
            n + 1,
            action,
            replies(n),
        ),
        BootStage::next(stage, replies(n)) == (TurnView::<BootStageView>::Go {
            stage: s,
            steps: p,
        }),
    ensures
        s is Inside ==> furnishes(name, replies, n + 1, p),
        s is BaseName ==> exists|first: ReplyView|
            !(first is Text) && #[trigger] told_boot(
                name,
                replies,
                n + 1,
                ActionOf::ReadText { path: path_join(distro_path(name, "diff"@), "etc/hostname"@) },
                first,
            ),
{
    let reply = replies(n);
    let changed = ActionView::ReadText {
        path: path_join(distro_path(name, "diff"@), "etc/hostname"@),
    };
    let first_kept = ActionView::ReadText {
        path: path_join(distro_path(name, "rootfs"@), "etc/hostname"@),
    };
    let gid = choose|gid: u32| #[trigger] runs_it(name, replies, n + 1, uid, gid);
    let content = match reply {
        ReplyOf::Text { text } => Some(text),
        _ => None,
    };
    let hostname = guest_hostname(name, content);
    if stage is Name {
        if let ReplyOf::Text { text } = reply {
            assert(told_boot(name, replies, n + 1, changed, ReplyOf::Text { text }));
            assert(is_hostname(name, replies, n + 1, hostname));
        } else {
            assert(told_boot(name, replies, n + 1, changed, reply));
        }
    } else {
        let first = choose|first: ReplyView|
            !(first is Text) && #[trigger] told_boot(name, replies, n + 1, changed, first);
        if let ReplyOf::Text { text } = reply {
            assert(told_boot(name, replies, n + 1, first_kept, ReplyOf::Text { text }));
        } else {
            assert(told_boot(name, replies, n + 1, first_kept, reply));
        }
        assert(is_hostname(name, replies, n + 1, hostname));
    }
    if s is Inside {
        assert(p == inside_steps(name, uid, hostname));
        assert(runs_it(name, replies, n + 1, uid, gid));
    }
}

proof fn lemma_boots_always_informed(name: Seq<char>, replies: spec_fn(nat) -> ReplyView, n: nat)
    ensures
        boots_informed(name, replies, n),
    decreases n,
{
    if n > 0 {
        lemma_boots_always_informed(name, replies, (n - 1) as nat);
        lemma_boots_stay_informed(name, replies, (n - 1) as nat);
    }
}

/// Whatever the host replies, the network that a boot asks for is that of the distribution
/// that is booted: with the addresses that the configuration has for it, and for the init
/// process whose number came through the pipe.
pub proof fn law_network_is_for_the_distribution(
    name: Seq<char>,
    replies: spec_fn(nat) -> ReplyView,
    n: nat,
    who: Seq<char>,
    pid: u32,
    ip: Seq<char>,
    mac: Seq<char>,
)
    requires
        pending(after_replies::<BootStage>(boot_task(name), replies, n)) == Some(
            ActionView::SetUpNetwork { name: who, pid, ip, mac },
        ),
    ensures
        who == name,
        has_addresses(name, replies, n, ip, mac),
        was_received(name, replies, n, pid),
{
    lemma_boots_always_informed(name, replies, n);
    if let TaskOf::Active { stage, steps, at } = after_replies::<BootStage>(
        boot_task(name),
        replies,
        n,
    ) {
        assert(steps[at].action is SetUpNetwork);
    }
}

/// Whatever the host replies, the guest's files appear in the home of the user who runs the
/// program and belong to that user there; and what is mounted in the guest is for that
/// user, and under the guest's own host name.
pub proof fn law_guest_is_for_its_user(
    name: Seq<char>,
    replies: spec_fn(nat) -> ReplyView,
    n: nat,
)
    ensures
        after_replies::<BootStage>(boot_task(name), replies, n) matches TaskOf::Active {
            stage,
            steps,
            at,
        } ==> match stage {
            BootStageOf::Expose { pid } => exposes(name, replies, n, steps, pid) && was_received(
                name,
                replies,
                n,
                pid,
            ),
            BootStageOf::Inside { name: d } => d == name && furnishes(name, replies, n, steps),
            _ => true,
        },
{
    lemma_boots_always_informed(name, replies, n);
}

/// The guest's files stand above those it came with: these are the lower layer, its changes
/// are the upper one, and all are shown in one place. Without that nothing is booted.
pub proof fn law_layers_are_stacked(name: Seq<char>)
    ensures
        ({
            let steps = prepare_steps(name);
            &&& steps.len() == 15
            &&& steps[1] == must(ActionOf::CreateDirs { path: distro_path(name, "diff"@) })
            &&& steps[2] == must(ActionOf::CreateDirs { path: distro_path(name, "work"@) })
            &&& steps[3] == must(ActionOf::CreateDirs { path: distro_path(name, "merged"@) })
            &&& !goes_on(steps[5])
            &&& steps[5].action == (ActionView::Mount {
                source: Some("overlay"@),
                target: distro_path(name, "merged"@),
                fstype: Some("overlay"@),
                flags: MountFlags::Plain,
                data: Some(
                    "lowerdir="@ + distro_path(name, "rootfs"@) + ",upperdir="@ + distro_path(
                        name,
                        "diff"@,
                    ) + ",workdir="@ + distro_path(name, "work"@),
                ),
            })
            &&& steps[4].action == (ActionView::Unmount { target: distro_path(name, "merged"@) })
            &&& steps[6] == only_if(merged_path(name, "bin/ping"@), true, 1)
            &&& steps[8] == only_if(merged_path(name, "usr/bin/ping"@), true, 1)
            &&& steps[10].action == (ActionView::CreateDirs {
                path: merged_path(name, "etc/sudoers.d"@),
            })
            &&& steps[11] == leading(
                ActionOf::CreateFile {
                    path: path_join(merged_path(name, "etc/sudoers.d"@), "lsl-sudoers"@),
                },
                2,
            )
            &&& steps[7].action == command(
                "chmod"@,
                no_words().push("u+s"@).push(merged_path(name, "bin/ping"@)),
            )
            &&& steps[9].action == command(
                "chmod"@,
                no_words().push("u+s"@).push(merged_path(name, "usr/bin/ping"@)),
            )
            &&& steps[12].action == (ActionView::WriteText {
                path: path_join(merged_path(name, "etc/sudoers.d"@), "lsl-sudoers"@),
                text: "%sudo ALL=(ALL:ALL) ALL\n%wheel ALL=(ALL:ALL) ALL\n"@,
            })
            &&& steps[13].action == (ActionView::SetMode {
                path: path_join(merged_path(name, "etc/sudoers.d"@), "lsl-sudoers"@),
                mode: 0o440,
            })
        }),
{
}

/// Every user and group of the guest is the one with the same number on the host: the maps
/// of the init process say so, and they are written before it is looked for.
pub proof fn law_numbers_are_the_hosts(pid: u32)
    ensures
        ({
            let steps = probe_steps(pid);
            let own = "/proc/"@ + decimal(pid as nat) + "/"@;
            &&& steps.len() == 4
            &&& steps[0].action == (ActionView::WriteText {
                path: own + "uid_map"@,
                text: "0 0 4294967295\n"@,
            })
            &&& steps[1].action == (ActionView::WriteText {
                path: own + "gid_map"@,
                text: "0 0 4294967295\n"@,
            })
            &&& steps[3].action == (ActionView::Probe { pid })
        }),
{
}

/// The guest's files are bound to a place below the user's home, which belongs to the user's
/// numbers.
pub proof fn law_files_appear_in_the_home(
    name: Seq<char>,
    home: Seq<char>,
    uid: u32,
    gid: u32,
    pid: u32,
)
    ensures
        ({
            let steps = expose_steps(name, home, uid, gid, pid);
            let all = path_join(home, "LSL"@);
            let place = path_join(all, name);
            &&& steps.len() == 4
            &&& steps[0].action == (ActionView::SetOwner { path: all, uid, gid })
            &&& steps[1].action == (ActionView::SetOwner { path: place, uid, gid })
            &&& steps[2].action == (ActionView::Mount {
                source: Some(distro_path(name, "merged"@)),
                target: place,
                fstype: Some("none"@),
                flags: MountFlags::Bind,
                data: None,
            })
        }),
{
}

/// A process counts as being there exactly if a signal went through to it or was denied.
/// Only then is the network set up, and only then, after that, is the process written down.
pub proof fn law_only_the_living_go_on(
    job: JobView,
    pid: u32,
    delivered: bool,
    denied: bool,
    reply: ReplyView,
)
    ensures
        ({
            let there = delivered || denied;
            let probed = ReplyView::Probed { delivered, denied };
            let first = BootStage::next(BootStageOf::Probe { job, pid }, probed);
            let second = BootStage::next(
                BootStageOf::ProbeAgain { name: job.name, pid },
                probed,
            );
            &&& first matches TurnOf::Go { stage, steps } && (if there {
                stage is Connect
            } else {
                stage == (BootStageView::Dead { name: job.name, connected: false })
            })
            &&& second matches TurnOf::Go { stage, steps } && (if there {
                stage is Record
            } else {
                stage == (BootStageView::Dead { name: job.name, connected: true })
            })
        }),
        !(reply is Probed) ==> (BootStage::next(BootStageOf::Probe { job, pid }, reply) matches
            TurnOf::Go { stage, steps } && stage is Dead),
{
}

/// What the guest gets of its own: the kernel's file systems, its devices, and temporary
/// directories; and it resolves names by servers of its own. What is vital of it cannot
/// fail without ending the guest.
pub proof fn law_guest_is_furnished(name: Seq<char>, uid: u32, hostname: Seq<char>)
    ensures
        ({
            let steps = inside_steps(name, uid, hostname);
            &&& steps.len() == 26
            &&& steps[0].action == (ActionView::SetHostname { name: hostname })
            &&& mounts_at(steps, 3, "proc"@, merged_path(name, "proc"@), Some("proc"@), None)
            &&& mounts_at(steps, 5, "sysfs"@, merged_path(name, "sys"@), Some("sysfs"@), None)
            &&& mounts_at(steps, 7, "/dev"@, merged_path(name, "dev"@), None, None)
            &&& mounts_at(
                steps,
                9,
                "devpts"@,
                path_join(merged_path(name, "dev"@), "pts"@),
                Some("devpts"@),
                Some("newinstance,ptmxmode=0666,mode=620"@),
            )
            &&& mounts_at(
                steps,
                11,
                "tmpfs"@,
                merged_path(name, "tmp"@),
                Some("tmpfs"@),
                Some("mode=1777"@),
            )
            &&& mounts_at(
                steps,
                16,
                "tmpfs"@,
                merged_path(name, "run"@),
                Some("tmpfs"@),
                Some("mode=755"@),
            )
            &&& steps[13].action == (ActionView::CreateDirs {
                path: path_join(merged_path(name, "tmp"@), ".X11-unix"@),
            })
            &&& steps[18].action == (ActionView::CreateDirs {
                path: path_join(
                    path_join(merged_path(name, "run"@), "user"@),
                    decimal(uid as nat),
                ),
            })
            &&& steps[20].action == (ActionView::CreateDirs { path: merged_path(name, "mnt/host"@) })
            &&& steps[22].action == (ActionView::CreateDirs { path: merged_path(name, "etc"@) })
            &&& steps[24].action == (ActionView::CreateDirs { path: merged_path(name, ".old_root"@) })
            &&& steps[23].action == (ActionView::WriteText {
                path: path_join(merged_path(name, "etc"@), "resolv.conf"@),
                text: "nameserver 1.1.1.1\nnameserver 8.8.8.8\n"@,
            })
        }),
{
}

/// The `i`-th step mounts something in a place, which the step before it makes, and the guest
/// does not go on without either.
pub open spec fn mounts_at(
    steps: Seq<StepView>,
    i: int,
    what: Seq<char>,
    place: Seq<char>,
    kind: Option<Seq<char>>,
    options: Option<Seq<char>>,
) -> bool {
    &&& steps[i - 1].action == (ActionView::CreateDirs { path: place })
    &&& steps[i].action == (ActionView::Mount {
        source: Some(what),
        target: place,
        fstype: kind,
        flags: if kind is Some {
            MountFlags::Plain
        } else {
            MountFlags::BindTree
        },
        data: options,
    })
    &&& !goes_on(steps[i - 1])
    &&& !goes_on(steps[i])
}

/// The number of the init process goes from the process that forked it to the host: that
/// process sends the number of its child and ends, and the host waits for it and then reads
/// the number.
pub proof fn law_number_comes_through_the_pipe(
    job: JobView,
    name: Seq<char>,
    uid: u32,
    child: i32,
    number: i32,
)
    ensures
        BootStage::next(BootStageOf::Split { job, uid }, ReplyOf::Forked { child: Some(child) })
            matches TurnOf::Go { stage, steps } && stage == (BootStageView::Receive { job })
            && steps.len() == 3 && steps[1].action == (ActionView::Wait { child })
            && steps[2].action is ReceivePid && !goes_on(steps[2]),
        BootStage::next(BootStageOf::Part { name, uid }, ReplyOf::Forked { child: Some(child) })
            == (TurnView::<BootStageView>::Go {
            stage: BootStageOf::Leave,
            steps: no_steps().push(attempt(ActionOf::SendPid { child })).push(
                attempt(ActionOf::Exit { code: 0 }),
            ),
        }),
        BootStage::next(BootStageOf::Receive { job }, ReplyOf::Received { number }) == (TurnView::<
            BootStageView,
        >::Go {
            stage: BootStageOf::Probe { job, pid: number as u32 },
            steps: probe_steps(number as u32),
        }),
        BootStage::next(BootStageOf::Split { job, uid }, ReplyOf::Forked { child: None }) matches
            TurnOf::Go { stage, steps } && stage == (BootStageView::Part { name: job.name, uid }),
        BootStage::next(BootStageOf::Part { name, uid }, ReplyOf::Forked { child: None }) matches
            TurnOf::Go { stage, steps } && stage == (BootStageView::Name { name, uid }),
{
}

/// What the init process writes goes to a file of the distribution's own, and that file is
/// what is read when the process is gone; the boot then fails with what it says.
pub proof fn law_log_tells_why(
    name: Seq<char>,
    connected: bool,
    log: Seq<char>,
    reply: ReplyView,
)
    requires
        name.len() > 0 && name[0] != '/',
    ensures
        ({
            let file = "/var/lib/lsl/run/"@ + (name + "-boot.log"@);
            &&& name_steps(name).len() == 4 && name_steps(name)[1].action == (
            ActionView::Redirect { path: file })
            &&& dead_turn(name, connected) matches TurnOf::Go { stage, steps } && steps
                == no_steps().push(attempt(ActionOf::Exists { path: file }))
            &&& BootStage::next(
                BootStageOf::Dead { name, connected },
                ReplyOf::Found { exists: true },
            ) == (TurnView::<BootStageView>::Go {
                stage: BootStageOf::DeadLog,
                steps: no_steps().push(attempt(ActionOf::ReadText { path: file })),
            })
        }),
        BootStage::next(BootStageOf::DeadLog, ReplyOf::Text { text: log }) == failing::<
            BootStageView,
        >(FaultKind::Other, "Subsystem init process failed to boot:\n"@ + log),
        reply != (ReplyView::Found { exists: true }) ==> BootStage::next(
            BootStageOf::Dead { name, connected },
            reply,
        ) == failing::<BootStageView>(
            FaultKind::Other,
            "Subsystem init process failed to boot:\n"@ + (if connected {
                "Subsystem init process exited early after network setup"@
            } else {
                "Subsystem init process exited early"@
            }),
        ),
{
    law_everything_has_its_place(
        Seq::empty().push('x'),
        Seq::empty().push('x'),
        name + "-boot.log"@,
    );
}

/// A guest whose root cannot be pivoted changes its root to its own files instead, and does
/// not go on without that.
pub proof fn law_guest_always_changes_its_root(name: Seq<char>, kind: FaultKind, error: Seq<char>)
    ensures
        BootStage::next(BootStageOf::Inside { name }, ReplyOf::Failed { kind, error }) matches
            TurnOf::Go { stage, steps } && stage is Rooted && steps.len() == 2 && steps[0].action
            == (ActionView::ChangeRoot { path: distro_path(name, "merged"@) }) && !goes_on(steps[0])
            && steps[1].action == (ActionView::ChangeDir { path: "/"@ }) && !goes_on(steps[1]),
{
}

/// A boot goes on from stage to stage as long as the host replies to what it was asked, up
/// to the number of the init process; and the init process goes on to its own root, unless
/// its host name holds a zero.
pub proof fn law_boot_goes_on(
    name: Seq<char>,
    job: JobView,
    config: ConfigView,
    user: Seq<char>,
    uid: u32,
    gid: u32,
    pid: u32,
    text: Seq<char>,
    reply: ReplyView,
)
    ensures
        boot_task(name) == started(
            BootStageView::Load { name },
            no_steps().push(attempt(ActionOf::LoadConfig)),
        ),
        lookup(config.distros, name) matches Some(d) ==> BootStage::next(
            BootStageOf::Load { name },
            ReplyOf::Config { config },
        ) == (TurnView::<BootStageView>::Go {
            stage: BootStageOf::Prepare {
                job: JobOf { name, ip: d.ip_address, mac: d.mac_address },
            },
            steps: prepare_steps(name),
        }),
        BootStage::next(BootStageOf::Prepare { job }, ReplyOf::User { name: user, uid, gid })
            matches TurnOf::Go { stage, steps } && stage == (BootStageView::Split { job, uid })
            && steps.len() == 2 && steps[0].action is OpenPipe && steps[1].action is Fork
            && !goes_on(steps[0]) && !goes_on(steps[1]),
        BootStage::next(BootStageOf::Connect { job, pid }, reply) == (TurnView::<
            BootStageView,
        >::Go {
            stage: BootStageOf::ProbeAgain { name: job.name, pid },
            steps: no_steps().push(attempt(ActionOf::Probe { pid })),
        }),
        BootStage::next(BootStageOf::Record { name, pid }, ReplyOf::Text { text }) == (TurnView::<
            BootStageView,
        >::Go {
            stage: BootStageOf::Place { name, pid, home: text },
            steps: no_steps().push(
                attempt(ActionOf::CreateDirs { path: path_join(path_join(text, "LSL"@), name) }),
            ).push(attempt(ActionOf::AskUser)),
        }),
        BootStage::next(
            BootStageOf::Place { name, pid, home: text },
            ReplyOf::User { name: user, uid, gid },
        ) == (TurnView::<BootStageView>::Go {
            stage: BootStageOf::Expose { pid },
            steps: expose_steps(name, text, uid, gid, pid),
        }),
        BootStage::next(BootStageOf::Expose { pid }, reply) == giving::<BootStageView>(
            ValueOf::Pid { pid },
        ),
        !guest_hostname(name, Some(text)).contains('\0') ==> (BootStage::next(
            BootStageOf::Name { name, uid },
            ReplyOf::Text { text },
        ) matches TurnOf::Go { stage, steps } && stage == (BootStageView::Inside { name }) && steps
            == inside_steps(name, uid, guest_hostname(name, Some(text)))),
        !(reply is Text) ==> BootStage::next(BootStageOf::Name { name, uid }, reply) == (TurnView::<
            BootStageView,
        >::Go {
            stage: BootStageOf::BaseName { name, uid },
            steps: no_steps().push(
                attempt(
                    ActionOf::ReadText {
                        path: path_join(distro_path(name, "rootfs"@), "etc/hostname"@),
                    },
                ),
            ),
        }),
        !(reply is Text) && !name.contains('\0') ==> (BootStage::next(
            BootStageOf::BaseName { name, uid },
            reply,
        ) matches TurnOf::Go { stage, steps } && steps == inside_steps(name, uid, "lsl-"@ + name)),
        BootStage::next(BootStageOf::Pivoted, reply) == giving::<BootStageView>(ValueOf::Nothing),
        BootStage::next(BootStageOf::Rooted, reply) == giving::<BootStageView>(ValueOf::Nothing),
{
    reveal_strlit("lsl-");
    let own = "lsl-"@ + name;
    if own.contains('\0') && !name.contains('\0') {
        let i = choose|i: int| 0 <= i < own.len() && own[i] == '\0';
        if i >= 4 {
            assert(name[i - 4] == '\0');
        }
    }
}

} // verus!
