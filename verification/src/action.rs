//! What a task asks of the host and what the host answers.
//!
//! Each kind of message is one generic type: instantiated with strings it is
//! what runs, instantiated with sequences it is what contracts speak of.
use vstd::prelude::*;

use crate::config::{opt_text, ConfigView, DistroConfig, DistroView, GlobalConfig};
use crate::text::{lemma_texts_push, texts};

verus! {

/// How a piece of output is set.
#[derive(Clone, Copy, Debug, PartialEq, Eq, Structural)]
pub enum Style {
    Plain,
    Blue,
    BlueBold,
    Cyan,
    Green,
    GreenBold,
    Yellow,
    Red,
    RedBold,
}

/// How a mount is made.
#[derive(Clone, Copy, Debug, PartialEq, Eq, Structural)]
pub enum MountFlags {
    /// A file system of its own.
    Plain,
    /// Another name for a directory.
    Bind,
    /// Another name for a directory and the mounts below it.
    BindTree,
    /// No new mount: changes to this one and those below stay private.
    PrivateTree,
}

/// A kernel namespace.
#[derive(Clone, Copy, Debug, PartialEq, Eq, Structural)]
pub enum Namespace {
    User,
    Mnt,
    Uts,
    Ipc,
    Net,
    Pid,
}

/// A choice of kernel namespaces.
#[derive(Clone, Copy, Debug, PartialEq, Eq, Structural)]
pub struct Kinds {
    pub user: bool,
    pub mnt: bool,
    pub uts: bool,
    pub ipc: bool,
    pub net: bool,
    pub pid: bool,
}

/// Which optional tools a guest is given.
#[derive(Clone, Copy, Debug, PartialEq, Eq, Structural)]
pub enum Packages {
    Minimal,
    Core,
    Headless,
}

// ---------------------------------------------------------------------- actions

/// One thing to do on the host.
#[derive(Debug, PartialEq, Eq)]
pub enum ActionOf<T, L, C> {
    /// Print a line; `text` is set in the style.
    Say { lead: T, style: Style, text: T, tail: T },
    /// Print a line to the error stream.
    Warn { lead: T, style: Style, text: T, tail: T },
    /// Run a program and wait for it.
    Run { program: T, args: L },
    /// Run a program and collect its output.
    Capture { program: T, args: L },
    /// Ask whether a path exists.
    Exists { path: T },
    /// Read a file that holds text.
    ReadText { path: T },
    /// Read a file.
    ReadBytes { path: T },
    /// Create a directory and those above it.
    CreateDirs { path: T },
    /// Create an empty file, or empty the one that is there.
    CreateFile { path: T },
    /// Give a file these contents.
    WriteText { path: T, text: T },
    /// Append to a file that is there.
    AppendText { path: T, text: T },
    /// Remove a file.
    RemoveFile { path: T },
    /// Remove an empty directory.
    RemoveDir { path: T },
    /// Remove a directory and all in it.
    RemoveTree { path: T },
    /// Set the permission bits of a file.
    SetMode { path: T, mode: u32 },
    /// Set the owner of a file.
    SetOwner { path: T, uid: u32, gid: u32 },
    /// Load the configuration.
    LoadConfig,
    /// Write the configuration to a file.
    StoreConfig { path: T, config: C },
    /// Mount a file system.
    Mount { source: Option<T>, target: T, fstype: Option<T>, flags: MountFlags, data: Option<T> },
    /// Detach a mount.
    Unmount { target: T },
    /// Ask who runs the program.
    AskUser,
    /// Ask for the home directory of who runs the program.
    AskHome,
    /// Ask for the environment.
    AskVariables,
    /// Ask for the working directory.
    AskDirectory,
    /// Open a pipe.
    OpenPipe,
    /// Close the reading end of the pipe.
    CloseReader,
    /// Close the writing end of the pipe.
    CloseWriter,
    /// Send a process number through the pipe.
    SendPid { child: i32 },
    /// Receive a process number from the pipe.
    ReceivePid,
    /// Fork the process.
    Fork,
    /// Wait for a child.
    Wait { child: i32 },
    /// Sleep.
    Sleep { millis: u64 },
    /// Ask whether a process can be signalled.
    Probe { pid: u32 },
    /// Kill a process.
    Kill { pid: u32 },
    /// Leave the host's namespaces of these kinds for new ones.
    Unshare { kinds: Kinds },
    /// Open a namespace file.
    OpenNamespace { kind: Namespace, path: T },
    /// Enter a namespace that was opened; nothing is to be done for one that was not.
    EnterNamespace { kind: Namespace },
    /// Send the output streams to a file.
    Redirect { path: T },
    /// Set the host name.
    SetHostname { name: T },
    /// Make a mount the root and move the old root below it.
    PivotRoot { root: T, old: T },
    /// Change the root directory.
    ChangeRoot { path: T },
    /// Change the working directory.
    ChangeDir { path: T },
    /// Take the groups of a user.
    InitGroups { user: T, gid: u32 },
    /// Take a single group.
    SetGroups { gid: u32 },
    /// Take a group identity.
    SetGid { gid: u32 },
    /// Take a user identity.
    SetUid { uid: u32 },
    /// Replace the environment; each name goes with the value at its place.
    ReplaceVariables { names: L, values: L },
    /// Replace the program by another.
    Exec { args: L },
    /// Run a program with a search path of its own and wait for it.
    RunWith { path: T, args: L },
    /// End the process.
    Exit { code: i32 },
    /// Find the init process of a distribution.
    FindPid { name: T },
    /// Boot a distribution.
    Boot { name: T },
    /// Stop a distribution.
    Stop { name: T },
    /// Connect a distribution to the network.
    SetUpNetwork { name: T, pid: u32, ip: T, mac: T },
    /// Create a user in a root file system.
    SetUpUser { root: T, user: T, uid: u32, gid: u32 },
    /// Import a distribution from an archive.
    Import { name: T, tar: T },
    /// Run a command in a distribution.
    InGuest { pid: u32, args: L },
    /// Ask for the account that a distribution is to have.
    Interview { name: T },
    /// Ask with whose rights the program runs.
    AskIdentity,
    /// Start over in a terminal window, for the same distribution and as the same user.
    OpenTerminal { distro: Option<T>, as_root: bool },
    /// Install the supported distribution.
    Install,
    /// Remove a distribution.
    Unregister { name: T },
    /// List the distributions of a configuration.
    List { config: C },
    /// Run a command, or a login shell, in a distribution.
    Visit { name: T, args: L, as_root: bool },
}

/// An action as it is carried out.
pub type Action = ActionOf<String, Vec<String>, GlobalConfig>;

/// An action as contracts see it.
pub type ActionView = ActionOf<Seq<char>, Seq<Seq<char>>, ConfigView>;

impl View for Action {
    type V = ActionView;

    open spec fn view(&self) -> ActionView {
        match *self {
            ActionOf::Say { lead, style, text, tail } => ActionOf::Say {
                lead: lead@,
                style,
                text: text@,
                tail: tail@,
            },
            ActionOf::Warn { lead, style, text, tail } => ActionOf::Warn {
                lead: lead@,
                style,
                text: text@,
                tail: tail@,
            },
            ActionOf::Run { program, args } => ActionOf::Run {
                program: program@,
                args: texts(args@),
            },
            ActionOf::Capture { program, args } => ActionOf::Capture {
                program: program@,
                args: texts(args@),
            },
            ActionOf::Exists { path } => ActionOf::Exists { path: path@ },
            ActionOf::ReadText { path } => ActionOf::ReadText { path: path@ },
            ActionOf::ReadBytes { path } => ActionOf::ReadBytes { path: path@ },
            ActionOf::CreateDirs { path } => ActionOf::CreateDirs { path: path@ },
            ActionOf::CreateFile { path } => ActionOf::CreateFile { path: path@ },
            ActionOf::WriteText { path, text } => ActionOf::WriteText { path: path@, text: text@ },
            ActionOf::AppendText { path, text } => ActionOf::AppendText {
                path: path@,
                text: text@,
            },
            ActionOf::RemoveFile { path } => ActionOf::RemoveFile { path: path@ },
            ActionOf::RemoveDir { path } => ActionOf::RemoveDir { path: path@ },
            ActionOf::RemoveTree { path } => ActionOf::RemoveTree { path: path@ },
            ActionOf::SetMode { path, mode } => ActionOf::SetMode { path: path@, mode },
            ActionOf::SetOwner { path, uid, gid } => ActionOf::SetOwner { path: path@, uid, gid },
            ActionOf::LoadConfig => ActionOf::LoadConfig,
            ActionOf::StoreConfig { path, config } => ActionOf::StoreConfig {
                path: path@,
                config: config@,
            },
            ActionOf::Mount { source, target, fstype, flags, data } => ActionOf::Mount {
                source: opt_text(source),
                target: target@,
                fstype: opt_text(fstype),
                flags,
                data: opt_text(data),
            },
            ActionOf::Unmount { target } => ActionOf::Unmount { target: target@ },
            ActionOf::AskUser => ActionOf::AskUser,
            ActionOf::AskHome => ActionOf::AskHome,
            ActionOf::AskVariables => ActionOf::AskVariables,
            ActionOf::AskDirectory => ActionOf::AskDirectory,
            ActionOf::OpenPipe => ActionOf::OpenPipe,
            ActionOf::CloseReader => ActionOf::CloseReader,
            ActionOf::CloseWriter => ActionOf::CloseWriter,
            ActionOf::SendPid { child } => ActionOf::SendPid { child },
            ActionOf::ReceivePid => ActionOf::ReceivePid,
            ActionOf::Fork => ActionOf::Fork,
            ActionOf::Wait { child } => ActionOf::Wait { child },
            ActionOf::Sleep { millis } => ActionOf::Sleep { millis },
            ActionOf::Probe { pid } => ActionOf::Probe { pid },
            ActionOf::Kill { pid } => ActionOf::Kill { pid },
            ActionOf::Unshare { kinds } => ActionOf::Unshare { kinds },
            ActionOf::OpenNamespace { kind, path } => ActionOf::OpenNamespace { kind, path: path@ },
            ActionOf::EnterNamespace { kind } => ActionOf::EnterNamespace { kind },
            ActionOf::Redirect { path } => ActionOf::Redirect { path: path@ },
            ActionOf::SetHostname { name } => ActionOf::SetHostname { name: name@ },
            ActionOf::PivotRoot { root, old } => ActionOf::PivotRoot { root: root@, old: old@ },
            ActionOf::ChangeRoot { path } => ActionOf::ChangeRoot { path: path@ },
            ActionOf::ChangeDir { path } => ActionOf::ChangeDir { path: path@ },
            ActionOf::InitGroups { user, gid } => ActionOf::InitGroups { user: user@, gid },
            ActionOf::SetGroups { gid } => ActionOf::SetGroups { gid },
            ActionOf::SetGid { gid } => ActionOf::SetGid { gid },
            ActionOf::SetUid { uid } => ActionOf::SetUid { uid },
            ActionOf::ReplaceVariables { names, values } => ActionOf::ReplaceVariables {
                names: texts(names@),
                values: texts(values@),
            },
            ActionOf::Exec { args } => ActionOf::Exec { args: texts(args@) },
            ActionOf::RunWith { path, args } => ActionOf::RunWith {
                path: path@,
                args: texts(args@),
            },
            ActionOf::Exit { code } => ActionOf::Exit { code },
            ActionOf::FindPid { name } => ActionOf::FindPid { name: name@ },
            ActionOf::Boot { name } => ActionOf::Boot { name: name@ },
            ActionOf::Stop { name } => ActionOf::Stop { name: name@ },
            ActionOf::SetUpNetwork { name, pid, ip, mac } => ActionOf::SetUpNetwork {
                name: name@,
                pid,
                ip: ip@,
                mac: mac@,
            },
            ActionOf::SetUpUser { root, user, uid, gid } => ActionOf::SetUpUser {
                root: root@,
                user: user@,
                uid,
                gid,
            },
            ActionOf::Import { name, tar } => ActionOf::Import { name: name@, tar: tar@ },
            ActionOf::InGuest { pid, args } => ActionOf::InGuest { pid, args: texts(args@) },
            ActionOf::Interview { name } => ActionOf::Interview { name: name@ },
            ActionOf::AskIdentity => ActionOf::AskIdentity,
            ActionOf::OpenTerminal { distro, as_root } => ActionOf::OpenTerminal {
                distro: opt_text(distro),
                as_root,
            },
            ActionOf::Install => ActionOf::Install,
            ActionOf::Unregister { name } => ActionOf::Unregister { name: name@ },
            ActionOf::List { config } => ActionOf::List { config: config@ },
            ActionOf::Visit { name, args, as_root } => ActionOf::Visit {
                name: name@,
                args: texts(args@),
                as_root,
            },
        }
    }
}

// ---------------------------------------------------------------------- replies

/// The variables of the environment that matter.
#[derive(Debug, PartialEq, Eq)]
pub struct VariablesOf<O> {
    pub term: O,
    pub display: O,
    pub xauthority: O,
    pub wayland_display: O,
    pub sudo_user: O,
    pub executable: O,
}

pub type Variables = VariablesOf<Option<String>>;

pub type VariablesView = VariablesOf<Option<Seq<char>>>;

impl View for Variables {
    type V = VariablesView;

    open spec fn view(&self) -> VariablesView {
        VariablesOf {
            term: opt_text(self.term),
            display: opt_text(self.display),
            xauthority: opt_text(self.xauthority),
            wayland_display: opt_text(self.wayland_display),
            sudo_user: opt_text(self.sudo_user),
            executable: opt_text(self.executable),
        }
    }
}

/// The account that a guest is given when it is first entered.
#[derive(Debug, PartialEq, Eq)]
pub struct AccountOf<T> {
    pub username: T,
    pub hostname: T,
    pub password: T,
    pub root_password: T,
    pub packages: Packages,
}

pub type Account = AccountOf<String>;

pub type AccountView = AccountOf<Seq<char>>;

impl View for Account {
    type V = AccountView;

    open spec fn view(&self) -> AccountView {
        AccountOf {
            username: self.username@,
            hostname: self.hostname@,
            password: self.password@,
            root_password: self.root_password@,
            packages: self.packages,
        }
    }
}

/// What the host answers to an action.
#[derive(Debug, PartialEq, Eq)]
pub enum ReplyOf<T, B, C, E, D, A> {
    /// Done, with nothing to tell.
    Done,
    /// The action failed, with an error of this class.
    Failed { kind: FaultKind, error: T },
    /// What was to be acted on was not found.
    Gone,
    /// The program ran, and succeeded or not.
    Exit { success: bool },
    /// Whether the path exists.
    Found { exists: bool },
    /// A text.
    Text { text: T },
    /// The bytes of a file.
    Bytes { bytes: B },
    /// The program ran and wrote this.
    Output { success: bool, bytes: B },
    /// The configuration.
    Config { config: C },
    /// Who runs the program.
    User { name: T, uid: u32, gid: u32 },
    /// The environment.
    Variables { env: E },
    /// In the parent, the child; in the child, nothing.
    Forked { child: Option<i32> },
    /// The exit code of the child, if it exited.
    Waited { code: Option<i32> },
    /// A process number.
    Received { number: i32 },
    /// Whether the signal went through, or was denied.
    Probed { delivered: bool, denied: bool },
    /// The init process of a distribution, if it runs.
    Located { found: Option<u32> },
    /// The init process of the distribution that was booted.
    Booted { pid: u32 },
    /// The distribution that was imported.
    Registered { distro: D },
    /// The account that was asked for.
    Account { account: A },
    /// The user with whose rights the program runs.
    Identity { effective: u32 },
}

/// A reply as it comes in.
pub type Reply = ReplyOf<String, Vec<u8>, GlobalConfig, Variables, DistroConfig, Account>;

/// A reply as contracts see it.
pub type ReplyView = ReplyOf<
    Seq<char>,
    Seq<u8>,
    ConfigView,
    VariablesView,
    DistroView,
    AccountView,
>;

impl View for Reply {
    type V = ReplyView;

    open spec fn view(&self) -> ReplyView {
        match *self {
            ReplyOf::Done => ReplyOf::Done,
            ReplyOf::Failed { kind, error } => ReplyOf::Failed { kind, error: error@ },
            ReplyOf::Gone => ReplyOf::Gone,
            ReplyOf::Exit { success } => ReplyOf::Exit { success },
            ReplyOf::Found { exists } => ReplyOf::Found { exists },
            ReplyOf::Text { text } => ReplyOf::Text { text: text@ },
            ReplyOf::Bytes { bytes } => ReplyOf::Bytes { bytes: bytes@ },
            ReplyOf::Output { success, bytes } => ReplyOf::Output { success, bytes: bytes@ },
            ReplyOf::Config { config } => ReplyOf::Config { config: config@ },
            ReplyOf::User { name, uid, gid } => ReplyOf::User { name: name@, uid, gid },
            ReplyOf::Variables { env } => ReplyOf::Variables { env: env@ },
            ReplyOf::Forked { child } => ReplyOf::Forked { child },
            ReplyOf::Waited { code } => ReplyOf::Waited { code },
            ReplyOf::Received { number } => ReplyOf::Received { number },
            ReplyOf::Probed { delivered, denied } => ReplyOf::Probed { delivered, denied },
            ReplyOf::Located { found } => ReplyOf::Located { found },
            ReplyOf::Booted { pid } => ReplyOf::Booted { pid },
            ReplyOf::Registered { distro } => ReplyOf::Registered { distro: distro@ },
            ReplyOf::Account { account } => ReplyOf::Account { account: account@ },
            ReplyOf::Identity { effective } => ReplyOf::Identity { effective },
        }
    }
}

// --------------------------------------------------------------------- outcomes

/// The class of an error.
#[derive(Clone, Copy, Debug, PartialEq, Eq, Structural)]
pub enum FaultKind {
    NotFound,
    AlreadyExists,
    InvalidInput,
    InvalidData,
    UnexpectedEof,
    Other,
    /// The host's own error, by its number.
    Host { code: i32 },
    /// Nothing sensible can follow: the process is to be abandoned.
    Panic,
}

/// Why a task failed.
#[derive(Debug, PartialEq, Eq)]
pub struct FaultOf<T> {
    pub kind: FaultKind,
    pub message: T,
}

pub type Fault = FaultOf<String>;

pub type FaultView = FaultOf<Seq<char>>;

impl View for Fault {
    type V = FaultView;

    open spec fn view(&self) -> FaultView {
        FaultOf { kind: self.kind, message: self.message@ }
    }
}

/// Makes a fault.
pub fn fault(kind: FaultKind, message: &str) -> (r: Fault)
    ensures
        r@ == (FaultOf { kind, message: message@ }),
{
    FaultOf { kind, message: message.to_owned() }
}

/// What a task that succeeded gives back.
#[derive(Debug, PartialEq, Eq)]
pub enum ValueOf<D> {
    Nothing,
    Pid { pid: u32 },
    Located { found: Option<u32> },
    Code { code: i32 },
    Flag { yes: bool },
    Distro { distro: D },
}

pub type Value = ValueOf<DistroConfig>;

pub type ValueView = ValueOf<DistroView>;

impl View for Value {
    type V = ValueView;

    open spec fn view(&self) -> ValueView {
        match *self {
            ValueOf::Nothing => ValueOf::Nothing,
            ValueOf::Pid { pid } => ValueOf::Pid { pid },
            ValueOf::Located { found } => ValueOf::Located { found },
            ValueOf::Code { code } => ValueOf::Code { code },
            ValueOf::Flag { yes } => ValueOf::Flag { yes },
            ValueOf::Distro { distro } => ValueOf::Distro { distro: distro@ },
        }
    }
}

/// How a task ended, as contracts see it.
pub open spec fn ended(r: Result<Value, Fault>) -> Result<ValueView, FaultView> {
    match r {
        Ok(v) => Ok(v@),
        Err(f) => Err(f@),
    }
}

/// What a task is told of another task that it asked for. An error is told whole,
/// with its class.
pub open spec fn told(result: Result<ValueView, FaultView>) -> ReplyView {
    match result {
        Ok(ValueOf::Nothing) => ReplyOf::Done,
        Ok(ValueOf::Pid { pid }) => ReplyOf::Booted { pid },
        Ok(ValueOf::Located { found }) => ReplyOf::Located { found },
        Ok(ValueOf::Code { code }) => ReplyOf::Waited { code: Some(code) },
        Ok(ValueOf::Flag { yes }) => ReplyOf::Exit { success: yes },
        Ok(ValueOf::Distro { distro }) => ReplyOf::Registered { distro },
        Err(f) => ReplyOf::Failed { kind: f.kind, error: f.message },
    }
}

/// Makes the reply out of the result of a task.
pub fn tell(result: Result<Value, Fault>) -> (r: Reply)
    ensures
        r@ == told(ended(result)),
{
    match result {
        Ok(ValueOf::Nothing) => ReplyOf::Done,
        Ok(ValueOf::Pid { pid }) => ReplyOf::Booted { pid },
        Ok(ValueOf::Located { found }) => ReplyOf::Located { found },
        Ok(ValueOf::Code { code }) => ReplyOf::Waited { code: Some(code) },
        Ok(ValueOf::Flag { yes }) => ReplyOf::Exit { success: yes },
        Ok(ValueOf::Distro { distro }) => ReplyOf::Registered { distro },
        Err(f) => ReplyOf::Failed { kind: f.kind, error: f.message },
    }
}

// ------------------------------------------------------------------------ words

/// A list of words, such as the arguments of a command.
pub struct Words {
    pub items: Vec<String>,
}

impl View for Words {
    type V = Seq<Seq<char>>;

    open spec fn view(&self) -> Seq<Seq<char>> {
        texts(self.items@)
    }
}

/// No words.
pub open spec fn no_words() -> Seq<Seq<char>> {
    Seq::empty()
}

/// Starts a list of words.
pub fn words() -> (r: Words)
    ensures
        r@ == no_words(),
{
    let r = Words { items: Vec::new() };
    assert(r@ =~= no_words());
    r
}

impl Words {
    /// One word more.
    pub fn with(self, word: &str) -> (r: Words)
        ensures
            r@ == self@.push(word@),
    {
        let mut items: Vec<String> = self.items;
        let w: String = word.to_owned();
        proof {
            lemma_texts_push(items@, w);
        }
        items.push(w);
        Words { items }
    }
}

// ----------------------------------------------------------------- making actions

/// An unstyled line in one style.
pub open spec fn line(style: Style, text: Seq<char>) -> ActionView {
    ActionOf::Say { lead: Seq::empty(), style, text, tail: Seq::empty() }
}

/// A line in one style.
pub fn say(style: Style, text: String) -> (r: Action)
    ensures
        r@ == line(style, text@),
{
    ActionOf::Say { lead: String::new(), style, text, tail: String::new() }
}

/// A line on the error stream in one style.
pub open spec fn error_line(style: Style, text: Seq<char>) -> ActionView {
    ActionOf::Warn { lead: Seq::empty(), style, text, tail: Seq::empty() }
}

/// A line on the error stream in one style.
pub fn warn(style: Style, text: String) -> (r: Action)
    ensures
        r@ == error_line(style, text@),
{
    ActionOf::Warn { lead: String::new(), style, text, tail: String::new() }
}

/// A program with its arguments, to be run.
pub open spec fn command(program: Seq<char>, args: Seq<Seq<char>>) -> ActionView {
    ActionOf::Run { program, args }
}

/// A program with its arguments, to be run.
pub fn run(program: &str, args: Words) -> (r: Action)
    ensures
        r@ == command(program@, args@),
{
    ActionOf::Run { program: program.to_owned(), args: args.items }
}

/// A program with its arguments, to be run for its output.
pub open spec fn query(program: Seq<char>, args: Seq<Seq<char>>) -> ActionView {
    ActionOf::Capture { program, args }
}

/// A program with its arguments, to be run for its output.
pub fn capture(program: &str, args: Words) -> (r: Action)
    ensures
        r@ == query(program@, args@),
{
    ActionOf::Capture { program: program.to_owned(), args: args.items }
}

/// How an operation ended is told to its caller as it is: the number of a process, whether
/// one was found, an exit code, a yes or a no, a distribution; and an error with its class
/// and its text.
pub proof fn law_results_are_told_as_they_are(
    pid: u32,
    found: Option<u32>,
    code: i32,
    yes: bool,
    distro: DistroView,
    fault: FaultView,
)
    ensures
        told(Ok(ValueOf::Nothing)) == ReplyView::Done,
        told(Ok(ValueOf::Pid { pid })) == (ReplyView::Booted { pid }),
        told(Ok(ValueOf::Located { found })) == (ReplyView::Located { found }),
        told(Ok(ValueOf::Code { code })) == (ReplyView::Waited { code: Some(code) }),
        told(Ok(ValueOf::Flag { yes })) == (ReplyView::Exit { success: yes }),
        told(Ok(ValueOf::Distro { distro })) == (ReplyView::Registered { distro }),
        told(Err(fault)) == (ReplyView::Failed { kind: fault.kind, error: fault.message }),
{
}

/// A command is the program with all its arguments, in order, and so is one that is run for
/// its output; a line is its text, and nothing before or behind it.
pub proof fn law_actions_are_what_they_say(
    program: Seq<char>,
    args: Seq<Seq<char>>,
    style: Style,
    text: Seq<char>,
)
    ensures
        command(program, args) == (ActionView::Run { program, args }),
        query(program, args) == (ActionView::Capture { program, args }),
        line(style, text) matches ActionOf::Say { lead, style: s, text: t, tail } && t == text && s
            == style && lead.len() == 0 && tail.len() == 0,
        error_line(style, text) matches ActionOf::Warn { lead, style: s, text: t, tail } && t == text
            && s == style && lead.len() == 0 && tail.len() == 0,
        no_words().len() == 0,
{
}

} // verus!
