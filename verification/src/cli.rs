//! What the program does for each of its commands.
use vstd::prelude::*;

use crate::action::{
    fault, line, Action, ActionOf, ActionView, Fault, FaultKind, FaultView, Reply, ReplyOf,
    ReplyView, Style, ValueOf,
};
use crate::config::{
    config_file, dirs_steps, ensure_dirs, law_updates_coherent, opt_text, registered, save_steps,
    ConfigView, GlobalConfig,
};
use crate::task::{
    after_replies, attempt, entered, failing, giving, heard, lemma_heard_grows, must, no_steps,
    pending, resumed, started, stray, take_stray, turned, Plan, StepView, Steps, Task, TaskOf,
    TaskView, Turn, TurnOf, TurnView,
};
use crate::text::{is_ascii_text, lowercase, same, small, texts, to_lower};

verus! {

// --------------------------------------------------------------------- requests

/// What the program is asked to do.
pub enum CommandOf<T, L> {
    /// Run the words of the request, or a login shell if there are none.
    Shell,
    /// Install a distribution.
    Install { distro: T },
    /// Import a distribution from an archive.
    Import { name: T, tar: T },
    /// Remove a distribution.
    Unregister { name: T },
    /// List the distributions.
    List,
    /// Stop a distribution.
    Stop { name: T },
    /// Make a distribution the default.
    Default { name: T },
    /// Run a command.
    Run { root: bool, args: L },
}

pub type Command = CommandOf<String, Vec<String>>;

pub type CommandView = CommandOf<Seq<char>, Seq<Seq<char>>>;

impl View for Command {
    type V = CommandView;

    open spec fn view(&self) -> CommandView {
        match *self {
            CommandOf::Shell => CommandOf::Shell,
            CommandOf::Install { distro } => CommandOf::Install { distro: distro@ },
            CommandOf::Import { name, tar } => CommandOf::Import { name: name@, tar: tar@ },
            CommandOf::Unregister { name } => CommandOf::Unregister { name: name@ },
            CommandOf::List => CommandOf::List,
            CommandOf::Stop { name } => CommandOf::Stop { name: name@ },
            CommandOf::Default { name } => CommandOf::Default { name: name@ },
            CommandOf::Run { root, args } => CommandOf::Run { root, args: texts(args@) },
        }
    }
}

/// A request as it was given on the command line.
pub struct RequestOf<T, L> {
    pub distro: Option<T>,
    pub root: bool,
    pub args: L,
    pub command: CommandOf<T, L>,
}

pub type Request = RequestOf<String, Vec<String>>;

pub type RequestView = RequestOf<Seq<char>, Seq<Seq<char>>>;

impl View for Request {
    type V = RequestView;

    open spec fn view(&self) -> RequestView {
        RequestOf {
            distro: opt_text(self.distro),
            root: self.root,
            args: texts(self.args@),
            command: self.command@,
        }
    }
}

/// A request for a login shell that has no window of its own yet.
pub open spec fn wants_window(request: RequestView, spawned: bool) -> bool {
    request.command is Shell && request.args.len() == 0 && !spawned
}

/// The distributions that can be installed by name.
pub open spec fn offered(lowered: Seq<char>) -> bool {
    lowered == "kali"@
}

/// Tells whether a distribution, its name in lower case, can be installed.
pub fn is_offered(lowered: &str) -> (r: bool)
    ensures
        r == offered(lowered@),
{
    same(lowered, "kali")
}

/// Tells whether a distribution can be installed by this name, in large or small
/// letters.
pub fn is_supported(distro: &str) -> (r: bool)
    ensures
        r == offered(lowercase(distro@)),
        is_ascii_text(distro@) ==> r == offered(distro@.map_values(|c: char| small(c))),
{
    is_offered(to_lower(distro).as_str())
}

/// The distribution that a command goes to: the one that was named, else the
/// default.
pub open spec fn target(distro: Option<Seq<char>>, config: ConfigView) -> Option<Seq<char>> {
    match distro {
        Some(d) => Some(d),
        None => config.default_distro,
    }
}

/// Finds the distribution that a command goes to.
pub fn find_target(distro: Option<String>, config: GlobalConfig) -> (r: Option<String>)
    ensures
        opt_text(r) == target(opt_text(distro), config@),
{
    match distro {
        Some(d) => Some(d),
        None => config.default_distro,
    }
}

// --------------------------------------------------------------------- messages

/// A line that tells of an error.
pub open spec fn complaint(text: Seq<char>) -> ActionView {
    ActionOf::Warn { lead: Seq::empty(), style: Style::RedBold, text: "Error:"@, tail: text }
}

fn complain(text: String) -> (r: Action)
    ensures
        r@ == complaint(text@),
{
    ActionOf::Warn {
        lead: String::new(),
        style: Style::RedBold,
        text: "Error:".to_owned(),
        tail: text,
    }
}

// ------------------------------------------------------------------------- plan

/// A stage of answering a request.
pub enum CliStageOf<T, L> {
    /// A window is being opened.
    Window { request: RequestOf<T, L> },
    /// The rights of the program are being asked for.
    Rights { request: RequestOf<T, L> },
    /// The directories are being made.
    Prepare { request: RequestOf<T, L> },
    /// The distribution that a command goes to is being looked up.
    Seek { distro: Option<T>, args: L, root: bool },
    /// A distribution is being installed.
    Install,
    /// A distribution is being imported.
    Import,
    /// A distribution is being removed.
    Unregister,
    /// The distributions that are to be listed are being looked up.
    Survey,
    /// The distributions are being listed.
    List,
    /// A distribution is being stopped.
    Stop,
    /// The distribution that is to be the default is being looked up.
    Default { name: T },
    /// A command is being run.
    Visit,
    /// The last word is being said.
    Tell,
    /// The program ends.
    Leave,
}

pub type CliStage = CliStageOf<String, Vec<String>>;

pub type CliStageView = CliStageOf<Seq<char>, Seq<Seq<char>>>;

impl View for CliStage {
    type V = CliStageView;

    open spec fn view(&self) -> CliStageView {
        match *self {
            CliStageOf::Window { request } => CliStageOf::Window { request: request@ },
            CliStageOf::Rights { request } => CliStageOf::Rights { request: request@ },
            CliStageOf::Prepare { request } => CliStageOf::Prepare { request: request@ },
            CliStageOf::Seek { distro, args, root } => CliStageOf::Seek {
                distro: opt_text(distro),
                args: texts(args@),
                root,
            },
            CliStageOf::Install => CliStageOf::Install,
            CliStageOf::Import => CliStageOf::Import,
            CliStageOf::Unregister => CliStageOf::Unregister,
            CliStageOf::Survey => CliStageOf::Survey,
            CliStageOf::List => CliStageOf::List,
            CliStageOf::Stop => CliStageOf::Stop,
            CliStageOf::Default { name } => CliStageOf::Default { name: name@ },
            CliStageOf::Visit => CliStageOf::Visit,
            CliStageOf::Tell => CliStageOf::Tell,
            CliStageOf::Leave => CliStageOf::Leave,
        }
    }
}

/// A turn that says a last word.
pub open spec fn tell_turn(action: ActionView) -> TurnView<CliStageView> {
    TurnOf::Go { stage: CliStageOf::Tell, steps: no_steps().push(attempt(action)) }
}

fn take_tell(action: Action) -> (r: Turn<CliStage>)
    ensures
        turned(r) == tell_turn(action@),
{
    TurnOf::Go { stage: CliStageOf::Tell, steps: Steps::new().attempt(action) }
}

/// A turn that ends the program, after some steps.
pub open spec fn leave_turn(steps: Seq<StepView>, code: i32) -> TurnView<CliStageView> {
    TurnOf::Go { stage: CliStageOf::Leave, steps: steps.push(attempt(ActionOf::Exit { code })) }
}

fn take_leave(steps: Steps, code: i32) -> (r: Turn<CliStage>)
    ensures
        turned(r) == leave_turn(steps@, code),
{
    TurnOf::Go { stage: CliStageOf::Leave, steps: steps.attempt(ActionOf::Exit { code }) }
}

/// The turn to the rights of the program.
pub open spec fn rights_turn(request: RequestView) -> TurnView<CliStageView> {
    TurnOf::Go {
        stage: CliStageOf::Rights { request },
        steps: no_steps().push(attempt(ActionOf::AskIdentity)),
    }
}

fn take_rights(request: Request) -> (r: Turn<CliStage>)
    ensures
        turned(r) == rights_turn(request@),
{
    TurnOf::Go {
        stage: CliStageOf::Rights { request },
        steps: Steps::new().attempt(ActionOf::AskIdentity),
    }
}

/// The turn that does what is asked for.
pub open spec fn serve_turn(request: RequestView) -> TurnView<CliStageView> {
    match request.command {
        CommandOf::Shell => TurnOf::Go {
            stage: CliStageOf::Seek {
                distro: request.distro,
                args: request.args,
                root: request.root,
            },
            steps: no_steps().push(attempt(ActionOf::LoadConfig)),
        },
        CommandOf::Install { distro } => if offered(lowercase(distro)) {
            TurnOf::Go {
                stage: CliStageOf::Install,
                steps: no_steps().push(must(ActionOf::Install)),
            }
        } else {
            tell_turn(
                complaint(
                    " Distribution '"@ + distro
                        + "' is not supported for auto-installation. Currently, only 'kali' is supported."@,
                ),
            )
        },
        CommandOf::Import { name, tar } => TurnOf::Go {
            stage: CliStageOf::Import,
            steps: no_steps().push(must(ActionOf::Import { name, tar })),
        },
        CommandOf::Unregister { name } => TurnOf::Go {
            stage: CliStageOf::Unregister,
            steps: no_steps().push(must(ActionOf::Unregister { name })),
        },
        CommandOf::List => TurnOf::Go {
            stage: CliStageOf::Survey,
            steps: no_steps().push(attempt(ActionOf::LoadConfig)),
        },
        CommandOf::Stop { name } => TurnOf::Go {
            stage: CliStageOf::Stop,
            steps: no_steps().push(must(ActionOf::Stop { name })),
        },
        CommandOf::Default { name } => TurnOf::Go {
            stage: CliStageOf::Default { name },
            steps: no_steps().push(attempt(ActionOf::LoadConfig)),
        },
        CommandOf::Run { root, args } => TurnOf::Go {
            stage: CliStageOf::Seek { distro: request.distro, args, root },
            steps: no_steps().push(attempt(ActionOf::LoadConfig)),
        },
    }
}

fn take_serve(request: Request) -> (r: Turn<CliStage>)
    ensures
        turned(r) == serve_turn(request@),
{
    match request.command {
        CommandOf::Shell => TurnOf::Go {
            stage: CliStageOf::Seek {
                distro: request.distro,
                args: request.args,
                root: request.root,
            },
            steps: Steps::new().attempt(ActionOf::LoadConfig),
        },
        CommandOf::Install { distro } => if is_supported(distro.as_str()) {
            TurnOf::Go { stage: CliStageOf::Install, steps: Steps::new().must(ActionOf::Install) }
        } else {
            take_tell(
                complain(
                    " Distribution '".to_owned().concat(distro.as_str()).concat(
                        "' is not supported for auto-installation. Currently, only 'kali' is supported.",
                    ),
                ),
            )
        },
        CommandOf::Import { name, tar } => TurnOf::Go {
            stage: CliStageOf::Import,
            steps: Steps::new().must(ActionOf::Import { name, tar }),
        },
        CommandOf::Unregister { name } => TurnOf::Go {
            stage: CliStageOf::Unregister,
            steps: Steps::new().must(ActionOf::Unregister { name }),
        },
        CommandOf::List => TurnOf::Go {
            stage: CliStageOf::Survey,
            steps: Steps::new().attempt(ActionOf::LoadConfig),
        },
        CommandOf::Stop { name } => TurnOf::Go {
            stage: CliStageOf::Stop,
            steps: Steps::new().must(ActionOf::Stop { name }),
        },
        CommandOf::Default { name } => TurnOf::Go {
            stage: CliStageOf::Default { name },
            steps: Steps::new().attempt(ActionOf::LoadConfig),
        },
        CommandOf::Run { root, args } => TurnOf::Go {
            stage: CliStageOf::Seek { distro: request.distro, args, root },
            steps: Steps::new().attempt(ActionOf::LoadConfig),
        },
    }
}

impl Plan for CliStage {
    open spec fn rank(stage: CliStageView) -> nat {
        match stage {
            CliStageOf::Window { request } => 5,
            CliStageOf::Rights { request } => 4,
            CliStageOf::Prepare { request } => 3,
            CliStageOf::Seek { distro, args, root } => 2,
            CliStageOf::Survey => 2,
            CliStageOf::Tell => 0,
            CliStageOf::Leave => 0,
            _ => 1,
        }
    }

    open spec fn next(stage: CliStageView, reply: ReplyView) -> TurnView<CliStageView> {
        match stage {
            CliStageOf::Window { request } => if reply == (ReplyView::Exit { success: true }) {
                leave_turn(no_steps(), 0)
            } else {
                rights_turn(request)
            },
            CliStageOf::Rights { request } => match reply {
                ReplyOf::Identity { effective } => if effective == 0 {
                    TurnOf::Go { stage: CliStageOf::Prepare { request }, steps: dirs_steps() }
                } else {
                    leave_turn(
                        no_steps().push(
                            attempt(
                                complaint(
                                    " LSL requires root privileges. Please rerun this command using 'sudo'."@,
                                ),
                            ),
                        ),
                        1,
                    )
                },
                _ => stray(),
            },
            CliStageOf::Prepare { request } => serve_turn(request),
            CliStageOf::Seek { distro, args, root } => match reply {
                ReplyOf::Config { config } => match target(distro, config) {
                    Some(name) => TurnOf::Go {
                        stage: CliStageOf::Visit,
                        steps: no_steps().push(
                            must(ActionOf::Visit { name, args, as_root: root }),
                        ),
                    },
                    None => failing(
                        FaultKind::NotFound,
                        "No default distro set. Install one first using 'lsl install kali'"@,
                    ),
                },
                _ => stray(),
            },
            CliStageOf::Survey => match reply {
                ReplyOf::Config { config } => TurnOf::Go {
                    stage: CliStageOf::List,
                    steps: no_steps().push(must(ActionOf::List { config })),
                },
                _ => stray(),
            },
            CliStageOf::Install => tell_turn(
                line(
                    Style::GreenBold,
                    "Installation complete! Run 'sudo lsl' to enter the Kali Linux shell."@,
                ),
            ),
            CliStageOf::Import => tell_turn(line(Style::GreenBold, "Import complete!"@)),
            CliStageOf::Default { name } => match reply {
                ReplyOf::Config { config } => if registered(config.distros, name) {
                    TurnOf::Go {
                        stage: CliStageOf::Tell,
                        steps: save_steps(config.with_default(name)).push(
                            attempt(
                                line(Style::Green, "Distro '"@ + name + "' set as default."@),
                            ),
                        ),
                    }
                } else {
                    tell_turn(complaint(" Distro '"@ + name + "' is not registered."@))
                },
                _ => stray(),
            },
            CliStageOf::Visit => match reply {
                ReplyOf::Waited { code } => match code {
                    Some(c) => leave_turn(no_steps(), c),
                    None => stray(),
                },
                _ => stray(),
            },
            CliStageOf::Leave => stray(),
            _ => giving(ValueOf::Nothing),
        }
    }

    open spec fn halted(stage: CliStageView, fault: FaultView, clean: bool) -> TurnView<
        CliStageView,
    > {
        match stage {
            CliStageOf::Install => tell_turn(
                complaint(" Failed to install Kali: "@ + fault.message),
            ),
            CliStageOf::Import => tell_turn(
                complaint(" Failed to import distro: "@ + fault.message),
            ),
            CliStageOf::Unregister => tell_turn(
                complaint(" Failed to unregister distro: "@ + fault.message),
            ),
            CliStageOf::Stop => tell_turn(complaint(" Failed to stop distro: "@ + fault.message)),
            _ => TurnOf::End { result: Err(fault) },
        }
    }

    proof fn next_descends(stage: CliStageView, reply: ReplyView) {
    }

    proof fn halted_descends(stage: CliStageView, fault: FaultView, clean: bool) {
    }

    fn advance(self, reply: Reply) -> (r: Turn<Self>) {
        match self {
            CliStageOf::Window { request } => {
                let opened: bool = match reply {
                    ReplyOf::Exit { success } => success,
                    _ => false,
                };
                if opened {
                    take_leave(Steps::new(), 0)
                } else {
                    take_rights(request)
                }
            },
            CliStageOf::Rights { request } => match reply {
                ReplyOf::Identity { effective } => if effective == 0 {
                    TurnOf::Go { stage: CliStageOf::Prepare { request }, steps: ensure_dirs() }
                } else {
                    take_leave(
                        Steps::new().attempt(
                            complain(
                                " LSL requires root privileges. Please rerun this command using 'sudo'.".to_owned(),
                            ),
                        ),
                        1,
                    )
                },
                _ => take_stray(),
            },
            CliStageOf::Prepare { request } => take_serve(request),
            CliStageOf::Seek { distro, args, root } => match reply {
                ReplyOf::Config { config } => match find_target(distro, config) {
                    Some(name) => TurnOf::Go {
                        stage: CliStageOf::Visit,
                        steps: Steps::new().must(ActionOf::Visit { name, args, as_root: root }),
                    },
                    None => TurnOf::End {
                        result: Err(
                            fault(
                                FaultKind::NotFound,
                                "No default distro set. Install one first using 'lsl install kali'",
                            ),
                        ),
                    },
                },
                _ => take_stray(),
            },
            CliStageOf::Survey => match reply {
                ReplyOf::Config { config } => TurnOf::Go {
                    stage: CliStageOf::List,
                    steps: Steps::new().must(ActionOf::List { config }),
                },
                _ => take_stray(),
            },
            CliStageOf::Install => take_tell(
                crate::action::say(
                    Style::GreenBold,
                    "Installation complete! Run 'sudo lsl' to enter the Kali Linux shell.".to_owned(),
                ),
            ),
            CliStageOf::Import => take_tell(
                crate::action::say(Style::GreenBold, "Import complete!".to_owned()),
            ),
            CliStageOf::Default { name } => match reply {
                ReplyOf::Config { config } => {
                    let mut updated: GlobalConfig = config;
                    if updated.make_default(name.as_str()) {
                        TurnOf::Go {
                            stage: CliStageOf::Tell,
                            steps: updated.save().say(
                                Style::Green,
                                "Distro '".to_owned().concat(name.as_str()).concat(
                                    "' set as default.",
                                ),
                            ),
                        }
                    } else {
                        take_tell(
                            complain(
                                " Distro '".to_owned().concat(name.as_str()).concat(
                                    "' is not registered.",
                                ),
                            ),
                        )
                    }
                },
                _ => take_stray(),
            },
            CliStageOf::Visit => match reply {
                ReplyOf::Waited { code } => match code {
                    Some(c) => take_leave(Steps::new(), c),
                    None => take_stray(),
                },
                _ => take_stray(),
            },
            CliStageOf::Leave => take_stray(),
            _ => TurnOf::End { result: Ok(ValueOf::Nothing) },
        }
    }

    fn halt(self, fault: Fault, clean: bool) -> (r: Turn<Self>) {
        match self {
            CliStageOf::Install => take_tell(
                complain(" Failed to install Kali: ".to_owned().concat(fault.message.as_str())),
            ),
            CliStageOf::Import => take_tell(
                complain(" Failed to import distro: ".to_owned().concat(fault.message.as_str())),
            ),
            CliStageOf::Unregister => take_tell(
                complain(
                    " Failed to unregister distro: ".to_owned().concat(fault.message.as_str()),
                ),
            ),
            CliStageOf::Stop => take_tell(
                complain(" Failed to stop distro: ".to_owned().concat(fault.message.as_str())),
            ),
            _ => TurnOf::End { result: Err(fault) },
        }
    }
}

/// The task that answers a request.
pub open spec fn serve_task(request: RequestView, spawned: bool) -> TaskView<CliStageView> {
    if wants_window(request, spawned) {
        started(
            CliStageOf::Window { request },
            no_steps().push(
                attempt(
                    ActionOf::OpenTerminal { distro: request.distro, as_root: request.root },
                ),
            ),
        )
    } else {
        entered(rights_turn(request))
    }
}

/// Starts to answer a request; `spawned` tells whether the program runs in a window
/// that it opened itself.
pub fn serve(request: Request, spawned: bool) -> (r: Task<CliStage>)
    ensures
        r@ == serve_task(request@, spawned),
{
    let shell: bool = match &request.command {
        CommandOf::Shell => true,
        _ => false,
    };
    if shell && request.args.len() == 0 && !spawned {
        let distro: Option<String> = match &request.distro {
            Some(d) => Some(d.clone()),
            None => None,
        };
        let open: Action = ActionOf::OpenTerminal { distro, as_root: request.root };
        let stage: CliStage = CliStageOf::Window { request };
        Task::start(stage, Steps::new().attempt(open))
    } else {
        let stage: CliStage = CliStageOf::Rights { request };
        Task::start(stage, Steps::new().attempt(ActionOf::AskIdentity))
    }
}

// ------------------------------------------------------------------------- laws

/// Without superuser rights nothing is done but to say so and to fail.
pub proof fn law_nothing_without_rights(request: RequestView, effective: u32)
    requires
        effective != 0,
    ensures
        CliStage::next(
            CliStageOf::Rights { request },
            ReplyOf::Identity { effective },
        ) == leave_turn(
            no_steps().push(
                attempt(
                    complaint(
                        " LSL requires root privileges. Please rerun this command using 'sudo'."@,
                    ),
                ),
            ),
            1,
        ),
{
}

/// What follows the question for rights is reached only with them: every other
/// stage comes after a `Prepare` stage, and that comes only after the answer that
/// the program has the superuser's rights.
pub proof fn law_rights_come_first(stage: CliStageView, reply: ReplyView)
    ensures
        CliStage::next(stage, reply) matches TurnOf::Go { stage: s, steps } ==> {
            &&& s is Prepare ==> stage is Rights && reply == (ReplyView::Identity { effective: 0 })
            &&& stage is Window ==> s is Rights || s is Leave
            &&& stage is Rights ==> s is Prepare || s is Leave
        },
{
}

/// A distribution that is named on the command line comes before the default; with
/// neither the command fails.
pub proof fn law_named_before_default(
    distro: Option<Seq<char>>,
    args: Seq<Seq<char>>,
    root: bool,
    config: ConfigView,
)
    ensures
        ({
            let sought = CliStage::next(
                CliStageOf::Seek { distro, args, root },
                ReplyOf::Config { config },
            );
            match (distro, config.default_distro) {
                (Some(d), _) => pending(entered(sought)) == Some(
                    ActionView::Visit { name: d, args, as_root: root },
                ),
                (None, Some(d)) => pending(entered(sought)) == Some(
                    ActionView::Visit { name: d, args, as_root: root },
                ),
                (None, None) => sought == failing::<CliStageView>(
                    FaultKind::NotFound,
                    "No default distro set. Install one first using 'lsl install kali'"@,
                ),
            }
        }),
{
}

/// Leaving out `run` makes no difference: the words of the request are run the same
/// way.
pub proof fn law_run_may_be_left_out(request: RequestView)
    requires
        request.command is Shell,
    ensures
        serve_turn(request) == serve_turn(
            RequestOf {
                command: CommandOf::Run { root: request.root, args: request.args },
                ..request
            },
        ),
{
}

/// Only a registered distribution becomes the default, and the configuration that
/// is written then is coherent.
pub proof fn law_default_is_registered(name: Seq<char>, config: ConfigView)
    requires
        config.coherent(),
    ensures
        ({
            let chosen = CliStage::next(
                CliStageOf::Default { name },
                ReplyOf::Config { config },
            );
            if registered(config.distros, name) {
                let written = config.with_default(name);
                &&& written.coherent()
                &&& written.default_distro == Some(name)
                &&& chosen matches TurnOf::Go { stage, steps } && steps.contains(
                    must(ActionOf::StoreConfig { path: config_file(), config: written }),
                )
            } else {
                chosen == tell_turn(complaint(" Distro '"@ + name + "' is not registered."@))
            }
        }),
{
    law_updates_coherent(config, name, "root"@);
    let stored = must(
        ActionOf::StoreConfig { path: config_file(), config: config.with_default(name) },
    );
    if registered(config.distros, name) {
        if let TurnOf::Go { stage, steps } = CliStage::next(
            CliStageOf::Default { name },
            ReplyOf::Config { config },
        ) {
            assert(steps[1] == stored);
        }
    }
}

/// The failure of an installation, an import, a removal or a stop is told, and the
/// program ends in order.
pub proof fn law_failures_are_told(
    stage: CliStageView,
    fault: FaultView,
    clean: bool,
    reply: ReplyView,
)
    requires
        stage is Install || stage is Import || stage is Unregister || stage is Stop,
    ensures
        ({
            let telling = entered(CliStage::halted(stage, fault, clean));
            &&& pending(telling) matches Some(action) && action is Warn
            &&& resumed::<CliStage>(telling, reply) == (TaskView::<CliStageView>::Over {
                result: Ok(ValueOf::Nothing),
            })
        }),
{
}

/// The exit code of a command becomes that of the program.
pub proof fn law_exit_code_becomes_ours(code: i32)
    ensures
        CliStage::next(CliStageOf::Visit, ReplyOf::Waited { code: Some(code) }) == leave_turn(
            no_steps(),
            code,
        ),
{
}

/// A reply to an action is among the first `n` of the program.
pub open spec fn told_program(
    request: RequestView,
    spawned: bool,
    replies: spec_fn(nat) -> ReplyView,
    n: nat,
    action: ActionView,
    reply: ReplyView,
) -> bool {
    heard::<CliStage>(serve_task(request, spawned), replies, n, action, reply)
}

/// The host told that the program has the superuser's rights.
pub open spec fn has_rights(
    request: RequestView,
    spawned: bool,
    replies: spec_fn(nat) -> ReplyView,
    n: nat,
) -> bool {
    told_program(
        request,
        spawned,
        replies,
        n,
        ActionOf::AskIdentity,
        ReplyOf::Identity { effective: 0 },
    )
}

/// The configuration was loaded.
pub open spec fn loaded(
    request: RequestView,
    spawned: bool,
    replies: spec_fn(nat) -> ReplyView,
    n: nat,
    config: ConfigView,
) -> bool {
    told_program(request, spawned, replies, n, ActionOf::LoadConfig, ReplyOf::Config { config })
}

/// These words, with or without the superuser's rights in the guest, are what is asked
/// for.
pub open spec fn asks_to_run(request: RequestView, args: Seq<Seq<char>>, root: bool) -> bool {
    ||| request.command is Shell && args == request.args && root == request.root
    ||| request.command == (CommandView::Run { root, args })
}

/// A command goes to the distribution that the request names, else to the one that the
/// configuration names.
pub open spec fn is_meant(
    request: RequestView,
    spawned: bool,
    replies: spec_fn(nat) -> ReplyView,
    n: nat,
    name: Seq<char>,
) -> bool {
    match request.distro {
        Some(d) => name == d,
        None => exists|config: ConfigView| #[trigger]
            loaded(request, spawned, replies, n, config) && config.default_distro == Some(name),
    }
}

/// The configuration is the loaded one, but for its default, which is the registered
/// distribution that the request names.
pub open spec fn sets_default(
    request: RequestView,
    spawned: bool,
    replies: spec_fn(nat) -> ReplyView,
    n: nat,
    config: ConfigView,
) -> bool {
    request.command matches CommandOf::Default { name } && config.default_distro == Some(name)
        && registered(config.distros, name) && exists|before: ConfigView| #[trigger]
        loaded(request, spawned, replies, n, before) && before.distros == config.distros
}

/// The exit code of the program: that of the command that was run, or failure for want of
/// rights, or success where a window was opened.
pub open spec fn is_exit_code(
    request: RequestView,
    spawned: bool,
    replies: spec_fn(nat) -> ReplyView,
    n: nat,
    code: i32,
) -> bool {
    ||| code == 1 && exists|effective: u32|
        effective != 0 && #[trigger] told_program(
            request,
            spawned,
            replies,
            n,
            ActionOf::AskIdentity,
            ReplyOf::Identity { effective },
        )
    ||| code == 0 && told_program(
        request,
        spawned,
        replies,
        n,
        ActionOf::OpenTerminal { distro: request.distro, as_root: request.root },
        ReplyOf::Exit { success: true },
    )
    ||| exists|name: Seq<char>, args: Seq<Seq<char>>, as_root: bool| #[trigger]
        told_program(
            request,
            spawned,
            replies,
            n,
            ActionOf::Visit { name, args, as_root },
            ReplyOf::Waited { code: Some(code) },
        )
}

/// What the program does, it does because it was asked to, with what it was given; and
/// apart from opening a window, asking for its rights and ending, it needs the superuser's
/// rights for all of it.
pub open spec fn serves(
    request: RequestView,
    spawned: bool,
    replies: spec_fn(nat) -> ReplyView,
    n: nat,
    action: ActionView,
) -> bool {
    match action {
        ActionOf::OpenTerminal { distro, as_root } => request.command is Shell
            && request.args.len() == 0 && !spawned && distro == request.distro && as_root
            == request.root,
        ActionOf::AskIdentity => true,
        ActionOf::Warn { lead, style, text, tail } => true,
        ActionOf::Exit { code } => is_exit_code(request, spawned, replies, n, code),
        _ => has_rights(request, spawned, replies, n) && match action {
            ActionOf::Say { lead, style, text, tail } => true,
            ActionOf::LoadConfig => true,
            ActionOf::CreateDirs { path } => true,
            ActionOf::Install => request.command matches CommandOf::Install { distro } && lowercase(
                distro,
            ) == "kali"@,
            ActionOf::Import { name, tar } => request.command == (CommandView::Import {
                name,
                tar,
            }),
            ActionOf::Unregister { name } => request.command == (CommandView::Unregister { name }),
            ActionOf::Stop { name } => request.command == (CommandView::Stop { name }),
            ActionOf::List { config } => request.command is List && loaded(
                request,
                spawned,
                replies,
                n,
                config,
            ),
            ActionOf::Visit { name, args, as_root } => asks_to_run(request, args, as_root)
                && is_meant(request, spawned, replies, n, name),
            ActionOf::StoreConfig { path, config } => path == config_file() && sets_default(
                request,
                spawned,
                replies,
                n,
                config,
            ),
            _ => false,
        },
    }
}

/// Steps that all serve the request.
pub open spec fn all_serve(
    request: RequestView,
    spawned: bool,
    replies: spec_fn(nat) -> ReplyView,
    n: nat,
    steps: Seq<StepView>,
) -> bool {
    forall|i: int|
        0 <= i < steps.len() ==> serves(
            request,
            spawned,
            replies,
            n,
            (#[trigger] steps[i]).action,
        )
}

/// What holds after any number of replies.
spec fn serving(
    request: RequestView,
    spawned: bool,
    replies: spec_fn(nat) -> ReplyView,
    n: nat,
) -> bool {
    match after_replies::<CliStage>(serve_task(request, spawned), replies, n) {
        TaskOf::Over { result } => true,
        TaskOf::Active { stage, steps, at } => {
            let asking = no_steps().push(attempt(ActionOf::LoadConfig));
            &&& 0 <= at < steps.len()
            &&& all_serve(request, spawned, replies, n, steps)
            &&& match stage {
                CliStageOf::Window { request: r } => r == request && steps == no_steps().push(
                    attempt(
                        ActionOf::OpenTerminal { distro: request.distro, as_root: request.root },
                    ),
                ),
                CliStageOf::Rights { request: r } => r == request && steps == no_steps().push(
                    attempt(ActionOf::AskIdentity),
                ),
                CliStageOf::Leave => true,
                _ => has_rights(request, spawned, replies, n) && match stage {
                    CliStageOf::Prepare { request: r } => r == request,
                    CliStageOf::Seek { distro, args, root } => steps == asking && distro
                        == request.distro && asks_to_run(request, args, root),
                    CliStageOf::Survey => steps == asking && request.command is List,
                    CliStageOf::Default { name } => steps == asking && request.command == (
                    CommandView::Default { name }),
                    CliStageOf::Visit => steps.len() == 1 && steps[0].action is Visit,
                    _ => true,
                },
            }
        },
    }
}

/// What was told stays told.
proof fn lemma_told_program_grows(
    request: RequestView,
    spawned: bool,
    replies: spec_fn(nat) -> ReplyView,
    n: nat,
)
    ensures
        forall|action: ActionView, reply: ReplyView|
            told_program(request, spawned, replies, n, action, reply) ==> #[trigger] told_program(
                request,
                spawned,
                replies,
                n + 1,
                action,
                reply,
            ),
        pending(after_replies::<CliStage>(serve_task(request, spawned), replies, n)) matches Some(
            action,
        ) ==> told_program(request, spawned, replies, n + 1, action, replies(n)),
{
    let t = serve_task(request, spawned);
    assert forall|action: ActionView, reply: ReplyView|
        told_program(request, spawned, replies, n, action, reply) implies #[trigger] told_program(
        request,
        spawned,
        replies,
        n + 1,
        action,
        reply,
    ) by {
        lemma_heard_grows::<CliStage>(t, replies, n, action, reply);
    }
    if let Some(action) = pending(after_replies::<CliStage>(t, replies, n)) {
        lemma_heard_grows::<CliStage>(t, replies, n, action, replies(n));
    }
}

/// What served the request still does.
proof fn lemma_serves_grows(
    request: RequestView,
    spawned: bool,
    replies: spec_fn(nat) -> ReplyView,
    n: nat,
    action: ActionView,
)
    requires
        serves(request, spawned, replies, n, action),
    ensures
        serves(request, spawned, replies, n + 1, action),
{
    lemma_told_program_grows(request, spawned, replies, n);
    match action {
        ActionOf::Exit { code } => {
            if exists|name: Seq<char>, args: Seq<Seq<char>>, as_root: bool| #[trigger]
                told_program(
                    request,
                    spawned,
                    replies,
                    n,
                    ActionOf::Visit { name, args, as_root },
                    ReplyOf::Waited { code: Some(code) },
                ) {
                let (name, args, as_root) = choose|
                    name: Seq<char>,
                    args: Seq<Seq<char>>,
                    as_root: bool,
                | #[trigger]
                    told_program(
                        request,
                        spawned,
                        replies,
                        n,
                        ActionOf::Visit { name, args, as_root },
                        ReplyOf::Waited { code: Some(code) },
                    );
                assert(told_program(
                    request,
                    spawned,
                    replies,
                    n + 1,
                    ActionOf::Visit { name, args, as_root },
                    ReplyOf::Waited { code: Some(code) },
                ));
            } else if code == 1 && exists|effective: u32|
                effective != 0 && #[trigger] told_program(
                    request,
                    spawned,
                    replies,
                    n,
                    ActionOf::AskIdentity,
                    ReplyOf::Identity { effective },
                ) {
                let effective = choose|effective: u32|
                    effective != 0 && #[trigger] told_program(
                        request,
                        spawned,
                        replies,
                        n,
                        ActionOf::AskIdentity,
                        ReplyOf::Identity { effective },
                    );
                assert(told_program(
                    request,
                    spawned,
                    replies,
                    n + 1,
                    ActionOf::AskIdentity,
                    ReplyOf::Identity { effective },
                ));
            }
        },
        ActionOf::Visit { name, args, as_root } => {
            if request.distro is None {
                let config = choose|config: ConfigView| #[trigger]
                    loaded(request, spawned, replies, n, config) && config.default_distro == Some(
                        name,
                    );
                assert(loaded(request, spawned, replies, n + 1, config));
            }
        },
        ActionOf::StoreConfig { path, config } => {
            let before = choose|before: ConfigView| #[trigger]
                loaded(request, spawned, replies, n, before) && before.distros == config.distros;
            assert(loaded(request, spawned, replies, n + 1, before));
        },
        _ => {},
    }
}

/// One reply more keeps what holds.
proof fn lemma_serving_further(
    request: RequestView,
    spawned: bool,
    replies: spec_fn(nat) -> ReplyView,
    n: nat,
)
    requires
        serving(request, spawned, replies, n),
    ensures
        serving(request, spawned, replies, n + 1),
{
    let t = serve_task(request, spawned);
    let now = after_replies::<CliStage>(t, replies, n);
    let reply = replies(n);
    let then = after_replies::<CliStage>(t, replies, n + 1);
    assert(then == resumed::<CliStage>(now, reply));
    lemma_told_program_grows(request, spawned, replies, n);
    if let TaskOf::Active { stage, steps, at } = now {
        assert forall|i: int| 0 <= i < steps.len() implies serves(
            request,
            spawned,
            replies,
            n + 1,
            (#[trigger] steps[i]).action,
        ) by {
            lemma_serves_grows(request, spawned, replies, n, steps[i].action);
        }
        match stage {
            CliStageOf::Seek { distro, args, root } => {
                if let ReplyOf::Config { config } = reply {
                    assert(loaded(request, spawned, replies, n + 1, config));
                }
            },
            CliStageOf::Default { name } => {
                if let ReplyOf::Config { config } = reply {
                    assert(loaded(request, spawned, replies, n + 1, config));
                }
            },
            CliStageOf::Visit => {
                if let ReplyOf::Waited { code: Some(c) } = reply {
                    if let ActionOf::Visit { name, args, as_root } = steps[0].action {
                        assert(told_program(
                            request,
                            spawned,
                            replies,
                            n + 1,
                            ActionOf::Visit { name, args, as_root },
                            ReplyOf::Waited { code: Some(c) },
                        ));
                    }
                }
            },
            CliStageOf::Rights { request: r } => {
                if let ReplyOf::Identity { effective } = reply {
                    assert(told_program(
                        request,
                        spawned,
                        replies,
                        n + 1,
                        ActionOf::AskIdentity,
                        ReplyOf::Identity { effective },
                    ));
                }
            },
            _ => {},
        }
    }
}

proof fn lemma_always_serving(
    request: RequestView,
    spawned: bool,
    replies: spec_fn(nat) -> ReplyView,
    n: nat,
)
    ensures
        serving(request, spawned, replies, n),
    decreases n,
{
    if n > 0 {
        lemma_always_serving(request, spawned, replies, (n - 1) as nat);
        lemma_serving_further(request, spawned, replies, (n - 1) as nat);
    }
}

/// Whatever the host replies, everything that the program does serves the request: it
/// installs, imports, removes, stops or lists what it was asked to; it runs the words that
/// it was given, as whom it was told to, in the distribution that was named, else in the
/// default one; it makes only the distribution that was named the default; it ends with
/// the exit code of what it ran; and without the superuser's rights it does none of it.
pub proof fn law_request_is_served(
    request: RequestView,
    spawned: bool,
    replies: spec_fn(nat) -> ReplyView,
    n: nat,
    action: ActionView,
)
    requires
        pending(after_replies::<CliStage>(serve_task(request, spawned), replies, n)) == Some(
            action,
        ),
    ensures
        serves(request, spawned, replies, n, action),
{
    lemma_always_serving(request, spawned, replies, n);
}

/// Each command is carried out: once the directories are there, what is asked for next is
/// what the command stands for.
pub proof fn law_each_command_is_carried_out(request: RequestView, config: ConfigView)
    ensures
        ({
            let next = pending(entered(serve_turn(request)));
            match request.command {
                CommandOf::Install { distro } => if lowercase(distro) == "kali"@ {
                    next == Some(ActionView::Install)
                } else {
                    next matches Some(ActionOf::Warn { lead, style, text, tail }) && text
                        == "Error:"@ && tail == " Distribution '"@ + distro
                        + "' is not supported for auto-installation. Currently, only 'kali' is supported."@
                },
                CommandOf::Import { name, tar } => next == Some(ActionView::Import { name, tar }),
                CommandOf::Unregister { name } => next == Some(ActionView::Unregister { name }),
                CommandOf::Stop { name } => next == Some(ActionView::Stop { name }),
                _ => next == Some(ActionView::LoadConfig),
            }
        }),
        request.command is List ==> (serve_turn(request) matches TurnOf::Go { stage, steps } && (
        CliStage::next(stage, ReplyOf::Config { config }) matches TurnOf::Go { stage: s, steps: p }
            && p == no_steps().push(must(ActionOf::List { config })))),
        CliStage::next(CliStageOf::Rights { request }, ReplyOf::Identity { effective: 0 }) == (
        TurnView::<CliStageView>::Go { stage: CliStageOf::Prepare { request }, steps: dirs_steps() }),
        CliStage::next(CliStageOf::Prepare { request }, ReplyOf::Done) == serve_turn(request),
        CliStage::next(CliStageOf::Window { request }, ReplyOf::Exit { success: false })
            == rights_turn(request),
{
}

/// A failure is told with what failed and why, and a success with what was done.
pub proof fn law_outcomes_are_told(fault: FaultView, clean: bool, reply: ReplyView)
    ensures
        pending(entered(CliStage::halted(CliStageOf::Install, fault, clean))) matches Some(
            ActionOf::Warn { lead, style, text, tail },
        ) && text == "Error:"@ && tail == " Failed to install Kali: "@ + fault.message,
        pending(entered(CliStage::halted(CliStageOf::Import, fault, clean))) matches Some(
            ActionOf::Warn { lead, style, text, tail },
        ) && text == "Error:"@ && tail == " Failed to import distro: "@ + fault.message,
        pending(entered(CliStage::halted(CliStageOf::Unregister, fault, clean))) matches Some(
            ActionOf::Warn { lead, style, text, tail },
        ) && text == "Error:"@ && tail == " Failed to unregister distro: "@ + fault.message,
        pending(entered(CliStage::halted(CliStageOf::Stop, fault, clean))) matches Some(
            ActionOf::Warn { lead, style, text, tail },
        ) && text == "Error:"@ && tail == " Failed to stop distro: "@ + fault.message,
        CliStage::halted(CliStageOf::Visit, fault, clean) == (TurnView::<CliStageView>::End {
            result: Err(fault),
        }),
        pending(entered(CliStage::next(CliStageOf::Install, reply))) is Some,
        pending(entered(CliStage::next(CliStageOf::Import, reply))) == Some(
            line(Style::GreenBold, "Import complete!"@),
        ),
        CliStage::next(CliStageOf::Unregister, reply) == giving::<CliStageView>(ValueOf::Nothing),
        CliStage::next(CliStageOf::Stop, reply) == giving::<CliStageView>(ValueOf::Nothing),
{
}

/// A window is opened exactly for a login shell that has none yet; any other request, and
/// one whose window could not be opened, goes on to the rights of the program. If the window
/// was opened the program is done.
pub proof fn law_window_is_for_a_login_shell(
    request: RequestView,
    spawned: bool,
    reply: ReplyView,
)
    ensures
        pending(serve_task(request, spawned)) == if request.command is Shell && request.args.len()
            == 0 && !spawned {
            Some(
                ActionView::OpenTerminal { distro: request.distro, as_root: request.root },
            )
        } else {
            Some(ActionView::AskIdentity)
        },
        pending(
            entered(
                CliStage::next(CliStageOf::Window { request }, ReplyOf::Exit { success: true }),
            ),
        ) == Some(ActionView::Exit { code: 0 }),
        reply != (ReplyView::Exit { success: true }) ==> pending(
            entered(CliStage::next(CliStageOf::Window { request }, reply)),
        ) == Some(ActionView::AskIdentity),
{
}

/// What was listed, or said last, ends the program well.
pub proof fn law_last_word_ends_well(reply: ReplyView)
    ensures
        CliStage::next(CliStageOf::List, reply) == giving::<CliStageView>(ValueOf::Nothing),
        CliStage::next(CliStageOf::Tell, reply) == giving::<CliStageView>(ValueOf::Nothing),
{
}

} // verus!
