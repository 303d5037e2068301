//! Operations that call one another.
//!
//! Some of the actions that a task names are operations of this library. Such a call
//! never reaches the host: the task of the operation is put on a stack above its
//! caller, and when it is over, its caller is told how it ended.
use vstd::prelude::*;

use crate::action::{
    ended, tell, told, Action, ActionOf, ActionView, Fault, FaultKind, FaultOf, FaultView, Reply,
    ReplyOf, ReplyView, Value, ValueOf, ValueView,
};
use crate::boot::{boot_distro, boot_task, BootStage, BootStageOf, BootStageView, JobView};
use crate::cli::{
    serve, serve_task, wants_window, CliStage, CliStageOf, CliStageView, Request, RequestView,
};
use crate::config::{distro_dir, registered, ConfigView};
use crate::distro::{
    cached, fetch_steps, import_distro, import_task, install_kali, install_task, remove_task,
    setup_distro_user, unregister_distro, user_task, ImportStage, ImportStageView, InstallStage,
    RemoveStage, RemoveStageView, UserStage, UserStageView,
};
use crate::listing::{list_distros, list_task, ListStage, ListStageView};
use crate::network::{network_task, setup_network, NetStage, NetStageView};
use crate::runtime::{
    execute_setup_cmd_in_guest, get_distro_init_pid, guest_task, lookup_task, pid_file, stop_distro,
    stop_task, GuestStage, GuestStageView, LookupStage, LookupStageView, StopStage, StopStageView,
};
use crate::session::{
    run_command_in_distro, visit_task, OrderOf, OrderView, SessionStage, SessionStageOf,
    SessionStageView,
};
use crate::task::{entered, must, no_steps, pending, resumed, started, Plan, Task, TaskOf, TaskView};
use crate::terminal::{
    spawn_separate_terminal, terminal_task, TerminalStage, TerminalStageView, WindowOf,
};


verus! {

// ------------------------------------------------------------------- operations

/// An operation at some point of its run.
pub enum Operation {
    /// Looking for the init process of a distribution.
    Lookup(Task<LookupStage>),
    /// Booting a distribution.
    Boot(Task<BootStage>),
    /// Stopping a distribution.
    Stop(Task<StopStage>),
    /// Connecting a distribution to the network.
    Network(Task<NetStage>),
    /// Making a user in a root file system.
    Enlist(Task<UserStage>),
    /// Importing a distribution.
    Import(Task<ImportStage>),
    /// Running a command in a guest.
    Guest(Task<GuestStage>),
    /// Opening a terminal window.
    Terminal(Task<TerminalStage>),
    /// Installing the supported distribution.
    Install(Task<InstallStage>),
    /// Removing a distribution.
    Remove(Task<RemoveStage>),
    /// Listing the distributions.
    List(Task<ListStage>),
    /// Running something in a distribution.
    Visit(Task<SessionStage>),
    /// Answering a request.
    Serve(Task<CliStage>),
}

/// An operation as contracts see it.
pub enum OperationView {
    Lookup(TaskView<LookupStageView>),
    Boot(TaskView<BootStageView>),
    Stop(TaskView<StopStageView>),
    Network(TaskView<NetStageView>),
    Enlist(TaskView<UserStageView>),
    Import(TaskView<ImportStageView>),
    Guest(TaskView<GuestStageView>),
    Terminal(TaskView<TerminalStageView>),
    Install(TaskView<InstallStage>),
    Remove(TaskView<RemoveStageView>),
    List(TaskView<ListStageView>),
    Visit(TaskView<SessionStageView>),
    Serve(TaskView<CliStageView>),
}

impl View for Operation {
    type V = OperationView;

    open spec fn view(&self) -> OperationView {
        match *self {
            Operation::Lookup(t) => OperationView::Lookup(t@),
            Operation::Boot(t) => OperationView::Boot(t@),
            Operation::Stop(t) => OperationView::Stop(t@),
            Operation::Network(t) => OperationView::Network(t@),
            Operation::Enlist(t) => OperationView::Enlist(t@),
            Operation::Import(t) => OperationView::Import(t@),
            Operation::Guest(t) => OperationView::Guest(t@),
            Operation::Terminal(t) => OperationView::Terminal(t@),
            Operation::Install(t) => OperationView::Install(t@),
            Operation::Remove(t) => OperationView::Remove(t@),
            Operation::List(t) => OperationView::List(t@),
            Operation::Visit(t) => OperationView::Visit(t@),
            Operation::Serve(t) => OperationView::Serve(t@),
        }
    }
}

/// The action that an operation waits for.
pub open spec fn waits_for(op: OperationView) -> Option<ActionView> {
    match op {
        OperationView::Lookup(t) => pending(t),
        OperationView::Boot(t) => pending(t),
        OperationView::Stop(t) => pending(t),
        OperationView::Network(t) => pending(t),
        OperationView::Enlist(t) => pending(t),
        OperationView::Import(t) => pending(t),
        OperationView::Guest(t) => pending(t),
        OperationView::Terminal(t) => pending(t),
        OperationView::Install(t) => pending(t),
        OperationView::Remove(t) => pending(t),
        OperationView::List(t) => pending(t),
        OperationView::Visit(t) => pending(t),
        OperationView::Serve(t) => pending(t),
    }
}

/// How a task ended, if it is over.
pub open spec fn result_of<S>(t: TaskView<S>) -> Option<Result<ValueView, FaultView>> {
    match t {
        TaskOf::Active { stage, steps, at } => None,
        TaskOf::Over { result } => Some(result),
    }
}

/// How an operation ended, if it is over.
pub open spec fn outcome(op: OperationView) -> Option<Result<ValueView, FaultView>> {
    match op {
        OperationView::Lookup(t) => result_of(t),
        OperationView::Boot(t) => result_of(t),
        OperationView::Stop(t) => result_of(t),
        OperationView::Network(t) => result_of(t),
        OperationView::Enlist(t) => result_of(t),
        OperationView::Import(t) => result_of(t),
        OperationView::Guest(t) => result_of(t),
        OperationView::Terminal(t) => result_of(t),
        OperationView::Install(t) => result_of(t),
        OperationView::Remove(t) => result_of(t),
        OperationView::List(t) => result_of(t),
        OperationView::Visit(t) => result_of(t),
        OperationView::Serve(t) => result_of(t),
    }
}

/// The operation after a reply.
pub open spec fn answered(op: OperationView, reply: ReplyView) -> OperationView {
    match op {
        OperationView::Lookup(t) => OperationView::Lookup(resumed::<LookupStage>(t, reply)),
        OperationView::Boot(t) => OperationView::Boot(resumed::<BootStage>(t, reply)),
        OperationView::Stop(t) => OperationView::Stop(resumed::<StopStage>(t, reply)),
        OperationView::Network(t) => OperationView::Network(resumed::<NetStage>(t, reply)),
        OperationView::Enlist(t) => OperationView::Enlist(resumed::<UserStage>(t, reply)),
        OperationView::Import(t) => OperationView::Import(resumed::<ImportStage>(t, reply)),
        OperationView::Guest(t) => OperationView::Guest(resumed::<GuestStage>(t, reply)),
        OperationView::Terminal(t) => OperationView::Terminal(resumed::<TerminalStage>(t, reply)),
        OperationView::Install(t) => OperationView::Install(resumed::<InstallStage>(t, reply)),
        OperationView::Remove(t) => OperationView::Remove(resumed::<RemoveStage>(t, reply)),
        OperationView::List(t) => OperationView::List(resumed::<ListStage>(t, reply)),
        OperationView::Visit(t) => OperationView::Visit(resumed::<SessionStage>(t, reply)),
        OperationView::Serve(t) => OperationView::Serve(resumed::<CliStage>(t, reply)),
    }
}

/// The operation that an action stands for; none where the action is the host's.
pub open spec fn called(action: ActionView) -> Option<OperationView> {
    match action {
        ActionOf::FindPid { name } => Some(OperationView::Lookup(lookup_task(name))),
        ActionOf::Boot { name } => Some(OperationView::Boot(boot_task(name))),
        ActionOf::Stop { name } => Some(OperationView::Stop(stop_task(name))),
        ActionOf::SetUpNetwork { name, pid, ip, mac } => Some(
            OperationView::Network(network_task(name, pid, ip, mac)),
        ),
        ActionOf::SetUpUser { root, user, uid, gid } => Some(
            OperationView::Enlist(user_task(root, user, uid, gid)),
        ),
        ActionOf::Import { name, tar } => Some(OperationView::Import(import_task(name, tar))),
        ActionOf::InGuest { pid, args } => Some(OperationView::Guest(guest_task(pid, args))),
        ActionOf::OpenTerminal { distro, as_root } => Some(
            OperationView::Terminal(terminal_task(WindowOf { distro, as_root })),
        ),
        ActionOf::Install => Some(OperationView::Install(install_task())),
        ActionOf::Unregister { name } => Some(OperationView::Remove(remove_task(name))),
        ActionOf::List { config } => Some(OperationView::List(list_task(config))),
        ActionOf::Visit { name, args, as_root } => Some(
            OperationView::Visit(visit_task(OrderOf { name, args, as_root })),
        ),
        _ => None,
    }
}

/// An operation, if there is one, as contracts see it.
pub open spec fn opt_operation(op: Option<Operation>) -> Option<OperationView> {
    match op {
        Some(o) => Some(o@),
        None => None,
    }
}

/// Starts the operation that an action stands for.
pub fn call(action: &Action) -> (r: Option<Operation>)
    ensures
        opt_operation(r) == called(action@),
{
    match action {
        ActionOf::FindPid { name } => Some(Operation::Lookup(get_distro_init_pid(name.as_str()))),
        ActionOf::Boot { name } => Some(Operation::Boot(boot_distro(name.as_str()))),
        ActionOf::Stop { name } => Some(Operation::Stop(stop_distro(name.as_str()))),
        ActionOf::SetUpNetwork { name, pid, ip, mac } => Some(
            Operation::Network(setup_network(name.as_str(), *pid, ip.as_str(), mac.as_str())),
        ),
        ActionOf::SetUpUser { root, user, uid, gid } => Some(
            Operation::Enlist(setup_distro_user(root.as_str(), user.as_str(), *uid, *gid)),
        ),
        ActionOf::Import { name, tar } => Some(
            Operation::Import(import_distro(name.as_str(), tar.as_str())),
        ),
        ActionOf::InGuest { pid, args } => Some(
            Operation::Guest(execute_setup_cmd_in_guest(*pid, args.as_slice())),
        ),
        ActionOf::OpenTerminal { distro, as_root } => {
            let named: Option<&str> = match distro {
                Some(d) => Some(d.as_str()),
                None => None,
            };
            Some(Operation::Terminal(spawn_separate_terminal(named, *as_root)))
        },
        ActionOf::Install => Some(Operation::Install(install_kali())),
        ActionOf::Unregister { name } => Some(Operation::Remove(unregister_distro(name.as_str()))),
        ActionOf::List { config } => Some(Operation::List(list_distros(config.clone()))),
        ActionOf::Visit { name, args, as_root } => Some(
            Operation::Visit(run_command_in_distro(name.as_str(), args.as_slice(), *as_root)),
        ),
        _ => None,
    }
}

impl Operation {
    /// The action that the operation waits for; none when it is over.
    pub fn pending(&self) -> (r: Option<&Action>)
        ensures
            match r {
                Some(a) => waits_for(self@) == Some(a@),
                None => waits_for(self@) is None,
            },
    {
        match self {
            Operation::Lookup(t) => t.pending(),
            Operation::Boot(t) => t.pending(),
            Operation::Stop(t) => t.pending(),
            Operation::Network(t) => t.pending(),
            Operation::Enlist(t) => t.pending(),
            Operation::Import(t) => t.pending(),
            Operation::Guest(t) => t.pending(),
            Operation::Terminal(t) => t.pending(),
            Operation::Install(t) => t.pending(),
            Operation::Remove(t) => t.pending(),
            Operation::List(t) => t.pending(),
            Operation::Visit(t) => t.pending(),
            Operation::Serve(t) => t.pending(),
        }
    }

    /// Goes on after the reply to the pending action.
    pub fn resume(self, reply: Reply) -> (r: Operation)
        ensures
            r@ == answered(self@, reply@),
    {
        match self {
            Operation::Lookup(t) => Operation::Lookup(t.resume(reply)),
            Operation::Boot(t) => Operation::Boot(t.resume(reply)),
            Operation::Stop(t) => Operation::Stop(t.resume(reply)),
            Operation::Network(t) => Operation::Network(t.resume(reply)),
            Operation::Enlist(t) => Operation::Enlist(t.resume(reply)),
            Operation::Import(t) => Operation::Import(t.resume(reply)),
            Operation::Guest(t) => Operation::Guest(t.resume(reply)),
            Operation::Terminal(t) => Operation::Terminal(t.resume(reply)),
            Operation::Install(t) => Operation::Install(t.resume(reply)),
            Operation::Remove(t) => Operation::Remove(t.resume(reply)),
            Operation::List(t) => Operation::List(t.resume(reply)),
            Operation::Visit(t) => Operation::Visit(t.resume(reply)),
            Operation::Serve(t) => Operation::Serve(t.resume(reply)),
        }
    }

    /// How the operation ended; none as long as it is not over.
    pub fn finish(self) -> (r: Option<Result<Value, Fault>>)
        ensures
            match r {
                Some(result) => outcome(self@) == Some(ended(result)),
                None => outcome(self@) is None,
            },
    {
        match self {
            Operation::Lookup(t) => finished(t),
            Operation::Boot(t) => finished(t),
            Operation::Stop(t) => finished(t),
            Operation::Network(t) => finished(t),
            Operation::Enlist(t) => finished(t),
            Operation::Import(t) => finished(t),
            Operation::Guest(t) => finished(t),
            Operation::Terminal(t) => finished(t),
            Operation::Install(t) => finished(t),
            Operation::Remove(t) => finished(t),
            Operation::List(t) => finished(t),
            Operation::Visit(t) => finished(t),
            Operation::Serve(t) => finished(t),
        }
    }
}

/// How a task ended; none as long as it is not over.
fn finished<P: Plan>(t: Task<P>) -> (r: Option<Result<Value, Fault>>)
    ensures
        match r {
            Some(result) => result_of(t@) == Some(ended(result)),
            None => result_of(t@) is None,
        },
{
    match t {
        TaskOf::Active { stage, steps, at } => None,
        TaskOf::Over { result } => Some(result),
    }
}

// ------------------------------------------------------------------------ calls

/// The operations under way: each was called by the one below it.
pub struct Calls {
    pub stack: Vec<Operation>,
}

/// The operations of a stack as contracts see them.
pub open spec fn operations(stack: Seq<Operation>) -> Seq<OperationView> {
    stack.map_values(|op: Operation| op@)
}

impl View for Calls {
    type V = Seq<OperationView>;

    open spec fn view(&self) -> Seq<OperationView> {
        operations(self.stack@)
    }
}

/// A boot that has made this process the init process of a guest: it has no caller to
/// return to.
pub open spec fn became_init(op: OperationView) -> bool {
    op matches OperationView::Boot(t) && result_of(t) == Some(
        Ok::<ValueView, FaultView>(ValueOf::Nothing),
    )
}

/// An end after which nothing goes on: not even the caller is told.
pub open spec fn beyond_help(result: Result<ValueView, FaultView>) -> bool {
    result matches Err(f) && f.kind is Panic
}

/// The stack after a call or a return; none if it is the host's turn, or if all is
/// over. An operation that waits for another has it put above it. An operation that
/// is over leaves, and the one below it is told how it ended.
pub open spec fn moved(stack: Seq<OperationView>) -> Option<Seq<OperationView>> {
    if stack.len() == 0 {
        None
    } else {
        let top = stack.last();
        let rest = stack.drop_last();
        match waits_for(top) {
            Some(action) => match called(action) {
                Some(op) => Some(stack.push(op)),
                None => None,
            },
            None => match outcome(top) {
                Some(result) => if rest.len() == 0 || became_init(top) || beyond_help(result) {
                    None
                } else {
                    Some(rest.drop_last().push(answered(rest.last(), told(result))))
                },
                None => None,
            },
        }
    }
}

impl Calls {
    /// Starts with one operation.
    pub fn start(op: Operation) -> (r: Calls)
        ensures
            r@ == Seq::empty().push(op@),
    {
        let mut stack: Vec<Operation> = Vec::new();
        stack.push(op);
        let r = Calls { stack };
        assert(r@ =~= Seq::empty().push(op@));
        r
    }

    /// Starts to answer a request.
    pub fn serve(request: Request, spawned: bool) -> (r: Calls)
        ensures
            r@ == Seq::empty().push(OperationView::Serve(serve_task(request@, spawned))),
    {
        Calls::start(Operation::Serve(serve(request, spawned)))
    }

    /// Makes one call or one return, if one is due; tells whether it did.
    pub fn advance(self) -> (r: (Calls, bool))
        ensures
            match moved(self@) {
                Some(stack) => r.1 && r.0@ == stack,
                None => !r.1 && r.0@ == self@,
            },
    {
        let ghost before = self@;
        let mut stack: Vec<Operation> = self.stack;
        assert(before.len() == stack@.len());
        match stack.pop() {
            None => {
                let r = Calls { stack };
                assert(r@ =~= before);
                (r, false)
            },
            Some(top) => {
                assert(before.last() == top@);
                assert(before.drop_last() =~= operations(stack@));
                let callee: Option<Operation> = match top.pending() {
                    Some(action) => call(action),
                    None => None,
                };
                match callee {
                    Some(op) => {
                        stack.push(top);
                        stack.push(op);
                        let r = Calls { stack };
                        assert(r@ =~= before.push(op@));
                        (r, true)
                    },
                    None => Self::give_back(stack, top),
                }
            },
        }
    }

    /// Returns from an operation that calls none, if it is over.
    fn give_back(stack: Vec<Operation>, top: Operation) -> (r: (Calls, bool))
        requires
            waits_for(top@) matches Some(action) ==> called(action) is None,
        ensures
            match moved(operations(stack@).push(top@)) {
                Some(after) => r.1 && r.0@ == after,
                None => !r.1 && r.0@ == operations(stack@).push(top@),
            },
    {
        let ghost before = operations(stack@).push(top@);
        assert(before.last() == top@);
        assert(before.drop_last() =~= operations(stack@));
        let mut below: Vec<Operation> = stack;
        let due: bool = below.len() > 0 && top.pending().is_none() && top.may_return();
        if due {
            assert(below@.len() > 0);
            match below.pop() {
                Some(caller) => {
                    assert(operations(stack@).last() == caller@);
                    assert(operations(stack@).drop_last() =~= operations(below@));
                    let ghost shown = top@;
                    match top.finish() {
                        Some(result) => {
                            below.push(caller.resume(tell(result)));
                            let r = Calls { stack: below };
                            assert(moved(before) == Some(
                                operations(stack@).drop_last().push(
                                    answered(caller@, told(ended(result))),
                                ),
                            ));
                            assert(r@ =~= operations(stack@).drop_last().push(
                                answered(caller@, told(ended(result))),
                            ));
                            (r, true)
                        },
                        None => {
                            assert(false);
                            (Calls { stack: below }, false)
                        },
                    }
                },
                None => {
                    assert(false);
                    (Calls { stack: below }, false)
                },
            }
        } else {
            below.push(top);
            let r = Calls { stack: below };
            assert(r@ =~= before);
            (r, false)
        }
    }

    /// The action that the host is to carry out; none while a call or a return is due,
    /// and none when all is over.
    pub fn pending(&self) -> (r: Option<&Action>)
        ensures
            match r {
                Some(a) => self@.len() > 0 && waits_for(self@.last()) == Some(a@) && called(a@)
                    is None,
                None => self@.len() == 0 || match waits_for(self@.last()) {
                    Some(action) => called(action) is Some,
                    None => true,
                },
            },
    {
        let n: usize = self.stack.len();
        if n == 0 {
            return None;
        }
        assert(self@.last() == self.stack@[n - 1]@);
        match self.stack[n - 1].pending() {
            Some(action) => match call(action) {
                Some(op) => None,
                None => Some(action),
            },
            None => None,
        }
    }

    /// Goes on after the host's reply.
    pub fn resume(self, reply: Reply) -> (r: Calls)
        requires
            self@.len() > 0,
        ensures
            r@ == self@.drop_last().push(answered(self@.last(), reply@)),
    {
        let ghost before = self@;
        let mut stack: Vec<Operation> = self.stack;
        match stack.pop() {
            Some(top) => {
                assert(before.last() == top@);
                assert(before.drop_last() =~= operations(stack@));
                stack.push(top.resume(reply));
                let r = Calls { stack };
                assert(r@ =~= before.drop_last().push(answered(before.last(), reply@)));
                r
            },
            None => {
                assert(false);
                Calls { stack }
            },
        }
    }

    /// Tells whether this process has become the init process of a guest.
    pub fn is_init(&self) -> (r: bool)
        ensures
            r == (self@.len() > 0 && became_init(self@.last())),
    {
        let n: usize = self.stack.len();
        if n == 0 {
            return false;
        }
        assert(self@.last() == self.stack@[n - 1]@);
        self.stack[n - 1].is_init()
    }

    /// How the topmost operation ended; none as long as it is not over.
    pub fn finish(self) -> (r: Option<Result<Value, Fault>>)
        ensures
            match r {
                Some(result) => self@.len() > 0 && outcome(self@.last()) == Some(ended(result)),
                None => self@.len() == 0 || outcome(self@.last()) is None,
            },
    {
        let ghost before = self@;
        let mut stack: Vec<Operation> = self.stack;
        match stack.pop() {
            Some(top) => {
                assert(before.last() == top@);
                top.finish()
            },
            None => None,
        }
    }
}

/// A task that is over in a way that its caller can be told.
spec fn ended_in_order<S>(t: TaskView<S>) -> bool {
    match result_of(t) {
        Some(result) => !beyond_help(result),
        None => false,
    }
}

fn in_order<P: Plan>(t: &Task<P>) -> (r: bool)
    ensures
        r == ended_in_order(t@),
{
    match t {
        TaskOf::Active { stage, steps, at } => false,
        TaskOf::Over { result } => match result {
            Ok(value) => true,
            Err(f) => match f.kind {
                FaultKind::Panic => false,
                _ => true,
            },
        },
    }
}

impl Operation {
    /// Tells whether the operation has made this process an init process.
    fn is_init(&self) -> (r: bool)
        ensures
            r == became_init(self@),
    {
        match self {
            Operation::Boot(t) => match t {
                TaskOf::Over { result } => match result {
                    Ok(ValueOf::Nothing) => true,
                    _ => false,
                },
                _ => false,
            },
            _ => false,
        }
    }

    /// Tells whether the operation is over and its caller can be told.
    fn may_return(&self) -> (r: bool)
        ensures
            r == (match outcome(self@) {
                Some(result) => !beyond_help(result) && !became_init(self@),
                None => false,
            }),
    {
        if self.is_init() {
            return false;
        }
        match self {
            Operation::Lookup(t) => in_order(t),
            Operation::Boot(t) => in_order(t),
            Operation::Stop(t) => in_order(t),
            Operation::Network(t) => in_order(t),
            Operation::Enlist(t) => in_order(t),
            Operation::Import(t) => in_order(t),
            Operation::Guest(t) => in_order(t),
            Operation::Terminal(t) => in_order(t),
            Operation::Install(t) => in_order(t),
            Operation::Remove(t) => in_order(t),
            Operation::List(t) => in_order(t),
            Operation::Visit(t) => in_order(t),
            Operation::Serve(t) => in_order(t),
        }
    }
}

// ------------------------------------------------------------------------- laws

/// The stack after the host's reply.
pub open spec fn replied(stack: Seq<OperationView>, reply: ReplyView) -> Seq<OperationView> {
    stack.drop_last().push(answered(stack.last(), reply))
}

/// A call starts the operation that the action stands for, above its caller; and when
/// that operation is over, its caller, unchanged in the meantime, goes on with how it
/// ended.
pub proof fn law_callers_are_told(
    stack: Seq<OperationView>,
    action: ActionView,
    op: OperationView,
    callee: OperationView,
    result: Result<ValueView, FaultView>,
)
    requires
        stack.len() > 0,
        waits_for(stack.last()) == Some(action),
        called(action) == Some(op),
        outcome(callee) == Some(result),
        !became_init(callee),
        !beyond_help(result),
    ensures
        moved(stack) == Some(stack.push(op)),
        moved(stack.push(callee)) == Some(replied(stack, told(result))),
{
    assert(stack.push(callee).drop_last() =~= stack);
}

/// A distribution that cannot be booted cannot be visited: the error of the boot is
/// the error of the visit, with the same class and the same text.
pub proof fn law_failed_boot_fails_the_visit(
    stack: Seq<OperationView>,
    order: OrderView,
    boot: OperationView,
    f: FaultView,
)
    requires
        outcome(boot) == Some(Err::<ValueView, FaultView>(f)),
        !(f.kind is Panic),
    ensures
        ({
            let starting = entered(
                SessionStage::next(
                    SessionStageOf::Find { order },
                    ReplyOf::Located { found: None },
                ),
            );
            let visiting = stack.push(OperationView::Visit(starting));
            &&& moved(visiting) == Some(visiting.push(OperationView::Boot(boot_task(order.name))))
            &&& moved(visiting.push(boot)) == Some(
                stack.push(OperationView::Visit(TaskOf::Over { result: Err(f) })),
            )
        }),
{
    let starting = entered(
        SessionStage::next(SessionStageOf::Find { order }, ReplyOf::Located { found: None }),
    );
    let visiting = stack.push(OperationView::Visit(starting));
    law_callers_are_told(
        visiting,
        ActionOf::Boot { name: order.name },
        OperationView::Boot(boot_task(order.name)),
        boot,
        Err(f),
    );
    assert(visiting.drop_last() =~= stack);
}

/// A network that cannot be set up makes the boot tell of it, and then fail with the
/// very error.
pub proof fn law_failed_network_fails_the_boot(
    stack: Seq<OperationView>,
    job: JobView,
    pid: u32,
    network: OperationView,
    f: FaultView,
    reply: ReplyView,
)
    requires
        outcome(network) == Some(Err::<ValueView, FaultView>(f)),
        !(f.kind is Panic),
    ensures
        ({
            let connecting = entered(
                BootStage::next(
                    BootStageOf::Probe { job, pid },
                    ReplyOf::Probed { delivered: true, denied: false },
                ),
            );
            let booting = stack.push(OperationView::Boot(connecting));
            &&& moved(booting) == Some(
                booting.push(
                    OperationView::Network(network_task(job.name, pid, job.ip, job.mac)),
                ),
            )
            &&& moved(booting.push(network)) matches Some(telling) && replied(telling, reply)
                == stack.push(OperationView::Boot(TaskOf::Over { result: Err(f) }))
        }),
{
    let connecting = entered(
        BootStage::next(
            BootStageOf::Probe { job, pid },
            ReplyOf::Probed { delivered: true, denied: false },
        ),
    );
    let booting = stack.push(OperationView::Boot(connecting));
    law_callers_are_told(
        booting,
        ActionOf::SetUpNetwork { name: job.name, pid, ip: job.ip, mac: job.mac },
        OperationView::Network(network_task(job.name, pid, job.ip, job.mac)),
        network,
        Err(f),
    );
    assert(booting.drop_last() =~= stack);
    let telling = replied(booting, told(Err(f)));
    assert(telling.drop_last() =~= stack);
}

/// An image that cannot be imported cannot be installed: the error of the import is
/// the error of the installation.
pub proof fn law_failed_import_fails_the_install(
    stack: Seq<OperationView>,
    path: Seq<char>,
    import: OperationView,
    f: FaultView,
)
    requires
        outcome(import) == Some(Err::<ValueView, FaultView>(f)),
        !(f.kind is Panic),
    ensures
        ({
            let importing = TaskView::<InstallStage>::Active {
                stage: InstallStage::Fetch,
                steps: fetch_steps(path),
                at: 2,
            };
            let installing = stack.push(OperationView::Install(importing));
            &&& moved(installing) == Some(
                installing.push(
                    OperationView::Import(import_task("kali"@, cached("kali-rootfs.tar.xz"@))),
                ),
            )
            &&& moved(installing.push(import)) == Some(
                stack.push(OperationView::Install(TaskOf::Over { result: Err(f) })),
            )
        }),
{
    let importing = TaskView::<InstallStage>::Active {
        stage: InstallStage::Fetch,
        steps: fetch_steps(path),
        at: 2,
    };
    let installing = stack.push(OperationView::Install(importing));
    law_callers_are_told(
        installing,
        ActionOf::Import { name: "kali"@, tar: cached("kali-rootfs.tar.xz"@) },
        OperationView::Import(import_task("kali"@, cached("kali-rootfs.tar.xz"@))),
        import,
        Err(f),
    );
    assert(installing.drop_last() =~= stack);
}

/// The error of a visit that was asked for on the command line is the error of the
/// program.
pub proof fn law_failed_visit_fails_the_program(
    name: Seq<char>,
    args: Seq<Seq<char>>,
    as_root: bool,
    visit: OperationView,
    f: FaultView,
)
    requires
        outcome(visit) == Some(Err::<ValueView, FaultView>(f)),
        !(f.kind is Panic),
    ensures
        ({
            let serving = Seq::empty().push(
                OperationView::Serve(
                    started(
                        CliStageOf::Visit,
                        no_steps().push(must(ActionOf::Visit { name, args, as_root })),
                    ),
                ),
            );
            &&& moved(serving) == Some(
                serving.push(OperationView::Visit(visit_task(OrderOf { name, args, as_root }))),
            )
            &&& moved(serving.push(visit)) == Some(
                Seq::empty().push(OperationView::Serve(TaskOf::Over { result: Err(f) })),
            )
        }),
{
    let serving = Seq::empty().push(
        OperationView::Serve(
            started(
                CliStageOf::Visit,
                no_steps().push(must(ActionOf::Visit { name, args, as_root })),
            ),
        ),
    );
    law_callers_are_told(
        serving,
        ActionOf::Visit { name, args, as_root },
        OperationView::Visit(visit_task(OrderOf { name, args, as_root })),
        visit,
        Err(f),
    );
    assert(serving.drop_last() =~= Seq::empty());
}

/// A visit to a distribution that is not registered ends in an error of the class
/// `NotFound`, whether or not something of that name seems to run: with nothing
/// written down the boot refuses it, and with a live process the visit does.
pub proof fn law_unregistered_is_not_found(order: OrderView, config: ConfigView, pid: u32)
    requires
        !registered(config.distros, order.name),
    ensures
        ({
            let visiting = Seq::empty().push(OperationView::Visit(visit_task(order)));
            let looking = visiting.push(OperationView::Lookup(lookup_task(order.name)));
            let nothing = replied(looking, ReplyOf::Found { exists: false });
            &&& moved(visiting) == Some(looking)
            &&& moved(nothing) matches Some(starting) && moved(starting) matches Some(booting)
                && moved(replied(booting, ReplyOf::Config { config })) == Some(
                Seq::empty().push(
                    OperationView::Visit(
                        TaskOf::Over {
                            result: Err(
                                FaultOf {
                                    kind: FaultKind::NotFound,
                                    message: "Distro '"@ + order.name + "' not registered"@,
                                },
                            ),
                        },
                    ),
                ),
            )
            &&& resumed::<SessionStage>(
                resumed::<SessionStage>(
                    visit_task(order),
                    ReplyOf::Located { found: Some(pid) },
                ),
                ReplyOf::Config { config },
            ) == (TaskView::<SessionStageView>::Over {
                result: Err(
                    FaultOf {
                        kind: FaultKind::NotFound,
                        message: "Distro '"@ + order.name + "' not found in config"@,
                    },
                ),
            })
        }),
{
    let visiting = Seq::empty().push(OperationView::Visit(visit_task(order)));
    let looking = visiting.push(OperationView::Lookup(lookup_task(order.name)));
    let nothing = replied(looking, ReplyOf::Found { exists: false });
    assert(looking.drop_last() =~= visiting);
    assert(nothing.drop_last() =~= visiting);
    assert(visiting.drop_last() =~= Seq::empty());
    let starting = replied(visiting, ReplyOf::Located { found: None });
    assert(moved(nothing) == Some(starting));
    assert(starting.drop_last() =~= Seq::empty());
    let booting = starting.push(OperationView::Boot(boot_task(order.name)));
    assert(moved(starting) == Some(booting));
    assert(booting.drop_last() =~= starting);
    let refused = replied(booting, ReplyOf::Config { config });
    assert(refused.drop_last() =~= starting);
}

/// A window is opened for what was asked for: the distribution that was named and the
/// user that was meant go into the operation that opens it.
pub proof fn law_window_is_for_the_request(request: RequestView)
    requires
        wants_window(request, false),
    ensures
        ({
            let serving = Seq::empty().push(OperationView::Serve(serve_task(request, false)));
            moved(serving) == Some(
                serving.push(
                    OperationView::Terminal(
                        terminal_task(
                            WindowOf { distro: request.distro, as_root: request.root },
                        ),
                    ),
                ),
            )
        }),
{
}

/// An action that stands for an operation starts that operation, on what the action names:
/// the first thing that is then asked of the host is the operation's own.
pub proof fn law_actions_start_their_operations(
    name: Seq<char>,
    other: Seq<char>,
    mac: Seq<char>,
    args: Seq<Seq<char>>,
    pid: u32,
    gid: u32,
    distro: Option<Seq<char>>,
    yes: bool,
    config: ConfigView,
)
    ensures
        called(ActionOf::FindPid { name }) matches Some(op) && waits_for(op) == Some(
            ActionView::Exists { path: pid_file(name) },
        ),
        called(ActionOf::Boot { name }) == Some(OperationView::Boot(boot_task(name))),
        called(ActionOf::Stop { name }) == Some(OperationView::Stop(stop_task(name))),
        called(ActionOf::SetUpNetwork { name, pid, ip: other, mac }) == Some(
            OperationView::Network(network_task(name, pid, other, mac)),
        ),
        called(ActionOf::SetUpUser { root: other, user: name, uid: pid, gid }) == Some(
            OperationView::Enlist(user_task(other, name, pid, gid)),
        ),
        called(ActionOf::Import { name, tar: other }) matches Some(OperationView::Import(t))
            && t == import_task(name, other) && pending(t) == Some(
            ActionView::Exists { path: distro_dir(name) },
        ),
        called(ActionOf::InGuest { pid, args }) == Some(
            OperationView::Guest(guest_task(pid, args)),
        ),
        called(ActionOf::OpenTerminal { distro, as_root: yes }) == Some(
            OperationView::Terminal(terminal_task(WindowOf { distro, as_root: yes })),
        ),
        called(ActionOf::Unregister { name }) == Some(OperationView::Remove(remove_task(name))),
        called(ActionOf::List { config }) == Some(OperationView::List(list_task(config))),
        called(ActionOf::Visit { name, args, as_root: yes }) matches Some(OperationView::Visit(t))
            && t == visit_task(OrderOf { name, args, as_root: yes }) && pending(t) == Some(
            ActionView::FindPid { name },
        ),
        called(ActionOf::Install) == Some(OperationView::Install(install_task())),
        called(ActionOf::LoadConfig) is None,
        called(ActionOf::Exec { args }) is None,
{
}

/// Nothing follows an end that is beyond help, and nothing follows a boot that has become
/// the init process of a guest: no caller is told. Any other end is told to the caller.
pub proof fn law_some_ends_are_final(
    stack: Seq<OperationView>,
    top: OperationView,
    result: Result<ValueView, FaultView>,
)
    requires
        stack.len() > 0,
        outcome(top) == Some(result),
        waits_for(top) is None,
    ensures
        (result matches Err(f) && f.kind == FaultKind::Panic) ==> moved(stack.push(top)) is None,
        (top is Boot && result == Ok::<ValueView, FaultView>(ValueOf::Nothing)) ==> moved(
            stack.push(top),
        ) is None,
        !(result matches Err(f) && f.kind == FaultKind::Panic) && !(top is Boot && result == Ok::<
            ValueView,
            FaultView,
        >(ValueOf::Nothing)) ==> moved(stack.push(top)) is Some,
        moved(Seq::empty().push(top)) is None,
{
    assert(stack.push(top).drop_last() =~= stack);
    assert(Seq::<OperationView>::empty().push(top).drop_last() =~= Seq::empty());
}

} // verus!
