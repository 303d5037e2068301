//! Tasks: sequences of steps with decisions in between.
//!
//! A task never touches the host. It names the next action, is told what came
//! of it, and goes on from there. What it does when a step goes wrong is part of
//! the step; what it does when its steps are through is decided by its plan.
use vstd::prelude::*;

use crate::action::{
    ended, fault, say, told, Action, ActionOf, ActionView, Fault, FaultKind, FaultOf, FaultView,
    Reply, ReplyOf, ReplyView, Style, Value, ValueView,
};

verus! {

// ------------------------------------------------------------------------ steps

/// What to do when a step goes wrong.
pub enum HandlingOf<T> {
    /// Go on.
    Ignore,
    /// Go on behind the next steps.
    Skip { count: usize },
    /// Give up with the very error that was told.
    Raise,
    /// Give up with an error of our own.
    Fail { kind: FaultKind, message: T },
    /// Give up with an error that quotes the one that was told.
    Explain { kind: FaultKind, prefix: T },
    /// Give up with an error of our own, after cleaning up.
    CleanUp { kind: FaultKind, message: T },
}

pub type Handling = HandlingOf<String>;

pub type HandlingView = HandlingOf<Seq<char>>;

impl View for Handling {
    type V = HandlingView;

    open spec fn view(&self) -> HandlingView {
        match *self {
            HandlingOf::Ignore => HandlingOf::Ignore,
            HandlingOf::Skip { count } => HandlingOf::Skip { count },
            HandlingOf::Raise => HandlingOf::Raise,
            HandlingOf::Fail { kind, message } => HandlingOf::Fail { kind, message: message@ },
            HandlingOf::Explain { kind, prefix } => HandlingOf::Explain { kind, prefix: prefix@ },
            HandlingOf::CleanUp { kind, message } => HandlingOf::CleanUp {
                kind,
                message: message@,
            },
        }
    }
}

/// What the reply to a step means.
pub enum RuleOf<H> {
    /// The step asks whether a path exists: unless the answer is the wanted one,
    /// the next steps are left out.
    Guard { want: bool, count: usize },
    /// The step acts: the host may refuse it, and a program that it runs may fail.
    Act { on_error: H, on_refusal: H },
}

pub type Rule = RuleOf<Handling>;

pub type RuleView = RuleOf<HandlingView>;

impl View for Rule {
    type V = RuleView;

    open spec fn view(&self) -> RuleView {
        match *self {
            RuleOf::Guard { want, count } => RuleOf::Guard { want, count },
            RuleOf::Act { on_error, on_refusal } => RuleOf::Act {
                on_error: on_error@,
                on_refusal: on_refusal@,
            },
        }
    }
}

/// An action and the rule for its reply.
pub struct StepOf<A, R> {
    pub action: A,
    pub rule: R,
}

pub type Step = StepOf<Action, Rule>;

pub type StepView = StepOf<ActionView, RuleView>;

impl View for Step {
    type V = StepView;

    open spec fn view(&self) -> StepView {
        StepOf { action: self.action@, rule: self.rule@ }
    }
}

/// A step whose failure does not matter.
pub open spec fn attempt(action: ActionView) -> StepView {
    StepOf {
        action,
        rule: RuleOf::Act { on_error: HandlingOf::Ignore, on_refusal: HandlingOf::Ignore },
    }
}

/// A step that must not be refused by the host.
pub open spec fn must(action: ActionView) -> StepView {
    StepOf {
        action,
        rule: RuleOf::Act { on_error: HandlingOf::Raise, on_refusal: HandlingOf::Ignore },
    }
}

/// A step that must not be refused by the host; the error says what failed.
pub open spec fn explained(action: ActionView, kind: FaultKind, prefix: Seq<char>) -> StepView {
    StepOf {
        action,
        rule: RuleOf::Act {
            on_error: HandlingOf::Explain { kind, prefix },
            on_refusal: HandlingOf::Ignore,
        },
    }
}

/// A step without which the process cannot go on.
pub open spec fn vital(action: ActionView, message: Seq<char>) -> StepView {
    StepOf {
        action,
        rule: RuleOf::Act {
            on_error: HandlingOf::Explain { kind: FaultKind::Panic, prefix: message },
            on_refusal: HandlingOf::Ignore,
        },
    }
}

/// A program that must run and must succeed.
pub open spec fn checked(action: ActionView, message: Seq<char>) -> StepView {
    StepOf {
        action,
        rule: RuleOf::Act {
            on_error: HandlingOf::Raise,
            on_refusal: HandlingOf::Fail { kind: FaultKind::Other, message },
        },
    }
}

/// A program that must run and must succeed, else all is cleaned up.
pub open spec fn guarded(action: ActionView, message: Seq<char>) -> StepView {
    StepOf {
        action,
        rule: RuleOf::Act {
            on_error: HandlingOf::Raise,
            on_refusal: HandlingOf::CleanUp { kind: FaultKind::Other, message },
        },
    }
}

/// A step whose failure, of either kind, ends the attempt it belongs to.
pub open spec fn needed(action: ActionView, message: Seq<char>) -> StepView {
    StepOf {
        action,
        rule: RuleOf::Act {
            on_error: HandlingOf::Fail { kind: FaultKind::Other, message },
            on_refusal: HandlingOf::Fail { kind: FaultKind::Other, message },
        },
    }
}

/// A step whose refusal leaves out the next ones.
pub open spec fn leading(action: ActionView, count: usize) -> StepView {
    StepOf {
        action,
        rule: RuleOf::Act {
            on_error: HandlingOf::Skip { count },
            on_refusal: HandlingOf::Ignore,
        },
    }
}

/// Leaves out the next steps unless the existence of the path is as wanted.
pub open spec fn only_if(path: Seq<char>, want: bool, count: usize) -> StepView {
    StepOf { action: ActionOf::Exists { path }, rule: RuleOf::Guard { want, count } }
}

/// A list of steps.
pub struct Steps {
    list: Vec<Step>,
}

/// The contents of a list of steps.
closed spec fn views(v: Seq<Step>) -> Seq<StepView> {
    v.map_values(|s: Step| s@)
}

impl View for Steps {
    type V = Seq<StepView>;

    closed spec fn view(&self) -> Seq<StepView> {
        views(self.list@)
    }
}

/// No steps.
pub open spec fn no_steps() -> Seq<StepView> {
    Seq::empty()
}

impl Steps {
    /// Starts a list of steps.
    pub fn new() -> (r: Steps)
        ensures
            r@ == no_steps(),
    {
        let r = Steps { list: Vec::new() };
        assert(r@ =~= no_steps());
        r
    }

    /// One step more.
    fn with(self, action: Action, rule: Rule) -> (r: Steps)
        ensures
            r@ == self@.push(StepOf { action: action@, rule: rule@ }),
    {
        let ghost before = self.list@;
        let mut list: Vec<Step> = self.list;
        let step: Step = StepOf { action, rule };
        let ghost s = step@;
        list.push(step);
        assert(views(list@) =~= views(before).push(s));
        Steps { list }
    }

    /// A line of output.
    pub fn say(self, style: Style, text: String) -> (r: Steps)
        ensures
            r@ == self@.push(attempt(crate::action::line(style, text@))),
    {
        self.attempt(say(style, text))
    }

    /// A step whose failure does not matter.
    pub fn attempt(self, action: Action) -> (r: Steps)
        ensures
            r@ == self@.push(attempt(action@)),
    {
        self.with(
            action,
            RuleOf::Act { on_error: HandlingOf::Ignore, on_refusal: HandlingOf::Ignore },
        )
    }

    /// A step that must not be refused by the host.
    pub fn must(self, action: Action) -> (r: Steps)
        ensures
            r@ == self@.push(must(action@)),
    {
        self.with(action, RuleOf::Act { on_error: HandlingOf::Raise, on_refusal: HandlingOf::Ignore })
    }

    /// A step that must not be refused by the host; the error says what failed.
    pub fn explained(self, action: Action, kind: FaultKind, prefix: &str) -> (r: Steps)
        ensures
            r@ == self@.push(explained(action@, kind, prefix@)),
    {
        self.with(
            action,
            RuleOf::Act {
                on_error: HandlingOf::Explain { kind, prefix: prefix.to_owned() },
                on_refusal: HandlingOf::Ignore,
            },
        )
    }

    /// A step without which the process cannot go on.
    pub fn vital(self, action: Action, message: &str) -> (r: Steps)
        ensures
            r@ == self@.push(vital(action@, message@)),
    {
        self.explained(action, FaultKind::Panic, message)
    }

    /// A program that must run and must succeed.
    pub fn checked(self, action: Action, message: &str) -> (r: Steps)
        ensures
            r@ == self@.push(checked(action@, message@)),
    {
        self.with(
            action,
            RuleOf::Act {
                on_error: HandlingOf::Raise,
                on_refusal: HandlingOf::Fail {
                    kind: FaultKind::Other,
                    message: message.to_owned(),
                },
            },
        )
    }

    /// A program that must run and must succeed, else all is cleaned up.
    pub fn guarded(self, action: Action, message: &str) -> (r: Steps)
        ensures
            r@ == self@.push(guarded(action@, message@)),
    {
        self.with(
            action,
            RuleOf::Act {
                on_error: HandlingOf::Raise,
                on_refusal: HandlingOf::CleanUp {
                    kind: FaultKind::Other,
                    message: message.to_owned(),
                },
            },
        )
    }

    /// A step whose failure, of either kind, ends the attempt it belongs to.
    pub fn needed(self, action: Action, message: &str) -> (r: Steps)
        ensures
            r@ == self@.push(needed(action@, message@)),
    {
        self.with(
            action,
            RuleOf::Act {
                on_error: HandlingOf::Fail {
                    kind: FaultKind::Other,
                    message: message.to_owned(),
                },
                on_refusal: HandlingOf::Fail {
                    kind: FaultKind::Other,
                    message: message.to_owned(),
                },
            },
        )
    }

    /// A step whose refusal leaves out the next ones.
    pub fn leading(self, action: Action, count: usize) -> (r: Steps)
        ensures
            r@ == self@.push(leading(action@, count)),
    {
        self.with(
            action,
            RuleOf::Act { on_error: HandlingOf::Skip { count }, on_refusal: HandlingOf::Ignore },
        )
    }

    /// Leaves out the next steps unless the existence of the path is as wanted.
    pub fn only_if(self, path: String, want: bool, count: usize) -> (r: Steps)
        ensures
            r@ == self@.push(only_if(path@, want, count)),
    {
        self.with(ActionOf::Exists { path }, RuleOf::Guard { want, count })
    }

    /// The steps of both lists.
    pub fn then_all(self, more: Steps) -> (r: Steps)
        ensures
            r@ == self@ + more@,
    {
        let ghost a = self.list@;
        let ghost b = more.list@;
        let mut list: Vec<Step> = self.list;
        let mut rest: Vec<Step> = more.list;
        list.append(&mut rest);
        assert(views(list@) =~= views(a) + views(b));
        Steps { list }
    }

    /// How many steps there are.
    pub fn len(&self) -> (n: usize)
        ensures
            n == self@.len(),
    {
        self.list.len()
    }

    /// The action of step `i`.
    pub fn action(&self, i: usize) -> (r: &Action)
        requires
            i < self@.len(),
        ensures
            r@ == self@[i as int].action,
    {
        &self.list[i].action
    }

    /// The rule of step `i`.
    fn rule(&self, i: usize) -> (r: &Rule)
        requires
            i < self@.len(),
        ensures
            r@ == self@[i as int].rule,
    {
        &self.list[i].rule
    }
}

// ------------------------------------------------------------------------- flow

/// Where a task goes after the reply to a step.
pub enum FlowOf<F> {
    /// On, leaving out some steps.
    Advance { skip: usize },
    /// Nowhere; if `clean` is set, what was done so far is to be undone.
    Halt { fault: F, clean: bool },
}

pub type Flow = FlowOf<Fault>;

pub type FlowView = FlowOf<FaultView>;

impl View for Flow {
    type V = FlowView;

    open spec fn view(&self) -> FlowView {
        match *self {
            FlowOf::Advance { skip } => FlowOf::Advance { skip },
            FlowOf::Halt { fault, clean } => FlowOf::Halt { fault: fault@, clean },
        }
    }
}

/// What follows when a step goes wrong.
pub open spec fn handled(h: HandlingView, kind: FaultKind, error: Seq<char>) -> FlowView {
    match h {
        HandlingOf::Ignore => FlowOf::Advance { skip: 0 },
        HandlingOf::Skip { count } => FlowOf::Advance { skip: count },
        HandlingOf::Raise => FlowOf::Halt {
            fault: FaultOf { kind, message: error },
            clean: false,
        },
        HandlingOf::Fail { kind, message } => FlowOf::Halt {
            fault: FaultOf { kind, message },
            clean: false,
        },
        HandlingOf::Explain { kind, prefix } => FlowOf::Halt {
            fault: FaultOf { kind, message: prefix + error },
            clean: false,
        },
        HandlingOf::CleanUp { kind, message } => FlowOf::Halt {
            fault: FaultOf { kind, message },
            clean: true,
        },
    }
}

/// Where a reply leads under a rule. A path counts as existing only if the reply
/// says so; a step goes wrong only if the reply says so.
pub open spec fn led_by(rule: RuleView, reply: ReplyView) -> FlowView {
    match rule {
        RuleOf::Guard { want, count } => FlowOf::Advance {
            skip: if (reply == ReplyView::Found { exists: true }) == want {
                0
            } else {
                count
            },
        },
        RuleOf::Act { on_error, on_refusal } => match reply {
            ReplyOf::Failed { kind, error } => handled(on_error, kind, error),
            ReplyOf::Exit { success } => if success {
                FlowOf::Advance { skip: 0 }
            } else {
                handled(on_refusal, FaultKind::Other, Seq::empty())
            },
            _ => FlowOf::Advance { skip: 0 },
        },
    }
}

/// Decides what follows when a step goes wrong.
fn handle(h: &Handling, kind: FaultKind, error: &str) -> (r: Flow)
    ensures
        r@ == handled(h@, kind, error@),
{
    match h {
        HandlingOf::Ignore => FlowOf::Advance { skip: 0 },
        HandlingOf::Skip { count } => FlowOf::Advance { skip: *count },
        HandlingOf::Raise => FlowOf::Halt { fault: fault(kind, error), clean: false },
        HandlingOf::Fail { kind, message } => FlowOf::Halt {
            fault: fault(*kind, message.as_str()),
            clean: false,
        },
        HandlingOf::Explain { kind, prefix } => FlowOf::Halt {
            fault: FaultOf { kind: *kind, message: prefix.clone().concat(error) },
            clean: false,
        },
        HandlingOf::CleanUp { kind, message } => FlowOf::Halt {
            fault: fault(*kind, message.as_str()),
            clean: true,
        },
    }
}

/// Decides where a reply leads.
fn follow(rule: &Rule, reply: &Reply) -> (r: Flow)
    ensures
        r@ == led_by(rule@, reply@),
{
    match rule {
        RuleOf::Guard { want, count } => {
            let exists: bool = match reply {
                ReplyOf::Found { exists } => *exists,
                _ => false,
            };
            FlowOf::Advance {
                skip: if exists == *want {
                    0
                } else {
                    *count
                },
            }
        },
        RuleOf::Act { on_error, on_refusal } => match reply {
            ReplyOf::Failed { kind, error } => handle(on_error, *kind, error.as_str()),
            ReplyOf::Exit { success } => if *success {
                FlowOf::Advance { skip: 0 }
            } else {
                let none: String = String::new();
                handle(on_refusal, FaultKind::Other, none.as_str())
            },
            _ => FlowOf::Advance { skip: 0 },
        },
    }
}

// ------------------------------------------------------------------------ plans

/// How a task goes on: with the steps of its next stage, or not at all.
pub enum TurnOf<S, P, R> {
    Go { stage: S, steps: P },
    End { result: R },
}

pub type Turn<S> = TurnOf<S, Steps, Result<Value, Fault>>;

pub type TurnView<S> = TurnOf<S, Seq<StepView>, Result<ValueView, FaultView>>;

/// A turn as contracts see it.
pub open spec fn turned<S: View>(t: Turn<S>) -> TurnView<S::V> {
    match t {
        TurnOf::Go { stage, steps } => TurnOf::Go { stage: stage@, steps: steps@ },
        TurnOf::End { result } => TurnOf::End { result: ended(result) },
    }
}

/// A turn that fails.
pub open spec fn failing<S>(kind: FaultKind, message: Seq<char>) -> TurnView<S> {
    TurnOf::End { result: Err(FaultOf { kind, message }) }
}

/// A turn that succeeds.
pub open spec fn giving<S>(value: ValueView) -> TurnView<S> {
    TurnOf::End { result: Ok(value) }
}

/// A turn for a reply that does not answer what was asked.
pub open spec fn stray<S>() -> TurnView<S> {
    failing(FaultKind::Other, "Unexpected reply"@)
}

/// Takes the turn for a reply that does not answer what was asked.
pub fn take_stray<S: View>() -> (r: Turn<S>)
    ensures
        turned(r) == stray::<S::V>(),
{
    TurnOf::End { result: Err(fault(FaultKind::Other, "Unexpected reply")) }
}

/// The decisions of a task. Its stages are the values of the type.
pub trait Plan: View + Sized {
    /// Stages follow one another from higher to lower rank.
    spec fn rank(stage: Self::V) -> nat;

    /// The turn after the steps of a stage are through; `reply` answered the last.
    spec fn next(stage: Self::V, reply: ReplyView) -> TurnView<Self::V>;

    /// The turn after a step of the stage went wrong.
    spec fn halted(stage: Self::V, fault: FaultView, clean: bool) -> TurnView<Self::V>;

    /// Every turn descends.
    proof fn next_descends(stage: Self::V, reply: ReplyView)
        ensures
            Self::next(stage, reply) matches TurnOf::Go { stage: s, steps } ==> steps.len() > 0
                && Self::rank(s) < Self::rank(stage),
    ;

    /// Every turn descends.
    proof fn halted_descends(stage: Self::V, fault: FaultView, clean: bool)
        ensures
            Self::halted(stage, fault, clean) matches TurnOf::Go { stage: s, steps }
                ==> steps.len() > 0 && Self::rank(s) < Self::rank(stage),
    ;

    /// Takes the turn after the steps of a stage are through.
    fn advance(self, reply: Reply) -> (r: Turn<Self>)
        ensures
            turned(r) == Self::next(self@, reply@),
    ;

    /// Takes the turn after a step of the stage went wrong.
    fn halt(self, fault: Fault, clean: bool) -> (r: Turn<Self>)
        ensures
            turned(r) == Self::halted(self@, fault@, clean),
    ;
}

// ------------------------------------------------------------------------ tasks

/// A task at some point of its run.
pub enum TaskOf<S, P, N, R> {
    Active { stage: S, steps: P, at: N },
    Over { result: R },
}

pub type Task<S> = TaskOf<S, Steps, usize, Result<Value, Fault>>;

pub type TaskView<S> = TaskOf<S, Seq<StepView>, int, Result<ValueView, FaultView>>;

impl<S: View> View for Task<S> {
    type V = TaskView<S::V>;

    open spec fn view(&self) -> TaskView<S::V> {
        match *self {
            TaskOf::Active { stage, steps, at } => TaskOf::Active {
                stage: stage@,
                steps: steps@,
                at: at as int,
            },
            TaskOf::Over { result } => TaskOf::Over { result: ended(result) },
        }
    }
}

/// A task that has just taken a turn.
pub open spec fn entered<S>(turn: TurnView<S>) -> TaskView<S> {
    match turn {
        TurnOf::Go { stage, steps } => TaskOf::Active { stage, steps, at: 0 },
        TurnOf::End { result } => TaskOf::Over { result },
    }
}

/// A task that starts with the given stage and steps.
pub open spec fn started<S>(stage: S, steps: Seq<StepView>) -> TaskView<S> {
    TaskOf::Active { stage, steps, at: 0 }
}

/// The action that a task waits for.
pub open spec fn pending<S>(t: TaskView<S>) -> Option<ActionView> {
    match t {
        TaskOf::Active { stage, steps, at } => if 0 <= at < steps.len() {
            Some(steps[at].action)
        } else {
            None
        },
        TaskOf::Over { result } => None,
    }
}

/// The task after the reply to the action that it waited for.
pub open spec fn resumed<P: Plan>(t: TaskView<P::V>, reply: ReplyView) -> TaskView<P::V> {
    match t {
        TaskOf::Active { stage, steps, at } => if 0 <= at < steps.len() {
            match led_by(steps[at].rule, reply) {
                FlowOf::Advance { skip } => if at + 1 + skip < steps.len() {
                    TaskOf::Active { stage, steps, at: at + 1 + skip }
                } else {
                    entered(P::next(stage, reply))
                },
                FlowOf::Halt { fault, clean } => entered(P::halted(stage, fault, clean)),
            }
        } else {
            entered(P::next(stage, reply))
        },
        TaskOf::Over { result } => t,
    }
}

impl<P: Plan> Task<P> {
    /// A task that starts with the given stage and steps.
    pub fn start(stage: P, steps: Steps) -> (r: Self)
        ensures
            r@ == started(stage@, steps@),
    {
        TaskOf::Active { stage, steps, at: 0 }
    }

    /// The action that the task waits for; none when it is over.
    pub fn pending(&self) -> (r: Option<&Action>)
        ensures
            match r {
                Some(a) => pending(self@) == Some(a@),
                None => pending(self@) is None,
            },
    {
        match self {
            TaskOf::Active { stage, steps, at } => {
                let i: usize = *at;
                if i < steps.len() {
                    Some(steps.action(i))
                } else {
                    None
                }
            },
            TaskOf::Over { result } => None,
        }
    }

    /// Takes a turn.
    pub fn enter(turn: Turn<P>) -> (r: Self)
        ensures
            r@ == entered(turned(turn)),
    {
        match turn {
            TurnOf::Go { stage, steps } => TaskOf::Active { stage, steps, at: 0 },
            TurnOf::End { result } => TaskOf::Over { result },
        }
    }

    /// Goes on after the reply to the pending action.
    pub fn resume(self, reply: Reply) -> (r: Self)
        ensures
            r@ == resumed::<P>(self@, reply@),
    {
        match self {
            TaskOf::Active { stage, steps, at } => {
                let n: usize = steps.len();
                if at < n {
                    match follow(steps.rule(at), &reply) {
                        FlowOf::Advance { skip } => {
                            if skip < n - at - 1 {
                                TaskOf::Active { stage, steps, at: at + 1 + skip }
                            } else {
                                Self::enter(stage.advance(reply))
                            }
                        },
                        FlowOf::Halt { fault, clean } => Self::enter(stage.halt(fault, clean)),
                    }
                } else {
                    Self::enter(stage.advance(reply))
                }
            },
            TaskOf::Over { result } => TaskOf::Over { result },
        }
    }
}

// ------------------------------------------------------------------------- laws

/// A task that waits for something unless it is over.
pub open spec fn busy<S>(t: TaskView<S>) -> bool {
    t matches TaskOf::Active { stage, steps, at } ==> 0 <= at < steps.len()
}

/// How many steps of the stage are left.
pub open spec fn left<S>(t: TaskView<S>) -> nat {
    match t {
        TaskOf::Active { stage, steps, at } => if 0 <= at < steps.len() {
            (steps.len() - at) as nat
        } else {
            0
        },
        TaskOf::Over { result } => 0,
    }
}

/// The rank of the stage that a task is in.
pub open spec fn height<P: Plan>(t: TaskView<P::V>) -> nat {
    match t {
        TaskOf::Active { stage, steps, at } => P::rank(stage),
        TaskOf::Over { result } => 0,
    }
}

/// Every reply brings a task forward: it stays busy until it is over, and either
/// its stage descends or it has fewer steps left in the same stage.
pub proof fn law_reply_brings_forward<P: Plan>(t: TaskView<P::V>, reply: ReplyView)
    requires
        busy(t),
        !(t is Over),
    ensures
        busy(resumed::<P>(t, reply)),
        resumed::<P>(t, reply) is Over || height::<P>(resumed::<P>(t, reply)) < height::<P>(t) || (
        height::<P>(resumed::<P>(t, reply)) == height::<P>(t) && left(resumed::<P>(t, reply))
            < left(t)),
{
    match t {
        TaskOf::Active { stage, steps, at } => {
            match led_by(steps[at].rule, reply) {
                FlowOf::Advance { skip } => {
                    P::next_descends(stage, reply);
                },
                FlowOf::Halt { fault, clean } => {
                    P::halted_descends(stage, fault, clean);
                },
            }
        },
        TaskOf::Over { result } => {},
    }
}

/// The task after the first `n` of a stream of replies.
pub open spec fn after_replies<P: Plan>(
    t: TaskView<P::V>,
    replies: spec_fn(nat) -> ReplyView,
    n: nat,
) -> TaskView<P::V>
    decreases n,
{
    if n == 0 {
        t
    } else {
        resumed::<P>(after_replies::<P>(t, replies, (n - 1) as nat), replies((n - 1) as nat))
    }
}

/// Among the first `n` replies is one to this action that does not tell of an error.
pub open spec fn granted<P: Plan>(
    t: TaskView<P::V>,
    replies: spec_fn(nat) -> ReplyView,
    n: nat,
    action: ActionView,
) -> bool {
    exists|k: nat|
        k < n && pending(#[trigger] after_replies::<P>(t, replies, k)) == Some(action) && !(
        replies(k) is Failed)
}

/// Among the first `n` replies is this one, to this action.
pub open spec fn heard<P: Plan>(
    t: TaskView<P::V>,
    replies: spec_fn(nat) -> ReplyView,
    n: nat,
    action: ActionView,
    reply: ReplyView,
) -> bool {
    exists|k: nat|
        k < n && pending(#[trigger] after_replies::<P>(t, replies, k)) == Some(action) && replies(k)
            == reply
}

/// What was granted stays granted.
pub proof fn lemma_granted_grows<P: Plan>(
    t: TaskView<P::V>,
    replies: spec_fn(nat) -> ReplyView,
    n: nat,
    action: ActionView,
)
    ensures
        granted::<P>(t, replies, n, action) ==> granted::<P>(t, replies, n + 1, action),
        pending(after_replies::<P>(t, replies, n)) == Some(action) && !(replies(n) is Failed)
            ==> granted::<P>(t, replies, n + 1, action),
{
    if granted::<P>(t, replies, n, action) {
        let k = choose|k: nat|
            k < n && pending(#[trigger] after_replies::<P>(t, replies, k)) == Some(action) && !(
            replies(k) is Failed);
        assert(k < n + 1);
    }
}

/// What was heard stays heard.
pub proof fn lemma_heard_grows<P: Plan>(
    t: TaskView<P::V>,
    replies: spec_fn(nat) -> ReplyView,
    n: nat,
    action: ActionView,
    reply: ReplyView,
)
    ensures
        heard::<P>(t, replies, n, action, reply) ==> heard::<P>(t, replies, n + 1, action, reply),
        pending(after_replies::<P>(t, replies, n)) == Some(action) && replies(n) == reply
            ==> heard::<P>(t, replies, n + 1, action, reply),
{
    if heard::<P>(t, replies, n, action, reply) {
        let k = choose|k: nat|
            k < n && pending(#[trigger] after_replies::<P>(t, replies, k)) == Some(action)
                && replies(k) == reply;
        assert(k < n + 1);
    }
}

/// Whatever the host replies, every task is over at some point, and waits for an
/// action until then.
pub proof fn law_every_task_ends<P: Plan>(
    t: TaskView<P::V>,
    replies: spec_fn(nat) -> ReplyView,
) -> (n: nat)
    requires
        busy(t),
    ensures
        after_replies::<P>(t, replies, n) is Over,
        forall|k: nat| k < n ==> pending(#[trigger] after_replies::<P>(t, replies, k)) is Some,
{
    lemma_ends_from::<P>(t, replies, 0)
}

/// From the point after `m` replies on, the task ends.
proof fn lemma_ends_from<P: Plan>(
    t: TaskView<P::V>,
    replies: spec_fn(nat) -> ReplyView,
    m: nat,
) -> (n: nat)
    requires
        busy(after_replies::<P>(t, replies, m)),
        forall|k: nat| k < m ==> pending(#[trigger] after_replies::<P>(t, replies, k)) is Some,
    ensures
        m <= n,
        after_replies::<P>(t, replies, n) is Over,
        forall|k: nat| k < n ==> pending(#[trigger] after_replies::<P>(t, replies, k)) is Some,
    decreases
            height::<P>(after_replies::<P>(t, replies, m)),
            left(after_replies::<P>(t, replies, m)),
{
    let now = after_replies::<P>(t, replies, m);
    if now is Over {
        m
    } else {
        law_reply_brings_forward::<P>(now, replies(m));
        let then = after_replies::<P>(t, replies, m + 1);
        assert(then == resumed::<P>(now, replies(m)));
        assert(pending(now) is Some);
        if then is Over {
            m + 1
        } else {
            lemma_ends_from::<P>(t, replies, m + 1)
        }
    }
}

/// How many steps a handling leaves out.
pub open spec fn left_out(h: HandlingView) -> nat {
    match h {
        HandlingOf::Skip { count } => count as nat,
        _ => 0,
    }
}

/// How many of the steps behind it a step can leave out at most.
pub open spec fn reach(step: StepView) -> nat {
    match step.rule {
        RuleOf::Guard { want, count } => count as nat,
        RuleOf::Act { on_error, on_refusal } => if left_out(on_error) <= left_out(on_refusal) {
            left_out(on_refusal)
        } else {
            left_out(on_error)
        },
    }
}

/// No step before the `j`-th can leave it out.
pub open spec fn sure(steps: Seq<StepView>, j: int) -> bool {
    forall|i: int| 0 <= i < j ==> i + reach(#[trigger] steps[i]) < j
}

/// Among the first `n` actions is this one.
pub open spec fn asked<P: Plan>(
    t: TaskView<P::V>,
    replies: spec_fn(nat) -> ReplyView,
    n: nat,
    action: ActionView,
) -> bool {
    exists|k: nat|
        k < n && pending(#[trigger] after_replies::<P>(t, replies, k)) == Some(action)
}

/// All steps before the `at`-th that nothing can leave out were taken.
pub open spec fn all_asked<P: Plan>(
    t: TaskView<P::V>,
    replies: spec_fn(nat) -> ReplyView,
    n: nat,
    steps: Seq<StepView>,
    at: int,
) -> bool {
    forall|j: int|
        0 <= j < at && j < steps.len() && sure(steps, j) ==> asked::<P>(
            t,
            replies,
            n,
            (#[trigger] steps[j]).action,
        )
}

/// A reply that leads on takes the steps that nothing can leave out one by one.
pub proof fn lemma_all_asked<P: Plan>(
    t: TaskView<P::V>,
    replies: spec_fn(nat) -> ReplyView,
    n: nat,
    stage: P::V,
    steps: Seq<StepView>,
    at: int,
)
    requires
        after_replies::<P>(t, replies, n) == (TaskView::<P::V>::Active { stage, steps, at }),
        0 <= at < steps.len(),
        all_asked::<P>(t, replies, n, steps, at),
    ensures
        led_by(steps[at].rule, replies(n)) matches FlowOf::Advance { skip } ==> all_asked::<P>(
            t,
            replies,
            n + 1,
            steps,
            at + 1 + skip,
        ),
{
    if let FlowOf::Advance { skip } = led_by(steps[at].rule, replies(n)) {
        assert(skip <= reach(steps[at]));
        assert forall|j: int|
            0 <= j < at + 1 + skip && j < steps.len() && sure(steps, j) implies asked::<P>(
            t,
            replies,
            n + 1,
            (#[trigger] steps[j]).action,
        ) by {
            if j < at {
                let k = choose|k: nat|
                    k < n && pending(#[trigger] after_replies::<P>(t, replies, k)) == Some(
                        steps[j].action,
                    );
                assert(k < n + 1);
            } else if j == at {
                assert(pending(after_replies::<P>(t, replies, n)) == Some(steps[j].action));
            } else {
                assert(at + reach(steps[at]) < j);
            }
        }
    }
}

/// Steps none of which can stop a task.
pub open spec fn heedless(steps: Seq<StepView>) -> bool {
    forall|i: int| 0 <= i < steps.len() ==> goes_on(#[trigger] steps[i])
}

/// A step that cannot stop a task.
pub open spec fn goes_on(step: StepView) -> bool {
    match step.rule {
        RuleOf::Guard { want, count } => true,
        RuleOf::Act { on_error, on_refusal } => unconcerned(on_error) && unconcerned(on_refusal),
    }
}

/// A handling that does not stop a task.
pub open spec fn unconcerned(h: HandlingView) -> bool {
    h is Ignore || h is Skip
}

/// Steps that cannot stop a task lead on within the stage or to its next turn,
/// whatever the host replies.
pub proof fn lemma_heedless<P: Plan>(
    stage: P::V,
    steps: Seq<StepView>,
    at: int,
    reply: ReplyView,
)
    requires
        heedless(steps),
        0 <= at < steps.len(),
    ensures
        ({
            let now = resumed::<P>(TaskOf::Active { stage, steps, at }, reply);
            ||| now == entered(P::next(stage, reply))
            ||| now matches TaskOf::Active { stage: s, steps: p, at: a } && s == stage && p == steps
                && at < a < steps.len()
        }),
{
    assert(goes_on(steps[at]));
}

/// A stage whose steps cannot stop a task, and after which the task is over in
/// any case, takes at most as many replies as it has steps.
pub proof fn law_heedless_stage_ends<P: Plan>(
    stage: P::V,
    steps: Seq<StepView>,
    result: Result<ValueView, FaultView>,
    replies: spec_fn(nat) -> ReplyView,
) -> (n: nat)
    requires
        heedless(steps),
        steps.len() > 0,
        forall|reply: ReplyView|
            #[trigger] P::next(stage, reply) == (TurnView::<P::V>::End { result }),
    ensures
        n <= steps.len(),
        after_replies::<P>(started(stage, steps), replies, n) == (TaskView::<P::V>::Over { result }),
{
    lemma_heedless_from::<P>(stage, steps, result, replies, 0, 0)
}

/// From the point after `m` replies on, at step `at`, the stage runs out.
proof fn lemma_heedless_from<P: Plan>(
    stage: P::V,
    steps: Seq<StepView>,
    result: Result<ValueView, FaultView>,
    replies: spec_fn(nat) -> ReplyView,
    m: nat,
    at: int,
) -> (n: nat)
    requires
        heedless(steps),
        0 <= at < steps.len(),
        m <= at,
        after_replies::<P>(started(stage, steps), replies, m) == (TaskView::<P::V>::Active {
            stage,
            steps,
            at,
        }),
        forall|reply: ReplyView|
            #[trigger] P::next(stage, reply) == (TurnView::<P::V>::End { result }),
    ensures
        n <= steps.len(),
        after_replies::<P>(started(stage, steps), replies, n) == (TaskView::<P::V>::Over { result }),
    decreases steps.len() - at,
{
    let start = started::<P::V>(stage, steps);
    let then = after_replies::<P>(start, replies, m + 1);
    assert(then == resumed::<P>(TaskOf::Active { stage, steps, at }, replies(m)));
    lemma_heedless::<P>(stage, steps, at, replies(m));
    assert(P::next(stage, replies(m)) == (TurnView::<P::V>::End { result }));
    match then {
        TaskOf::Over { result: r } => m + 1,
        TaskOf::Active { stage: s, steps: p, at: a } => {
            lemma_heedless_from::<P>(stage, steps, result, replies, m + 1, a)
        },
    }
}

/// Where an operation must not fail, its error is the error of the task that asked
/// for it, with the same class and the same text, as long as the plan of that task
/// passes errors on.
pub proof fn law_error_is_passed_on<P: Plan>(
    stage: P::V,
    steps: Seq<StepView>,
    at: int,
    action: ActionView,
    f: FaultView,
)
    requires
        0 <= at < steps.len(),
        steps[at] == must(action),
        P::halted(stage, f, false) == (TurnView::<P::V>::End { result: Err(f) }),
    ensures
        resumed::<P>(TaskOf::Active { stage, steps, at }, told(Err(f))) == (TaskView::<P::V>::Over {
            result: Err(f),
        }),
{
}

/// A reply that tells of no failure.
pub open spec fn smooth(reply: ReplyView) -> bool {
    !(reply is Failed) && reply != (ReplyView::Exit { success: false })
}

/// Only a failure stops a task: while the host's replies tell of none, a stage is
/// passed, in at most as many replies as it has steps, and the turn after it is
/// taken with the last of these replies.
pub proof fn law_only_failures_stop<P: Plan>(
    stage: P::V,
    steps: Seq<StepView>,
    replies: spec_fn(nat) -> ReplyView,
) -> (n: nat)
    requires
        steps.len() > 0,
        forall|k: nat| smooth(#[trigger] replies(k)),
    ensures
        0 < n <= steps.len(),
        after_replies::<P>(started(stage, steps), replies, n) == entered(
            P::next(stage, replies((n - 1) as nat)),
        ),
{
    lemma_smooth_from::<P>(stage, steps, replies, 0, 0)
}

/// From the point after `m` replies on, at step `at`, the stage is passed.
proof fn lemma_smooth_from<P: Plan>(
    stage: P::V,
    steps: Seq<StepView>,
    replies: spec_fn(nat) -> ReplyView,
    m: nat,
    at: int,
) -> (n: nat)
    requires
        0 <= at < steps.len(),
        m <= at,
        forall|k: nat| smooth(#[trigger] replies(k)),
        after_replies::<P>(started(stage, steps), replies, m) == (TaskView::<P::V>::Active {
            stage,
            steps,
            at,
        }),
    ensures
        0 < n <= steps.len(),
        after_replies::<P>(started(stage, steps), replies, n) == entered(
            P::next(stage, replies((n - 1) as nat)),
        ),
    decreases steps.len() - at,
{
    let start = started::<P::V>(stage, steps);
    let reply = replies(m);
    assert(smooth(reply));
    let then = after_replies::<P>(start, replies, m + 1);
    assert(then == resumed::<P>(TaskOf::Active { stage, steps, at }, reply));
    match led_by(steps[at].rule, reply) {
        FlowOf::Advance { skip } => {
            if at + 1 + skip < steps.len() {
                lemma_smooth_from::<P>(stage, steps, replies, m + 1, at + 1 + skip)
            } else {
                m + 1
            }
        },
        FlowOf::Halt { fault, clean } => m + 1,
    }
}

/// How the steps of a task react when the host refuses, when a program does not succeed,
/// and when all goes well: an attempt goes on in any case; what must be done hands the
/// host's error on, with its class; an explained or vital step says in its own words what
/// failed and why; a program that is checked, guarded or needed must also succeed, and a
/// guarded one has all cleaned up; a step that leads others leaves them out if it fails;
/// and a condition leaves steps out unless the path is there, or is not there, as wanted.
pub proof fn law_steps_react(
    action: ActionView,
    kind: FaultKind,
    class: FaultKind,
    error: Seq<char>,
    text: Seq<char>,
    count: usize,
    want: bool,
    exists: bool,
)
    ensures
        ({
            let failed = ReplyView::Failed { kind, error };
            let refused = ReplyView::Exit { success: false };
            let on = |skip: usize| FlowView::Advance { skip };
            let stop = |k: FaultKind, m: Seq<char>, clean: bool| FlowView::Halt {
                fault: FaultOf { kind: k, message: m },
                clean,
            };
            &&& led_by(attempt(action).rule, failed) == on(0)
            &&& led_by(attempt(action).rule, refused) == on(0)
            &&& led_by(must(action).rule, failed) == stop(kind, error, false)
            &&& led_by(must(action).rule, refused) == on(0)
            &&& led_by(explained(action, class, text).rule, failed) == stop(
                class,
                text + error,
                false,
            )
            &&& led_by(explained(action, class, text).rule, refused) == on(0)
            &&& led_by(vital(action, text).rule, failed) == stop(
                FaultKind::Panic,
                text + error,
                false,
            )
            &&& led_by(checked(action, text).rule, failed) == stop(kind, error, false)
            &&& led_by(checked(action, text).rule, refused) == stop(FaultKind::Other, text, false)
            &&& led_by(guarded(action, text).rule, failed) == stop(kind, error, false)
            &&& led_by(guarded(action, text).rule, refused) == stop(FaultKind::Other, text, true)
            &&& led_by(needed(action, text).rule, failed) == stop(FaultKind::Other, text, false)
            &&& led_by(needed(action, text).rule, refused) == stop(FaultKind::Other, text, false)
            &&& led_by(leading(action, count).rule, failed) == on(count)
            &&& led_by(leading(action, count).rule, refused) == on(0)
            &&& led_by(only_if(error, want, count).rule, ReplyOf::Found { exists }) == on(
                if exists == want {
                    0
                } else {
                    count
                },
            )
            &&& only_if(error, want, count).action == (ActionView::Exists { path: error })
        }),
{
}

/// A task goes from step to step, leaving out as many as it is told to; behind the last one
/// the plan takes its turn with the last reply, and where a step stops the task the plan
/// takes its turn with the fault. A task that is over stays as it is.
pub proof fn law_tasks_go_step_by_step<P: Plan>(
    stage: P::V,
    steps: Seq<StepView>,
    at: int,
    reply: ReplyView,
    over: TaskView<P::V>,
)
    requires
        0 <= at < steps.len(),
        over is Over,
    ensures
        ({
            let now = TaskView::<P::V>::Active { stage, steps, at };
            let then = resumed::<P>(now, reply);
            &&& pending(now) == Some(steps[at].action)
            &&& led_by(steps[at].rule, reply) matches FlowOf::Advance { skip } ==> if at + skip + 1
                < steps.len() {
                then == (TaskView::<P::V>::Active { stage, steps, at: at + skip + 1 })
            } else {
                then == entered(P::next(stage, reply))
            }
            &&& led_by(steps[at].rule, reply) matches FlowOf::Halt { fault, clean } ==> then
                == entered(P::halted(stage, fault, clean))
        }),
        resumed::<P>(over, reply) == over,
        pending(over) is None,
{
}

/// A step is about the action that it was made of, whatever it does when that fails; and a
/// plan that fails or succeeds ends the task with just that.
pub proof fn law_steps_keep_their_actions<S>(
    action: ActionView,
    kind: FaultKind,
    text: Seq<char>,
    count: usize,
    value: ValueView,
    stage: S,
    steps: Seq<StepView>,
)
    ensures
        attempt(action).action == action,
        must(action).action == action,
        explained(action, kind, text).action == action,
        vital(action, text).action == action,
        checked(action, text).action == action,
        guarded(action, text).action == action,
        needed(action, text).action == action,
        leading(action, count).action == action,
        no_steps().len() == 0,
        entered(failing::<S>(kind, text)) == (TaskView::<S>::Over {
            result: Err(FaultOf { kind, message: text }),
        }),
        entered(giving::<S>(value)) == (TaskView::<S>::Over { result: Ok(value) }),
        started(stage, steps) == (TaskView::<S>::Active { stage, steps, at: 0 }),
        entered(TurnView::<S>::Go { stage, steps }) == started(stage, steps),
        stray::<S>() matches TurnOf::End { result } && result is Err,
{
}

} // verus!
