//! Opening a terminal window with a shell of a distribution.
use vstd::prelude::*;

use crate::action::{
    capture, command, no_words, query, run, words, Action, ActionOf, Fault, FaultView, Reply,
    ReplyOf, ReplyView, ValueOf, Variables, VariablesView, Words,
};
use crate::accounts::slice_text;
use crate::config::opt_text;
use crate::task::{
    attempt, giving, no_steps, started, stray, take_stray, turned, Plan, StepView, Steps, Task,
    TaskView, Turn, TurnOf, TurnView,
};
use crate::text::{begins, closes, law_parts_are_found};

verus! {

// ------------------------------------------------------------------- the emulators

/// A terminal emulator.
#[derive(Clone, Copy, Debug, PartialEq, Eq, Structural)]
pub enum Emulator {
    Konsole,
    Gnome,
    Xfce,
    Xterm,
}

/// The program of an emulator.
pub open spec fn emulator_name(e: Emulator) -> Seq<char> {
    match e {
        Emulator::Konsole => "konsole"@,
        Emulator::Gnome => "gnome-terminal"@,
        Emulator::Xfce => "xfce4-terminal"@,
        Emulator::Xterm => "xterm"@,
    }
}

fn program_of(e: Emulator) -> (r: String)
    ensures
        r@ == emulator_name(e),
{
    match e {
        Emulator::Konsole => "konsole".to_owned(),
        Emulator::Gnome => "gnome-terminal".to_owned(),
        Emulator::Xfce => "xfce4-terminal".to_owned(),
        Emulator::Xterm => "xterm".to_owned(),
    }
}

/// The emulator that is tried after another.
pub open spec fn next_choice(e: Emulator) -> Option<Emulator> {
    match e {
        Emulator::Konsole => Some(Emulator::Gnome),
        Emulator::Gnome => Some(Emulator::Xfce),
        Emulator::Xfce => Some(Emulator::Xterm),
        Emulator::Xterm => None,
    }
}

fn choose_next(e: Emulator) -> (r: Option<Emulator>)
    ensures
        r == next_choice(e),
{
    match e {
        Emulator::Konsole => Some(Emulator::Gnome),
        Emulator::Gnome => Some(Emulator::Xfce),
        Emulator::Xfce => Some(Emulator::Xterm),
        Emulator::Xterm => None,
    }
}

/// How many emulators there are to try, from one on.
pub open spec fn choices_left(e: Emulator) -> nat {
    match e {
        Emulator::Konsole => 4,
        Emulator::Gnome => 3,
        Emulator::Xfce => 2,
        Emulator::Xterm => 1,
    }
}

// -------------------------------------------------------------------- the command

/// A value, or what stands in for it.
pub open spec fn or_else(value: Option<Seq<char>>, other: Seq<char>) -> Seq<char> {
    match value {
        Some(v) => v,
        None => other,
    }
}

fn value_or(value: &Option<String>, other: &str) -> (r: String)
    ensures
        r@ == or_else(opt_text(*value), other@),
{
    match value {
        Some(v) => v.clone(),
        None => other.to_owned(),
    }
}

/// What the window is for: the distribution that was named, if one was, and whether
/// its superuser is meant.
#[derive(Debug, PartialEq, Eq)]
pub struct WindowOf<T> {
    pub distro: Option<T>,
    pub as_root: bool,
}

pub type Window = WindowOf<String>;

pub type WindowView = WindowOf<Seq<char>>;

impl View for Window {
    type V = WindowView;

    open spec fn view(&self) -> WindowView {
        WindowOf { distro: opt_text(self.distro), as_root: self.as_root }
    }
}

/// A text between single quotes of a shell, with a quote in it written so that the
/// shell reads it as it is.
pub open spec fn escaped(text: Seq<char>) -> Seq<char>
    decreases text.len(),
{
    if text.len() == 0 {
        Seq::empty()
    } else if text.last() == '\'' {
        escaped(text.drop_last()) + "'\\''"@
    } else {
        escaped(text.drop_last()).push(text.last())
    }
}

fn escape(text: &str) -> (r: String)
    ensures
        r@ == escaped(text@),
{
    let n: usize = text.unicode_len();
    let mut r: String = String::new();
    let mut i: usize = 0;
    assert(text@.take(0) =~= Seq::empty());
    while i < n
        invariant
            i <= n,
            n == text@.len(),
            r@ == escaped(text@.take(i as int)),
        decreases n - i,
    {
        let c: char = text.get_char(i);
        assert(text@.take(i + 1).drop_last() =~= text@.take(i as int));
        assert(text@.take(i + 1).last() == c);
        if c == '\'' {
            r = r.concat("'\\''");
        } else {
            r.push(c);
        }
        i = i + 1;
    }
    assert(text@.take(n as int) =~= text@);
    r
}

/// A text between double quotes, with what has a meaning there written so that it is
/// read as it is.
pub open spec fn shielded(text: Seq<char>) -> Seq<char>
    decreases text.len(),
{
    if text.len() == 0 {
        Seq::empty()
    } else if text.last() == '"' || text.last() == '\\' {
        shielded(text.drop_last()).push('\\').push(text.last())
    } else {
        shielded(text.drop_last()).push(text.last())
    }
}

fn shield(text: &str) -> (r: String)
    ensures
        r@ == shielded(text@),
{
    let n: usize = text.unicode_len();
    let mut r: String = String::new();
    let mut i: usize = 0;
    assert(text@.take(0) =~= Seq::empty());
    while i < n
        invariant
            i <= n,
            n == text@.len(),
            r@ == shielded(text@.take(i as int)),
        decreases n - i,
    {
        let c: char = text.get_char(i);
        assert(text@.take(i + 1).drop_last() =~= text@.take(i as int));
        assert(text@.take(i + 1).last() == c);
        if c == '"' || c == '\\' {
            r.push('\\');
        }
        r.push(c);
        i = i + 1;
    }
    assert(text@.take(n as int) =~= text@);
    r
}

/// The options that ask for the same distribution and the same user again.
pub open spec fn options(window: WindowView) -> Seq<char> {
    let named = match window.distro {
        Some(d) => " --distro '"@ + escaped(d) + "'"@,
        None => ""@,
    };
    if window.as_root {
        named + " --root"@
    } else {
        named
    }
}

fn write_options(window: &Window) -> (r: String)
    ensures
        r@ == options(window@),
{
    let named: String = match &window.distro {
        Some(d) => " --distro '".to_owned().concat(escape(d.as_str()).as_str()).concat("'"),
        None => "".to_owned(),
    };
    if window.as_root {
        named.concat(" --root")
    } else {
        named
    }
}

/// This program again, marked so that it opens no further window, with the screens
/// that it has now.
pub open spec fn again(env: VariablesView) -> Seq<char> {
    "sudo env LSL_ALREADY_SPAWNED=1 DISPLAY='"@ + or_else(env.display, ":0"@) + "' XAUTHORITY='"@
        + or_else(env.xauthority, ""@) + "' WAYLAND_DISPLAY='"@ + or_else(
        env.wayland_display,
        ""@,
    ) + "' "@ + or_else(env.executable, "./target/debug/lsl"@)
}

fn write_again(env: &Variables) -> (r: String)
    ensures
        r@ == again(env@),
{
    "sudo env LSL_ALREADY_SPAWNED=1 DISPLAY='".to_owned().concat(
        value_or(&env.display, ":0").as_str(),
    ).concat("' XAUTHORITY='").concat(value_or(&env.xauthority, "").as_str()).concat(
        "' WAYLAND_DISPLAY='",
    ).concat(value_or(&env.wayland_display, "").as_str()).concat("' ").concat(
        value_or(&env.executable, "./target/debug/lsl").as_str(),
    )
}

/// The command that the shell in the window runs: this program again, for the same
/// distribution and as the same user.
pub open spec fn inner_command(env: VariablesView, window: WindowView) -> Seq<char> {
    again(env) + options(window)
}

/// The arguments that make an emulator run that command, behind others. One of them
/// takes it as a single word between double quotes.
pub open spec fn emulator_words(
    e: Emulator,
    env: VariablesView,
    window: WindowView,
    front: Seq<Seq<char>>,
) -> Seq<Seq<char>> {
    match e {
        Emulator::Gnome => front.push("--"@).push("sh"@).push("-c"@).push(
            inner_command(env, window),
        ),
        Emulator::Xfce => front.push("-e"@).push(
            "sh -c \""@ + again(env) + shielded(options(window)) + "\""@,
        ),
        _ => front.push("-e"@).push("sh"@).push("-c"@).push(inner_command(env, window)),
    }
}

fn emulator_args(e: Emulator, env: &Variables, window: &Window, front: Words) -> (r: Words)
    ensures
        r@ == emulator_words(e, env@, window@, front@),
{
    let start: String = write_again(env);
    let more: String = write_options(window);
    match e {
        Emulator::Gnome => front.with("--").with("sh").with("-c").with(
            start.concat(more.as_str()).as_str(),
        ),
        Emulator::Xfce => front.with("-e").with(
            "sh -c \"".to_owned().concat(start.as_str()).concat(
                shield(more.as_str()).as_str(),
            ).concat("\"").as_str(),
        ),
        _ => front.with("-e").with("sh").with("-c").with(start.concat(more.as_str()).as_str()),
    }
}

/// Opening the window: by the user who called for superuser rights, who owns the
/// screen, if there is one.
pub open spec fn window_command(
    e: Emulator,
    env: VariablesView,
    window: WindowView,
) -> crate::action::ActionView {
    match env.sudo_user {
        Some(user) => command(
            "sudo"@,
            emulator_words(
                e,
                env,
                window,
                no_words().push("-u"@).push(user).push("env"@).push(
                    "DISPLAY="@ + or_else(env.display, ":0"@),
                ).push("XAUTHORITY="@ + or_else(env.xauthority, ""@)).push(emulator_name(e)),
            ),
        ),
        None => command(emulator_name(e), emulator_words(e, env, window, no_words())),
    }
}

fn open_window(e: Emulator, env: &Variables, window: &Window) -> (r: Action)
    ensures
        r@ == window_command(e, env@, window@),
{
    let program: String = program_of(e);
    match &env.sudo_user {
        Some(user) => {
            let display: String = "DISPLAY=".to_owned().concat(
                value_or(&env.display, ":0").as_str(),
            );
            let key: String = "XAUTHORITY=".to_owned().concat(
                value_or(&env.xauthority, "").as_str(),
            );
            let front: Words = words().with("-u").with(user.as_str()).with("env").with(
                display.as_str(),
            ).with(key.as_str()).with(program.as_str());
            run("sudo", emulator_args(e, env, window, front))
        },
        None => run(program.as_str(), emulator_args(e, env, window, words())),
    }
}

// ------------------------------------------------------------------------- plan

/// A stage of opening a window.
pub enum TerminalStageOf<T, E> {
    /// The environment is being read.
    Read { window: WindowOf<T> },
    /// An emulator is being looked for.
    Search { window: WindowOf<T>, env: E, emulator: Emulator },
    /// The window is being opened.
    Open,
}

pub type TerminalStage = TerminalStageOf<String, Variables>;

pub type TerminalStageView = TerminalStageOf<Seq<char>, VariablesView>;

impl View for TerminalStage {
    type V = TerminalStageView;

    open spec fn view(&self) -> TerminalStageView {
        match *self {
            TerminalStageOf::Read { window } => TerminalStageOf::Read { window: window@ },
            TerminalStageOf::Search { window, env, emulator } => TerminalStageOf::Search {
                window: window@,
                env: env@,
                emulator,
            },
            TerminalStageOf::Open => TerminalStageOf::Open,
        }
    }
}

/// Looking for an emulator, after some steps.
pub open spec fn search_turn(
    window: WindowView,
    env: VariablesView,
    emulator: Emulator,
    steps: Seq<StepView>,
) -> TurnView<TerminalStageView> {
    TurnOf::Go {
        stage: TerminalStageOf::Search { window, env, emulator },
        steps: steps.push(attempt(query("which"@, no_words().push(emulator_name(emulator))))),
    }
}

fn take_search(window: Window, env: Variables, emulator: Emulator, steps: Steps) -> (r: Turn<
    TerminalStage,
>)
    ensures
        turned(r) == search_turn(window@, env@, emulator, steps@),
{
    let program: String = program_of(emulator);
    TurnOf::Go {
        stage: TerminalStageOf::Search { window, env, emulator },
        steps: steps.attempt(capture("which", words().with(program.as_str()))),
    }
}

impl Plan for TerminalStage {
    open spec fn rank(stage: TerminalStageView) -> nat {
        match stage {
            TerminalStageOf::Read { window } => 5,
            TerminalStageOf::Search { window, env, emulator } => choices_left(emulator),
            TerminalStageOf::Open => 0,
        }
    }

    open spec fn next(stage: TerminalStageView, reply: ReplyView) -> TurnView<TerminalStageView> {
        match stage {
            TerminalStageOf::Read { window } => match reply {
                ReplyOf::Variables { env } => search_turn(
                    window,
                    env,
                    Emulator::Konsole,
                    no_steps().push(attempt(command("xhost"@, no_words().push("+local:"@)))),
                ),
                _ => stray(),
            },
            TerminalStageOf::Search { window, env, emulator } => if reply matches ReplyOf::Output {
                success,
                bytes,
            } && success {
                TurnOf::Go {
                    stage: TerminalStageOf::Open,
                    steps: no_steps().push(attempt(window_command(emulator, env, window))),
                }
            } else {
                match next_choice(emulator) {
                    Some(e) => search_turn(window, env, e, no_steps()),
                    None => giving(ValueOf::Flag { yes: false }),
                }
            },
            TerminalStageOf::Open => giving(
                ValueOf::Flag { yes: reply == (ReplyView::Exit { success: true }) },
            ),
        }
    }

    open spec fn halted(stage: TerminalStageView, fault: FaultView, clean: bool) -> TurnView<
        TerminalStageView,
    > {
        TurnOf::End { result: Err(fault) }
    }

    proof fn next_descends(stage: TerminalStageView, reply: ReplyView) {
    }

    proof fn halted_descends(stage: TerminalStageView, fault: FaultView, clean: bool) {
    }

    fn advance(self, reply: Reply) -> (r: Turn<Self>) {
        match self {
            TerminalStageOf::Read { window } => match reply {
                ReplyOf::Variables { env } => take_search(
                    window,
                    env,
                    Emulator::Konsole,
                    Steps::new().attempt(run("xhost", words().with("+local:"))),
                ),
                _ => take_stray(),
            },
            TerminalStageOf::Search { window, env, emulator } => {
                let found: bool = match reply {
                    ReplyOf::Output { success, bytes } => success,
                    _ => false,
                };
                if found {
                    TurnOf::Go {
                        stage: TerminalStageOf::Open,
                        steps: Steps::new().attempt(open_window(emulator, &env, &window)),
                    }
                } else {
                    match choose_next(emulator) {
                        Some(e) => take_search(window, env, e, Steps::new()),
                        None => TurnOf::End { result: Ok(ValueOf::Flag { yes: false }) },
                    }
                }
            },
            TerminalStageOf::Open => {
                let yes: bool = match reply {
                    ReplyOf::Exit { success } => success,
                    _ => false,
                };
                TurnOf::End { result: Ok(ValueOf::Flag { yes }) }
            },
        }
    }

    fn halt(self, fault: Fault, clean: bool) -> (r: Turn<Self>) {
        TurnOf::End { result: Err(fault) }
    }
}

/// The task that opens a window.
pub open spec fn terminal_task(window: WindowView) -> TaskView<TerminalStageView> {
    started(
        TerminalStageOf::Read { window },
        no_steps().push(attempt(ActionOf::AskVariables)),
    )
}

/// Starts to open a window. The task tells whether one was opened, and what ran in
/// it succeeded.
pub fn spawn_separate_terminal(distro: Option<&str>, root: bool) -> (r: Task<TerminalStage>)
    ensures
        r@ == terminal_task(WindowOf { distro: slice_text(distro), as_root: root }),
{
    let named: Option<String> = match distro {
        Some(d) => Some(d.to_owned()),
        None => None,
    };
    let stage: TerminalStage = TerminalStageOf::Read {
        window: WindowOf { distro: named, as_root: root },
    };
    Task::start(stage, Steps::new().attempt(ActionOf::AskVariables))
}

// ------------------------------------------------------------------------- laws

/// The first emulator that is found is used, and no other is asked for after it;
/// when the last is not found either, no window is opened.
pub proof fn law_first_emulator_is_used(
    window: WindowView,
    env: VariablesView,
    e: Emulator,
    bytes: Seq<u8>,
)
    ensures
        TerminalStage::next(
            TerminalStageOf::Search { window, env, emulator: e },
            ReplyOf::Output { success: true, bytes },
        ) == (TurnView::<TerminalStageView>::Go {
            stage: TerminalStageOf::Open,
            steps: no_steps().push(attempt(window_command(e, env, window))),
        }),
        TerminalStage::next(
            TerminalStageOf::Search { window, env, emulator: Emulator::Xterm },
            ReplyOf::Output { success: false, bytes },
        ) == giving::<TerminalStageView>(ValueOf::Flag { yes: false }),
{
}

/// What was asked for is kept until the window is opened: the program that runs in
/// the window is given the distribution that was named and, if the superuser was
/// meant, `--root`, and nothing else.
pub proof fn law_window_keeps_the_request(
    window: WindowView,
    env: VariablesView,
    e: Emulator,
    reply: ReplyView,
)
    ensures
        TerminalStage::next(TerminalStageOf::Read { window }, reply) matches TurnOf::Go {
            stage: s,
            steps,
        } ==> s matches TerminalStageOf::Search { window: w, env: v, emulator } && w == window,
        TerminalStage::next(
            TerminalStageOf::Search { window, env, emulator: e },
            reply,
        ) matches TurnOf::Go { stage: s, steps } ==> match s {
            TerminalStageOf::Search { window: w, env: v, emulator } => w == window && v == env,
            TerminalStageOf::Open => steps == no_steps().push(
                attempt(window_command(e, env, window)),
            ),
            TerminalStageOf::Read { window: w } => false,
        },
        inner_command(env, window) == again(env) + options(window),
        options(WindowOf { distro: None, as_root: false }) == Seq::<char>::empty(),
{
    reveal_strlit("");
}

/// What a text between double quotes stands for: a backslash stands for the
/// character behind it.
pub open spec fn unshielded(text: Seq<char>) -> Seq<char>
    decreases text.len(),
{
    if text.len() == 0 {
        Seq::empty()
    } else if text[0] == '\\' && text.len() > 1 {
        Seq::empty().push(text[1]) + unshielded(text.skip(2))
    } else {
        Seq::empty().push(text[0]) + unshielded(text.skip(1))
    }
}

/// The first character is written first.
proof fn lemma_shielded_front(c: char, rest: Seq<char>)
    ensures
        shielded(Seq::empty().push(c) + rest) == shielded(Seq::empty().push(c)) + shielded(rest),
    decreases rest.len(),
{
    let whole = Seq::empty().push(c) + rest;
    if rest.len() == 0 {
        assert(whole =~= Seq::empty().push(c));
        assert(shielded(Seq::empty().push(c)) + shielded(rest) =~= shielded(
            Seq::empty().push(c),
        ));
    } else {
        lemma_shielded_front(c, rest.drop_last());
        assert(whole.drop_last() =~= Seq::empty().push(c) + rest.drop_last());
        assert(whole.last() == rest.last());
        assert(shielded(whole) =~= shielded(Seq::empty().push(c)) + shielded(rest));
    }
}

/// What is put between double quotes stands there for itself.
pub proof fn law_shielded_is_read_back(text: Seq<char>)
    ensures
        unshielded(shielded(text)) == text,
    decreases text.len(),
{
    if text.len() > 0 {
        let c = text[0];
        let rest = text.skip(1);
        assert(text =~= Seq::empty().push(c) + rest);
        lemma_shielded_front(c, rest);
        law_shielded_is_read_back(rest);
        let one = Seq::<char>::empty().push(c);
        reveal_with_fuel(shielded, 2);
        assert(one.drop_last() =~= Seq::empty());
        let s = shielded(text);
        if c == '"' || c == '\\' {
            assert(shielded(one) =~= Seq::empty().push('\\').push(c));
            assert(s.skip(2) =~= shielded(rest));
        } else {
            assert(shielded(one) =~= one);
            assert(s.skip(1) =~= shielded(rest));
        }
    }
}

/// What a text between single quotes stands for: a quote is written by ending the quoted
/// text, writing the quote behind a backslash, and beginning a quoted text again.
pub open spec fn unescaped(text: Seq<char>) -> Seq<char>
    decreases text.len(),
{
    if text.len() == 0 {
        Seq::empty()
    } else if text.len() >= 4 && text[0] == '\'' {
        Seq::empty().push('\'') + unescaped(text.skip(4))
    } else {
        Seq::empty().push(text[0]) + unescaped(text.skip(1))
    }
}

/// The first character is written first.
proof fn lemma_escaped_front(c: char, rest: Seq<char>)
    ensures
        escaped(Seq::empty().push(c) + rest) == escaped(Seq::empty().push(c)) + escaped(rest),
    decreases rest.len(),
{
    let whole = Seq::empty().push(c) + rest;
    if rest.len() == 0 {
        assert(whole =~= Seq::empty().push(c));
        assert(escaped(Seq::empty().push(c)) + escaped(rest) =~= escaped(Seq::empty().push(c)));
    } else {
        lemma_escaped_front(c, rest.drop_last());
        assert(whole.drop_last() =~= Seq::empty().push(c) + rest.drop_last());
        assert(whole.last() == rest.last());
        assert(escaped(whole) =~= escaped(Seq::empty().push(c)) + escaped(rest));
    }
}

/// What is written for a single character.
proof fn lemma_escaped_one(c: char)
    ensures
        c == '\'' ==> escaped(Seq::empty().push(c)) == Seq::empty().push('\'').push('\\').push(
            '\'',
        ).push('\''),
        c != '\'' ==> escaped(Seq::empty().push(c)) == Seq::empty().push(c),
{
    reveal_strlit("'\\''");
    reveal_with_fuel(escaped, 2);
    let one = Seq::<char>::empty().push(c);
    assert(one.drop_last() =~= Seq::empty());
    assert("'\\''"@ =~= Seq::empty().push('\'').push('\\').push('\'').push('\''));
    assert(Seq::<char>::empty() + "'\\''"@ =~= "'\\''"@);
}

/// What is put between single quotes stands there for itself.
pub proof fn law_escaped_is_read_back(text: Seq<char>)
    ensures
        unescaped(escaped(text)) == text,
    decreases text.len(),
{
    if text.len() > 0 {
        let c = text[0];
        let rest = text.skip(1);
        assert(text =~= Seq::empty().push(c) + rest);
        lemma_escaped_front(c, rest);
        lemma_escaped_one(c);
        law_escaped_is_read_back(rest);
        let s = escaped(text);
        if c == '\'' {
            assert(s.skip(4) =~= escaped(rest));
        } else {
            assert(s.skip(1) =~= escaped(rest));
        }
    }
}

/// Every quote in what is put between single quotes is written as the shell takes it: no
/// other ends the quoted text.
pub proof fn law_no_quote_ends_the_text(text: Seq<char>, i: int)
    requires
        0 <= i < escaped(text).len(),
        escaped(text)[i] == '\'',
    ensures
        quote_in(escaped(text), i) || quote_in(escaped(text), i - 2) || quote_in(
            escaped(text),
            i - 3,
        ),
    decreases text.len(),
{
    if text.len() > 0 {
        let c = text[0];
        let rest = text.skip(1);
        assert(text =~= Seq::empty().push(c) + rest);
        lemma_escaped_front(c, rest);
        lemma_escaped_one(c);
        let s = escaped(text);
        let tail = escaped(rest);
        let k: int = if c == '\'' {
            4
        } else {
            1
        };
        assert(s.skip(k) =~= tail);
        if i >= k {
            assert(tail[i - k] == s[i]);
            law_no_quote_ends_the_text(rest, i - k);
            lemma_quote_behind(s, tail, k, i - k);
            lemma_quote_behind(s, tail, k, i - k - 2);
            lemma_quote_behind(s, tail, k, i - k - 3);
        } else {
            assert(quote_in(s, 0));
        }
    }
}

/// A quote is written at place `i` as the shell takes it.
pub open spec fn quote_in(s: Seq<char>, i: int) -> bool {
    0 <= i && i + 4 <= s.len() && s[i] == '\'' && s[i + 1] == '\\' && s[i + 2] == '\'' && s[i + 3]
        == '\''
}

proof fn lemma_quote_behind(s: Seq<char>, tail: Seq<char>, k: int, i: int)
    requires
        0 <= k <= s.len(),
        s.skip(k) == tail,
    ensures
        quote_in(tail, i) ==> quote_in(s, i + k),
{
    if quote_in(tail, i) {
        assert(tail[i] == s[i + k] && tail[i + 1] == s[i + k + 1]);
        assert(tail[i + 2] == s[i + k + 2] && tail[i + 3] == s[i + k + 3]);
    }
}

/// The options of the program in the window name the distribution that was named, whatever
/// its name, and ask for the superuser exactly if that was asked for.
pub proof fn law_options_repeat_the_request(distro: Seq<char>)
    ensures
        options(WindowOf { distro: None, as_root: false }) == ""@,
        options(WindowOf { distro: None, as_root: true }) == ""@ + " --root"@,
        options(WindowOf { distro: Some(distro), as_root: false }) == " --distro '"@ + escaped(
            distro,
        ) + "'"@,
        options(WindowOf { distro: Some(distro), as_root: true }) == " --distro '"@ + escaped(
            distro,
        ) + "'"@ + " --root"@,
{
}

/// The program in the window is this program, marked so that it opens no further window,
/// with the screens that the host has; where the host names none, with the usual ones.
pub proof fn law_window_has_the_hosts_screens(env: VariablesView)
    ensures
        ({
            let display = match env.display {
                Some(v) => v,
                None => ":0"@,
            };
            let key = match env.xauthority {
                Some(v) => v,
                None => ""@,
            };
            let wayland = match env.wayland_display {
                Some(v) => v,
                None => ""@,
            };
            let program = match env.executable {
                Some(v) => v,
                None => "./target/debug/lsl"@,
            };
            &&& begins(
                again(env),
                "sudo env LSL_ALREADY_SPAWNED=1 DISPLAY='"@ + display + "' XAUTHORITY='"@ + key
                    + "' WAYLAND_DISPLAY='"@ + wayland + "' "@,
            )
            &&& closes(again(env), program)
            &&& again(env).len() == display.len() + key.len() + wayland.len() + program.len() + 75
        }),
{
    reveal_strlit("sudo env LSL_ALREADY_SPAWNED=1 DISPLAY='");
    reveal_strlit("' XAUTHORITY='");
    reveal_strlit("' WAYLAND_DISPLAY='");
    reveal_strlit("' ");
    let head = "sudo env LSL_ALREADY_SPAWNED=1 DISPLAY='"@ + or_else(env.display, ":0"@)
        + "' XAUTHORITY='"@ + or_else(env.xauthority, ""@) + "' WAYLAND_DISPLAY='"@ + or_else(
        env.wayland_display,
        ""@,
    ) + "' "@;
    let tail = or_else(env.executable, "./target/debug/lsl"@);
    law_parts_are_found(Seq::empty(), head, tail);
    law_parts_are_found(head, tail, Seq::empty());
}

/// The command that opens a window runs the emulator, by the user who called for the
/// superuser's rights, if there is one, with that user's screen; and the last thing that
/// the emulator is given is the program to run in the window: as a script for a shell, or,
/// by the one that takes a single word, as a shell with the script between double quotes.
pub proof fn law_window_runs_the_program(e: Emulator, env: VariablesView, window: WindowView)
    ensures
        window_command(e, env, window) matches ActionOf::Run { program, args } && {
            let name = match e {
                Emulator::Konsole => "konsole"@,
                Emulator::Gnome => "gnome-terminal"@,
                Emulator::Xfce => "xfce4-terminal"@,
                Emulator::Xterm => "xterm"@,
            };
            let k: int = if env.sudo_user is Some {
                6
            } else {
                0
            };
            &&& env.sudo_user is None ==> program == name
            &&& env.sudo_user matches Some(user) ==> program == "sudo"@ && args.len() >= 6
                && args[0] == "-u"@ && args[1] == user && args[2] == "env"@ && args[3]
                == "DISPLAY="@ + (match env.display {
                Some(v) => v,
                None => ":0"@,
            }) && args[4] == "XAUTHORITY="@ + (match env.xauthority {
                Some(v) => v,
                None => ""@,
            }) && args[5] == name
            &&& e == Emulator::Xfce ==> args.len() == k + 2 && args[k] == "-e"@ && args[k + 1]
                == "sh -c \""@ + again(env) + shielded(options(window)) + "\""@
            &&& e != Emulator::Xfce ==> args.len() == k + 4 && args[k] == (if e == Emulator::Gnome {
                "--"@
            } else {
                "-e"@
            }) && args[k + 1] == "sh"@ && args[k + 2] == "-c"@ && args[k + 3] == again(env)
                + options(window)
        },
{
}

/// The emulators are looked for in a fixed order, one after the other, until one is found;
/// a window counts as opened exactly if the emulator that was found ends well.
pub proof fn law_emulators_are_tried_in_order(
    window: WindowView,
    env: VariablesView,
    reply: ReplyView,
    missing: ReplyView,
)
    requires
        !(missing matches ReplyOf::Output { success, bytes } && success),
    ensures
        terminal_task(window) == started(
            TerminalStageView::Read { window },
            no_steps().push(attempt(ActionOf::AskVariables)),
        ),
        looks_for(
            TerminalStage::next(TerminalStageOf::Read { window }, ReplyOf::Variables { env }),
            "konsole"@,
        ),
        looks_for(
            TerminalStage::next(
                TerminalStageOf::Search { window, env, emulator: Emulator::Konsole },
                missing,
            ),
            "gnome-terminal"@,
        ),
        looks_for(
            TerminalStage::next(
                TerminalStageOf::Search { window, env, emulator: Emulator::Gnome },
                missing,
            ),
            "xfce4-terminal"@,
        ),
        looks_for(
            TerminalStage::next(
                TerminalStageOf::Search { window, env, emulator: Emulator::Xfce },
                missing,
            ),
            "xterm"@,
        ),
        TerminalStage::next(
            TerminalStageOf::Search { window, env, emulator: Emulator::Xterm },
            missing,
        ) == giving::<TerminalStageView>(ValueOf::Flag { yes: false }),
        TerminalStage::next(TerminalStageOf::Open, reply) == giving::<TerminalStageView>(
            ValueOf::Flag { yes: reply == (ReplyView::Exit { success: true }) },
        ),
{
}

/// A turn whose last step asks whether the host has a program.
pub open spec fn looks_for(turn: TurnView<TerminalStageView>, program: Seq<char>) -> bool {
    turn matches TurnOf::Go { stage, steps } && steps.len() > 0 && steps.last().action == query(
        "which"@,
        no_words().push(program),
    )
}

} // verus!
