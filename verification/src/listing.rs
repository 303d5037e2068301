//! Listing the distributions.
use vstd::prelude::*;

use crate::action::{
    line, say, Action, ActionOf, ActionView, Fault, FaultView, Reply, ReplyOf, ReplyView, Style,
    ValueOf,
};
use crate::config::{ConfigView, DistroConfig, DistroView, GlobalConfig};
use crate::runtime::is_distro_running;
use crate::task::{
    after_replies, attempt, entered, giving, heedless, no_steps, pending, resumed, stray,
    take_stray, turned, Plan, StepView, Steps, Task, TaskOf, TaskView, Turn, TurnOf, TurnView,
};
use crate::text::{law_padded, pad, padded, same};

verus! {

// ------------------------------------------------------------------------- rows

/// The name of a distribution as it is listed.
pub open spec fn listed_name(name: Seq<char>, config: ConfigView) -> Seq<char> {
    if config.default_distro == Some(name) {
        name + " (default)"@
    } else {
        name
    }
}

/// The row of a distribution: its name, whether it runs, and its addresses, each in
/// a column of its own.
pub open spec fn row(
    name: Seq<char>,
    distro: DistroView,
    config: ConfigView,
    running: bool,
) -> ActionView {
    ActionOf::Say {
        lead: padded(listed_name(name, config), 20),
        style: if running {
            Style::Green
        } else {
            Style::Red
        },
        text: if running {
            padded("Running"@, 12)
        } else {
            padded("Stopped"@, 12)
        },
        tail: padded(distro.ip_address, 15) + padded(distro.mac_address, 18),
    }
}

fn make_row(name: &str, distro: &DistroConfig, config: &GlobalConfig, running: bool) -> (r: Action)
    ensures
        r@ == row(name@, distro@, config@, running),
{
    let is_default: bool = match &config.default_distro {
        Some(d) => same(d.as_str(), name),
        None => false,
    };
    let listed: String = if is_default {
        name.to_owned().concat(" (default)")
    } else {
        name.to_owned()
    };
    ActionOf::Say {
        lead: pad(listed.as_str(), 20),
        style: if running {
            Style::Green
        } else {
            Style::Red
        },
        text: if running {
            pad("Running", 12)
        } else {
            pad("Stopped", 12)
        },
        tail: pad(distro.ip_address.as_str(), 15).concat(
            pad(distro.mac_address.as_str(), 18).as_str(),
        ),
    }
}

/// The headings of the columns.
pub open spec fn heading() -> Seq<char> {
    padded("DISTRO NAME"@, 20) + " "@ + padded("STATUS"@, 12) + " "@ + padded("IP ADDRESS"@, 15)
        + " "@ + padded("MAC ADDRESS"@, 18)
}

fn make_heading() -> (r: String)
    ensures
        r@ == heading(),
{
    pad("DISTRO NAME", 20).concat(" ").concat(pad("STATUS", 12).as_str()).concat(" ").concat(
        pad("IP ADDRESS", 15).as_str(),
    ).concat(" ").concat(pad("MAC ADDRESS", 18).as_str())
}

/// The steps that begin a list.
pub open spec fn heading_steps() -> Seq<StepView> {
    no_steps().push(attempt(line(Style::Plain, Seq::empty()))).push(
        attempt(line(Style::Plain, heading())),
    ).push(
        attempt(
            line(
                Style::Plain,
                "-----------------------------------------------------------------"@,
            ),
        ),
    )
}

fn begin_list() -> (r: Steps)
    ensures
        r@ == heading_steps(),
{
    Steps::new().say(Style::Plain, String::new()).say(Style::Plain, make_heading()).say(
        Style::Plain,
        "-----------------------------------------------------------------".to_owned(),
    )
}

// ------------------------------------------------------------------------- plan

/// A stage of listing.
pub enum ListStageOf<C, N> {
    /// There is nothing to list.
    Empty,
    /// The init process of a distribution is being looked for.
    Row { config: C, at: N },
    /// The list is through.
    Finish,
}

pub type ListStage = ListStageOf<GlobalConfig, usize>;

pub type ListStageView = ListStageOf<ConfigView, int>;

impl View for ListStage {
    type V = ListStageView;

    open spec fn view(&self) -> ListStageView {
        match *self {
            ListStageOf::Empty => ListStageOf::Empty,
            ListStageOf::Row { config, at } => ListStageOf::Row {
                config: config@,
                at: at as int,
            },
            ListStageOf::Finish => ListStageOf::Finish,
        }
    }
}

/// The turn to the distribution at a place, after some steps, or to the end.
pub open spec fn row_turn(config: ConfigView, at: int, steps: Seq<StepView>) -> TurnView<
    ListStageView,
> {
    if 0 <= at < config.distros.len() {
        TurnOf::Go {
            stage: ListStageOf::Row { config, at },
            steps: steps.push(attempt(ActionOf::FindPid { name: config.distros[at].0 })),
        }
    } else {
        TurnOf::Go {
            stage: ListStageOf::Finish,
            steps: steps.push(attempt(line(Style::Plain, Seq::empty()))),
        }
    }
}

fn take_row(config: GlobalConfig, at: usize, steps: Steps) -> (r: Turn<ListStage>)
    ensures
        turned(r) == row_turn(config@, at as int, steps@),
{
    if at < config.distros.len() {
        let name: String = config.distros.name_at(at).to_owned();
        TurnOf::Go {
            stage: ListStageOf::Row { config, at },
            steps: steps.attempt(ActionOf::FindPid { name }),
        }
    } else {
        TurnOf::Go {
            stage: ListStageOf::Finish,
            steps: steps.say(Style::Plain, String::new()),
        }
    }
}

impl Plan for ListStage {
    open spec fn rank(stage: ListStageView) -> nat {
        match stage {
            ListStageOf::Empty => 0,
            ListStageOf::Row { config, at } => if 0 <= at < config.distros.len() {
                (config.distros.len() - at) as nat
            } else {
                0
            },
            ListStageOf::Finish => 0,
        }
    }

    open spec fn next(stage: ListStageView, reply: ReplyView) -> TurnView<ListStageView> {
        match stage {
            ListStageOf::Empty => giving(ValueOf::Nothing),
            ListStageOf::Row { config, at } => if 0 <= at < config.distros.len() {
                let (name, distro) = config.distros[at];
                let running = reply matches ReplyOf::Located { found } && found is Some;
                row_turn(
                    config,
                    at + 1,
                    no_steps().push(attempt(row(name, distro, config, running))),
                )
            } else {
                stray()
            },
            ListStageOf::Finish => giving(ValueOf::Nothing),
        }
    }

    open spec fn halted(stage: ListStageView, fault: FaultView, clean: bool) -> TurnView<
        ListStageView,
    > {
        TurnOf::End { result: Err(fault) }
    }

    proof fn next_descends(stage: ListStageView, reply: ReplyView) {
    }

    proof fn halted_descends(stage: ListStageView, fault: FaultView, clean: bool) {
    }

    fn advance(self, reply: Reply) -> (r: Turn<Self>) {
        match self {
            ListStageOf::Empty => TurnOf::End { result: Ok(ValueOf::Nothing) },
            ListStageOf::Row { config, at } => if at < config.distros.len() {
                let running: bool = match reply {
                    ReplyOf::Located { found } => is_distro_running(found),
                    _ => false,
                };
                let made: Action = make_row(
                    config.distros.name_at(at),
                    config.distros.distro_at(at),
                    &config,
                    running,
                );
                take_row(config, at + 1, Steps::new().attempt(made))
            } else {
                take_stray()
            },
            ListStageOf::Finish => TurnOf::End { result: Ok(ValueOf::Nothing) },
        }
    }

    fn halt(self, fault: Fault, clean: bool) -> (r: Turn<Self>) {
        TurnOf::End { result: Err(fault) }
    }
}

/// How a list starts.
pub open spec fn list_start(config: ConfigView) -> TurnView<ListStageView> {
    if config.distros.len() == 0 {
        TurnOf::Go {
            stage: ListStageOf::Empty,
            steps: no_steps().push(
                attempt(
                    line(
                        Style::Plain,
                        "No distros registered. Use 'lsl install kali' to install Kali Linux."@,
                    ),
                ),
            ),
        }
    } else {
        row_turn(config, 0, heading_steps())
    }
}

/// The task that lists the distributions.
pub open spec fn list_task(config: ConfigView) -> TaskView<ListStageView> {
    entered(list_start(config))
}

/// Starts to list the distributions of a configuration.
pub fn list_distros(config: GlobalConfig) -> (r: Task<ListStage>)
    ensures
        r@ == list_task(config@),
{
    if config.distros.is_empty() {
        let stage: ListStage = ListStageOf::Empty;
        Task::start(
            stage,
            Steps::new().say(
                Style::Plain,
                "No distros registered. Use 'lsl install kali' to install Kali Linux.".to_owned(),
            ),
        )
    } else {
        Task::enter(take_row(config, 0, begin_list()))
    }
}

// ------------------------------------------------------------------------- laws

/// A list has a row for each distribution, in order, and then ends; nothing that
/// the host replies can stop it.
pub proof fn law_each_distro_is_listed(config: ConfigView, at: int, reply: ReplyView)
    requires
        0 <= at < config.distros.len(),
    ensures
        ({
            let (name, distro) = config.distros[at];
            let running = reply matches ReplyOf::Located { found } && found is Some;
            &&& ListStage::next(ListStageOf::Row { config, at }, reply) matches TurnOf::Go {
                stage,
                steps,
            } && steps[0] == attempt(row(name, distro, config, running)) && heedless(steps) && (
            if at + 1 < config.distros.len() {
                stage == (ListStageView::Row { config, at: at + 1 })
            } else {
                stage == ListStageView::Finish
            })
        }),
{
}

/// The columns of a row stand below one another as long as what they hold fits.
pub proof fn law_columns_line_up(
    name: Seq<char>,
    distro: DistroView,
    config: ConfigView,
    running: bool,
)
    requires
        listed_name(name, config).len() <= 20,
        distro.ip_address.len() <= 15,
        distro.mac_address.len() <= 18,
    ensures
        row(name, distro, config, running) matches ActionOf::Say { lead, style, text, tail }
            && lead.len() == 20 && text.len() == 12 && tail.len() == 33,
{
    reveal_strlit("Running");
    reveal_strlit("Stopped");
    law_padded(listed_name(name, config), 20);
    law_padded("Running"@, 12);
    law_padded("Stopped"@, 12);
    law_padded(distro.ip_address, 15);
    law_padded(distro.mac_address, 18);
}

/// A cell of a column: the text, followed by blanks up to the width of the column.
pub open spec fn fills(cell: Seq<char>, text: Seq<char>, width: nat) -> bool {
    &&& cell.len() == if text.len() >= width {
        text.len()
    } else {
        width
    }
    &&& forall|i: int| 0 <= i < text.len() ==> #[trigger] cell[i] == text[i]
    &&& forall|i: int| text.len() <= i < cell.len() ==> #[trigger] cell[i] == ' '
}

/// A line that shows a distribution: the first column has its name, marked if it is the
/// one that is used by default, the second its status, and the others its addresses.
pub open spec fn shows(
    action: ActionView,
    entry: (Seq<char>, DistroView),
    preferred: Option<Seq<char>>,
    status: Seq<char>,
    style: Style,
) -> bool {
    action matches ActionOf::Say { lead, style: s, text, tail } && {
        &&& preferred == Some(entry.0) ==> fills(lead, entry.0 + " (default)"@, 20)
        &&& preferred != Some(entry.0) ==> fills(lead, entry.0, 20)
        &&& fills(text, status, 12)
        &&& s == style
        &&& exists|ip: Seq<char>, mac: Seq<char>|
            tail == #[trigger] (ip + mac) && fills(ip, entry.1.ip_address, 15) && fills(
                mac,
                entry.1.mac_address,
                18,
            )
    }
}

/// The row of a distribution says `Running`, in green, if it runs, and `Stopped`, in red,
/// if it does not, whatever else the configuration says.
pub proof fn law_row_tells_the_status(
    name: Seq<char>,
    distro: DistroView,
    config: ConfigView,
    running: bool,
)
    ensures
        running ==> shows(
            row(name, distro, config, running),
            (name, distro),
            config.default_distro,
            "Running"@,
            Style::Green,
        ),
        !running ==> shows(
            row(name, distro, config, running),
            (name, distro),
            config.default_distro,
            "Stopped"@,
            Style::Red,
        ),
{
    lemma_fills("Running"@, 12);
    lemma_fills("Stopped"@, 12);
    lemma_fills(name, 20);
    lemma_fills(name + " (default)"@, 20);
    lemma_fills(distro.ip_address, 15);
    lemma_fills(distro.mac_address, 18);
    let ip = padded(distro.ip_address, 15);
    let mac = padded(distro.mac_address, 18);
    assert(row(name, distro, config, running)->Say_tail == ip + mac);
}

proof fn lemma_fills(text: Seq<char>, width: nat)
    ensures
        fills(padded(text, width), text, width),
{
    law_padded(text, width);
    let cell = padded(text, width);
    assert forall|i: int| 0 <= i < text.len() implies #[trigger] cell[i] == text[i] by {
        assert(cell[i] == cell.take(text.len() as int)[i]);
    }
}

/// Where a list stands before its `k`-th row.
proof fn lemma_list_reaches(config: ConfigView, replies: spec_fn(nat) -> ReplyView, k: nat)
    requires
        config.distros.len() > 0,
        k <= config.distros.len(),
    ensures
        ({
            let now = after_replies::<ListStage>(list_task(config), replies, (3 + 2 * k) as nat);
            &&& k < config.distros.len() ==> {
                &&& now matches TaskOf::Active { stage, steps, at } && stage
                    == (ListStageView::Row { config, at: k as int }) && at == steps.len() - 1
                    && steps[at] == attempt(ActionOf::FindPid { name: config.distros[k as int].0 })
            }
            &&& k == config.distros.len() ==> {
                &&& now matches TaskOf::Active { stage, steps, at } && stage
                    == ListStageView::Finish && at == steps.len() - 1 && steps[at] == attempt(
                    line(Style::Plain, Seq::empty()),
                )
            }
        }),
    decreases k,
{
    let t = list_task(config);
    reveal_with_fuel(after_replies, 4);
    if k == 0 {
        assert(heading_steps().len() == 3);
    } else {
        let j = (k - 1) as nat;
        let m = (3 + 2 * j) as nat;
        lemma_list_reaches(config, replies, j);
        assert((3 + 2 * k) as nat == m + 2);
        assert(after_replies::<ListStage>(t, replies, m + 1) == resumed::<ListStage>(
            after_replies::<ListStage>(t, replies, m),
            replies(m),
        ));
        assert(after_replies::<ListStage>(t, replies, m + 2) == resumed::<ListStage>(
            after_replies::<ListStage>(t, replies, m + 1),
            replies(m + 1),
        ));
    }
}

/// Whatever the host replies, a list looks for the init process of each distribution in
/// turn and then shows the distribution: as running if and only if the process was found.
/// After the last one the list ends well.
pub proof fn law_list_tells_each_status(
    config: ConfigView,
    replies: spec_fn(nat) -> ReplyView,
    k: nat,
)
    requires
        k < config.distros.len(),
    ensures
        ({
            let t = list_task(config);
            let n = (3 + 2 * k) as nat;
            let entry = config.distros[k as int];
            let found = replies(n) matches ReplyOf::Located { found } && found is Some;
            &&& pending(after_replies::<ListStage>(t, replies, n)) == Some(
                ActionView::FindPid { name: entry.0 },
            )
            &&& pending(after_replies::<ListStage>(t, replies, n + 1)) matches Some(action) && {
                &&& found ==> shows(
                    action,
                    entry,
                    config.default_distro,
                    "Running"@,
                    Style::Green,
                )
                &&& !found ==> shows(action, entry, config.default_distro, "Stopped"@, Style::Red)
            }
            &&& after_replies::<ListStage>(
                t,
                replies,
                (4 + 2 * config.distros.len()) as nat,
            ) == (TaskView::<ListStageView>::Over { result: Ok(ValueOf::Nothing) })
        }),
{
    let t = list_task(config);
    let n = (3 + 2 * k) as nat;
    let (name, distro) = config.distros[k as int];
    let found = replies(n) matches ReplyOf::Located { found } && found is Some;
    lemma_list_reaches(config, replies, k);
    law_row_tells_the_status(name, distro, config, found);
    assert(after_replies::<ListStage>(t, replies, n + 1) == resumed::<ListStage>(
        after_replies::<ListStage>(t, replies, n),
        replies(n),
    ));
    let len = config.distros.len();
    let e = (3 + 2 * len) as nat;
    lemma_list_reaches(config, replies, len);
    assert((4 + 2 * len) as nat == e + 1);
    assert(after_replies::<ListStage>(t, replies, e + 1) == resumed::<ListStage>(
        after_replies::<ListStage>(t, replies, e),
        replies(e),
    ));
}

/// The headings stand above their columns, a blank apart.
pub proof fn law_headings_name_the_columns() -> (cells: Seq<Seq<char>>)
    ensures
        cells.len() == 4,
        heading() == cells[0] + " "@ + cells[1] + " "@ + cells[2] + " "@ + cells[3],
        fills(cells[0], "DISTRO NAME"@, 20),
        fills(cells[1], "STATUS"@, 12),
        fills(cells[2], "IP ADDRESS"@, 15),
        fills(cells[3], "MAC ADDRESS"@, 18),
{
    lemma_fills("DISTRO NAME"@, 20);
    lemma_fills("STATUS"@, 12);
    lemma_fills("IP ADDRESS"@, 15);
    lemma_fills("MAC ADDRESS"@, 18);
    Seq::empty().push(padded("DISTRO NAME"@, 20)).push(padded("STATUS"@, 12)).push(
        padded("IP ADDRESS"@, 15),
    ).push(padded("MAC ADDRESS"@, 18))
}

/// Without any distribution the list says so, and how to install one.
pub proof fn law_empty_list_says_so(config: ConfigView, replies: spec_fn(nat) -> ReplyView)
    requires
        config.distros.len() == 0,
    ensures
        pending(list_task(config)) == Some(
            line(
                Style::Plain,
                "No distros registered. Use 'lsl install kali' to install Kali Linux."@,
            ),
        ),
        after_replies::<ListStage>(list_task(config), replies, 1) == (TaskView::<
            ListStageView,
        >::Over { result: Ok(ValueOf::Nothing) }),
{
    reveal_with_fuel(after_replies, 2);
}

} // verus!
