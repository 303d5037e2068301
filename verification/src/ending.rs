//! Everything ends: operations call one another only so deep, and each comes to its
//! end.
use vstd::prelude::*;

use crate::action::{told, ActionOf, ActionView, FaultView, ReplyOf, ReplyView};
use crate::boot::{
    adjust_steps, expose_steps, guest_hostname, home_steps, inside_steps, kernel_steps, share_steps,
    stack_steps, BootStage, BootStageOf, BootStageView,
};
use crate::calls::{answered, called, moved, outcome, replied, waits_for, OperationView};
use crate::cli::{serve_task, CliStage, CliStageView, RequestView};
use crate::config::ConfigView;
use crate::distro::{
    ImportStage, ImportStageView, InstallStage, RemoveStage, RemoveStageView, UserStage,
    UserStageView,
};
use crate::listing::{list_task, ListStage, ListStageView};
use crate::network::{
    assumed_address, assumed_interface, bridge_steps, candidate, chain_steps, chosen, cleanup_steps,
    decided, default_interface, nat_steps, ping_steps, route_of, route_steps, route_table_steps,
    routed_steps, spare, table_steps, tried_ip, try_turn, unbridge_steps, LinkView, NetStage,
    NetStageOf, NetStageView, RouteOf,
};
use crate::runtime::{
    GuestStage, GuestStageView, LookupStage, LookupStageView, StopStage, StopStageView,
};
use crate::session::{SessionStage, SessionStageView};
use crate::task::{
    height, law_reply_brings_forward, led_by, left, resumed, FlowOf, Plan, StepView, TaskOf,
    TaskView, TurnOf,
};
use crate::terminal::{TerminalStage, TerminalStageView};
use crate::text::{fields, lossy_text, number};

verus! {

// ------------------------------------------------------------------------ depth

/// How deep an operation can call others.
pub open spec fn level(op: OperationView) -> nat {
    match op {
        OperationView::Lookup(t) => 0,
        OperationView::Boot(t) => 1,
        OperationView::Stop(t) => 1,
        OperationView::Network(t) => 0,
        OperationView::Enlist(t) => 0,
        OperationView::Import(t) => 1,
        OperationView::Guest(t) => 0,
        OperationView::Terminal(t) => 0,
        OperationView::Install(t) => 2,
        OperationView::Remove(t) => 0,
        OperationView::List(t) => 1,
        OperationView::Visit(t) => 2,
        OperationView::Serve(t) => 3,
    }
}

/// How deep an action leads: not at all, if it is the host's.
pub open spec fn depth(action: ActionView) -> nat {
    match action {
        ActionOf::FindPid { name } => 1,
        ActionOf::SetUpNetwork { name, pid, ip, mac } => 1,
        ActionOf::SetUpUser { root, user, uid, gid } => 1,
        ActionOf::InGuest { pid, args } => 1,
        ActionOf::OpenTerminal { distro, as_root } => 1,
        ActionOf::Unregister { name } => 1,
        ActionOf::Boot { name } => 2,
        ActionOf::Stop { name } => 2,
        ActionOf::Import { name, tar } => 2,
        ActionOf::List { config } => 2,
        ActionOf::Install => 3,
        ActionOf::Visit { name, args, as_root } => 3,
        _ => 0,
    }
}

/// Steps that lead no deeper than this.
pub open spec fn within(steps: Seq<StepView>, l: nat) -> bool {
    forall|i: int| 0 <= i < steps.len() ==> depth((#[trigger] steps[i]).action) <= l
}

/// A task that waits for something unless it is over, with steps that lead no deeper
/// than this.
pub open spec fn shallow<S>(t: TaskView<S>, l: nat) -> bool {
    t matches TaskOf::Active { stage, steps, at } ==> 0 <= at < steps.len() && within(steps, l)
}

/// An operation whose steps lead no deeper than it may call.
pub open spec fn well_founded(op: OperationView) -> bool {
    match op {
        OperationView::Lookup(t) => shallow(t, 0),
        OperationView::Boot(t) => shallow(t, 1),
        OperationView::Stop(t) => shallow(t, 1),
        OperationView::Network(t) => shallow(t, 0),
        OperationView::Enlist(t) => shallow(t, 0),
        OperationView::Import(t) => shallow(t, 1),
        OperationView::Guest(t) => shallow(t, 0),
        OperationView::Terminal(t) => shallow(t, 0),
        OperationView::Install(t) => shallow(t, 2),
        OperationView::Remove(t) => shallow(t, 0),
        OperationView::List(t) => shallow(t, 1),
        OperationView::Visit(t) => shallow(t, 2),
        OperationView::Serve(t) => shallow(t, 3),
    }
}

proof fn lemma_lookup_turns(stage: LookupStageView, reply: ReplyView, fault: FaultView, clean: bool)
    ensures
        LookupStage::next(stage, reply) matches TurnOf::Go { stage: s, steps } ==> within(steps, 0),
        LookupStage::halted(stage, fault, clean) matches TurnOf::Go { stage: s, steps } ==> within(
            steps,
            0,
        ),
{
}

/// Steps behind others lead no deeper than both.
proof fn lemma_within_add(a: Seq<StepView>, b: Seq<StepView>, l: nat)
    requires
        within(a, l),
        within(b, l),
    ensures
        within(a + b, l),
{
    assert forall|i: int| 0 <= i < (a + b).len() implies depth((#[trigger] (a + b)[i]).action)
        <= l by {
        if i < a.len() {
            assert((a + b)[i] == a[i]);
        } else {
            assert((a + b)[i] == b[i - a.len()]);
        }
    }
}

proof fn lemma_boot_prepares(name: Seq<char>)
    ensures
        within(crate::boot::prepare_steps(name), 1),
{
    assert(within(stack_steps(name), 1));
    assert(within(adjust_steps(name), 1));
    lemma_within_add(stack_steps(name), adjust_steps(name), 1);
}

proof fn lemma_boot_mounts_kernel(name: Seq<char>, hostname: Seq<char>)
    ensures
        within(kernel_steps(name, hostname), 1),
{
}

proof fn lemma_boot_mounts_shared(name: Seq<char>, uid: u32)
    ensures
        within(share_steps(name, uid), 1),
{
}

proof fn lemma_boot_mounts_home(name: Seq<char>)
    ensures
        within(home_steps(name), 1),
{
}

proof fn lemma_boot_inside(name: Seq<char>, uid: u32, hostname: Seq<char>)
    ensures
        within(inside_steps(name, uid, hostname), 1),
{
    lemma_boot_mounts_kernel(name, hostname);
    lemma_boot_mounts_shared(name, uid);
    lemma_boot_mounts_home(name);
    let first = kernel_steps(name, hostname) + share_steps(name, uid);
    lemma_within_add(kernel_steps(name, hostname), share_steps(name, uid), 1);
    lemma_within_add(first, home_steps(name), 1);
}

proof fn lemma_boot_exposes(name: Seq<char>, home: Seq<char>, uid: u32, gid: u32, pid: u32)
    ensures
        within(expose_steps(name, home, uid, gid, pid), 1),
{
}

proof fn lemma_boot_turns(stage: BootStageView, reply: ReplyView, fault: FaultView, clean: bool)
    ensures
        BootStage::next(stage, reply) matches TurnOf::Go { stage: s, steps } ==> within(steps, 1),
        BootStage::halted(stage, fault, clean) matches TurnOf::Go { stage: s, steps } ==> within(
            steps,
            1,
        ),
{
    match stage {
        BootStageOf::Load { name } => {
            lemma_boot_prepares(name);
        },
        BootStageOf::Place { name, pid, home } => {
            if let ReplyOf::User { name: user, uid, gid } = reply {
                lemma_boot_exposes(name, home, uid, gid, pid);
            }
        },
        BootStageOf::Name { name, uid } => {
            if let ReplyOf::Text { text } = reply {
                lemma_boot_inside(name, uid, guest_hostname(name, Some(text)));
            }
        },
        BootStageOf::BaseName { name, uid } => {
            if let ReplyOf::Text { text } = reply {
                lemma_boot_inside(name, uid, guest_hostname(name, Some(text)));
            }
            lemma_boot_inside(name, uid, guest_hostname(name, None));
        },
        _ => {},
    }
}
proof fn lemma_stop_turns(stage: StopStageView, reply: ReplyView, fault: FaultView, clean: bool)
    ensures
        StopStage::next(stage, reply) matches TurnOf::Go { stage: s, steps } ==> within(steps, 1),
        StopStage::halted(stage, fault, clean) matches TurnOf::Go { stage: s, steps } ==> within(
            steps,
            1,
        ),
{
}

proof fn lemma_network_bridges(name: Seq<char>, host: Seq<char>)
    ensures
        within(bridge_steps(name, host), 0),
{
}

proof fn lemma_network_unbridges(name: Seq<char>)
    ensures
        within(unbridge_steps(name), 0),
        within(cleanup_steps(name), 0),
        within(chain_steps(name), 0),
{
}

proof fn lemma_network_asks(ip: Seq<char>, setup: bool, fallback: bool)
    ensures
        within(ping_steps(ip), 0),
        within(route_steps(setup, fallback), 0),
        within(route_table_steps(), 0),
        within(table_steps(), 0),
{
}

proof fn lemma_network_routes(link: LinkView, dev: Seq<char>, src: Seq<char>, ip: Seq<char>)
    ensures
        within(routed_steps(link, dev, src, ip), 0),
{
}

proof fn lemma_network_translates(link: LinkView, ip: Seq<char>, index: Seq<char>)
    ensures
        within(nat_steps(link, ip, index), 0),
{
}

proof fn lemma_network_decides(link: LinkView, dev: Seq<char>, src: Seq<char>, ip: Seq<char>)
    ensures
        decided(link, dev, src, ip) matches TurnOf::Go { stage: s, steps } ==> within(steps, 0),
{
    lemma_network_routes(link, dev, src, ip);
    let own = if link.ip == "dhcp"@ {
        "10.88.1.2"@
    } else {
        link.ip
    };
    lemma_network_translates(link, own, fields(own, '.')[2]);
}

proof fn lemma_network_tries(link: LinkView, dev: Seq<char>, src: Seq<char>, k: int)
    ensures
        try_turn(link, dev, src, k) matches TurnOf::Go { stage: s, steps } ==> within(steps, 0),
{
    let parts = fields(src, '.');
    lemma_network_asks(candidate(parts, number(parts[3])->0, k), false, false);
    lemma_network_decides(link, dev, src, spare(parts));
}

proof fn lemma_network_chooses(link: LinkView, dev: Seq<char>, src: Seq<char>)
    ensures
        chosen(link, dev, src) matches TurnOf::Go { stage: s, steps } ==> within(steps, 0),
{
    lemma_network_tries(link, dev, src, 0);
    lemma_network_decides(link, dev, src, link.ip);
}

proof fn lemma_network_turns(stage: NetStageView, reply: ReplyView, fault: FaultView, clean: bool)
    ensures
        NetStage::next(stage, reply) matches TurnOf::Go { stage: s, steps } ==> within(steps, 0),
        NetStage::halted(stage, fault, clean) matches TurnOf::Go { stage: s, steps } ==> within(
            steps,
            0,
        ),
{
    match stage {
        NetStageOf::Prepare { link } => {
            lemma_network_asks(link.ip, reply != (ReplyView::Found { exists: true }), false);
        },
        NetStageOf::Table { link } => {
            if let ReplyOf::Text { text } = reply {
                lemma_network_bridges(link.name, default_interface(text)->0);
            }
            lemma_network_asks(link.ip, false, true);
        },
        NetStageOf::Bridge { link } => {
            lemma_network_unbridges(link.name);
        },
        NetStageOf::Unbridge { link } => {
            lemma_network_asks(link.ip, false, true);
        },
        NetStageOf::Route { link } => {
            lemma_network_asks(link.ip, false, false);
            lemma_network_chooses(link, assumed_interface(), assumed_address());
            if let ReplyOf::Output { success, bytes } = reply {
                if let RouteOf::Complete { dev, src, via } = route_of(lossy_text(bytes)) {
                    lemma_network_chooses(link, dev, src);
                }
            }
        },
        NetStageOf::RouteTable { link } => {
            lemma_network_chooses(link, assumed_interface(), assumed_address());
            if let ReplyOf::Text { text } = reply {
                lemma_network_chooses(link, default_interface(text)->0, assumed_address());
            }
        },
        NetStageOf::Ping { link, dev, src, tried } => {
            lemma_network_decides(link, dev, src, tried_ip(src, tried as int)->0);
            lemma_network_tries(link, dev, src, tried + 1);
        },
        NetStageOf::Nat { name, index } => {
            lemma_network_unbridges(name);
        },
        NetStageOf::Routed { name } => {
            lemma_network_unbridges(name);
        },
        _ => {},
    }
}
proof fn lemma_enlist_turns(stage: UserStageView, reply: ReplyView, fault: FaultView, clean: bool)
    ensures
        UserStage::next(stage, reply) matches TurnOf::Go { stage: s, steps } ==> within(steps, 0),
        UserStage::halted(stage, fault, clean) matches TurnOf::Go { stage: s, steps } ==> within(
            steps,
            0,
        ),
{
}

proof fn lemma_import_turns(stage: ImportStageView, reply: ReplyView, fault: FaultView, clean: bool)
    ensures
        ImportStage::next(stage, reply) matches TurnOf::Go { stage: s, steps } ==> within(steps, 1),
        ImportStage::halted(stage, fault, clean) matches TurnOf::Go { stage: s, steps } ==> within(
            steps,
            1,
        ),
{
}

proof fn lemma_guest_turns(stage: GuestStageView, reply: ReplyView, fault: FaultView, clean: bool)
    ensures
        GuestStage::next(stage, reply) matches TurnOf::Go { stage: s, steps } ==> within(steps, 0),
        GuestStage::halted(stage, fault, clean) matches TurnOf::Go { stage: s, steps } ==> within(
            steps,
            0,
        ),
{
}

proof fn lemma_terminal_turns(stage: TerminalStageView, reply: ReplyView, fault: FaultView, clean: bool)
    ensures
        TerminalStage::next(stage, reply) matches TurnOf::Go { stage: s, steps } ==> within(steps, 0),
        TerminalStage::halted(stage, fault, clean) matches TurnOf::Go { stage: s, steps } ==> within(
            steps,
            0,
        ),
{
}

proof fn lemma_install_turns(stage: InstallStage, reply: ReplyView, fault: FaultView, clean: bool)
    ensures
        InstallStage::next(stage, reply) matches TurnOf::Go { stage: s, steps } ==> within(steps, 2),
        InstallStage::halted(stage, fault, clean) matches TurnOf::Go { stage: s, steps } ==> within(
            steps,
            2,
        ),
{
}

proof fn lemma_remove_turns(stage: RemoveStageView, reply: ReplyView, fault: FaultView, clean: bool)
    ensures
        RemoveStage::next(stage, reply) matches TurnOf::Go { stage: s, steps } ==> within(steps, 0),
        RemoveStage::halted(stage, fault, clean) matches TurnOf::Go { stage: s, steps } ==> within(
            steps,
            0,
        ),
{
}

proof fn lemma_list_turns(stage: ListStageView, reply: ReplyView, fault: FaultView, clean: bool)
    ensures
        ListStage::next(stage, reply) matches TurnOf::Go { stage: s, steps } ==> within(steps, 1),
        ListStage::halted(stage, fault, clean) matches TurnOf::Go { stage: s, steps } ==> within(
            steps,
            1,
        ),
{
}

proof fn lemma_visit_turns(stage: SessionStageView, reply: ReplyView, fault: FaultView, clean: bool)
    ensures
        SessionStage::next(stage, reply) matches TurnOf::Go { stage: s, steps } ==> within(steps, 2),
        SessionStage::halted(stage, fault, clean) matches TurnOf::Go { stage: s, steps } ==> within(
            steps,
            2,
        ),
{
}

proof fn lemma_serve_turns(stage: CliStageView, reply: ReplyView, fault: FaultView, clean: bool)
    ensures
        CliStage::next(stage, reply) matches TurnOf::Go { stage: s, steps } ==> within(steps, 3),
        CliStage::halted(stage, fault, clean) matches TurnOf::Go { stage: s, steps } ==> within(
            steps,
            3,
        ),
{
}

/// A task whose turns lead no deeper than this stays so.
proof fn lemma_stays_shallow<P: Plan>(t: TaskView<P::V>, reply: ReplyView, l: nat)
    requires
        shallow(t, l),
        t matches TaskOf::Active { stage, steps, at } ==> {
            &&& P::next(stage, reply) matches TurnOf::Go { stage: s, steps: p } ==> within(p, l)
            &&& forall|fault: FaultView, clean: bool|
                #[trigger] P::halted(stage, fault, clean) matches TurnOf::Go { stage: s, steps: p }
                    ==> within(p, l)
        },
    ensures
        shallow(resumed::<P>(t, reply), l),
{
    if let TaskOf::Active { stage, steps, at } = t {
        P::next_descends(stage, reply);
        if let FlowOf::Halt { fault, clean } = led_by(steps[at].rule, reply) {
            P::halted_descends(stage, fault, clean);
        }
    }
}

/// A reply keeps an operation from calling deeper than it may.
proof fn lemma_stays_well_founded(op: OperationView, reply: ReplyView)
    requires
        well_founded(op),
    ensures
        well_founded(answered(op, reply)),
        level(answered(op, reply)) == level(op),
{
    match op {
        OperationView::Lookup(t) => {
            if let TaskOf::Active { stage, steps, at } = t {
                assert forall|fault: FaultView, clean: bool|
                    #[trigger] LookupStage::halted(stage, fault, clean) matches TurnOf::Go {
                        stage: s,
                        steps: p,
                    } ==> within(p, 0) by {
                    lemma_lookup_turns(stage, reply, fault, clean);
                }
                lemma_lookup_turns(stage, reply, arbitrary(), false);
            }
            lemma_stays_shallow::<LookupStage>(t, reply, 0);
        },
        OperationView::Boot(t) => {
            if let TaskOf::Active { stage, steps, at } = t {
                assert forall|fault: FaultView, clean: bool|
                    #[trigger] BootStage::halted(stage, fault, clean) matches TurnOf::Go {
                        stage: s,
                        steps: p,
                    } ==> within(p, 1) by {
                    lemma_boot_turns(stage, reply, fault, clean);
                }
                lemma_boot_turns(stage, reply, arbitrary(), false);
            }
            lemma_stays_shallow::<BootStage>(t, reply, 1);
        },
        OperationView::Stop(t) => {
            if let TaskOf::Active { stage, steps, at } = t {
                assert forall|fault: FaultView, clean: bool|
                    #[trigger] StopStage::halted(stage, fault, clean) matches TurnOf::Go {
                        stage: s,
                        steps: p,
                    } ==> within(p, 1) by {
                    lemma_stop_turns(stage, reply, fault, clean);
                }
                lemma_stop_turns(stage, reply, arbitrary(), false);
            }
            lemma_stays_shallow::<StopStage>(t, reply, 1);
        },
        OperationView::Network(t) => {
            if let TaskOf::Active { stage, steps, at } = t {
                assert forall|fault: FaultView, clean: bool|
                    #[trigger] NetStage::halted(stage, fault, clean) matches TurnOf::Go {
                        stage: s,
                        steps: p,
                    } ==> within(p, 0) by {
                    lemma_network_turns(stage, reply, fault, clean);
                }
                lemma_network_turns(stage, reply, arbitrary(), false);
            }
            lemma_stays_shallow::<NetStage>(t, reply, 0);
        },
        OperationView::Enlist(t) => {
            if let TaskOf::Active { stage, steps, at } = t {
                assert forall|fault: FaultView, clean: bool|
                    #[trigger] UserStage::halted(stage, fault, clean) matches TurnOf::Go {
                        stage: s,
                        steps: p,
                    } ==> within(p, 0) by {
                    lemma_enlist_turns(stage, reply, fault, clean);
                }
                lemma_enlist_turns(stage, reply, arbitrary(), false);
            }
            lemma_stays_shallow::<UserStage>(t, reply, 0);
        },
        OperationView::Import(t) => {
            if let TaskOf::Active { stage, steps, at } = t {
                assert forall|fault: FaultView, clean: bool|
                    #[trigger] ImportStage::halted(stage, fault, clean) matches TurnOf::Go {
                        stage: s,
                        steps: p,
                    } ==> within(p, 1) by {
                    lemma_import_turns(stage, reply, fault, clean);
                }
                lemma_import_turns(stage, reply, arbitrary(), false);
            }
            lemma_stays_shallow::<ImportStage>(t, reply, 1);
        },
        OperationView::Guest(t) => {
            if let TaskOf::Active { stage, steps, at } = t {
                assert forall|fault: FaultView, clean: bool|
                    #[trigger] GuestStage::halted(stage, fault, clean) matches TurnOf::Go {
                        stage: s,
                        steps: p,
                    } ==> within(p, 0) by {
                    lemma_guest_turns(stage, reply, fault, clean);
                }
                lemma_guest_turns(stage, reply, arbitrary(), false);
            }
            lemma_stays_shallow::<GuestStage>(t, reply, 0);
        },
        OperationView::Terminal(t) => {
            if let TaskOf::Active { stage, steps, at } = t {
                assert forall|fault: FaultView, clean: bool|
                    #[trigger] TerminalStage::halted(stage, fault, clean) matches TurnOf::Go {
                        stage: s,
                        steps: p,
                    } ==> within(p, 0) by {
                    lemma_terminal_turns(stage, reply, fault, clean);
                }
                lemma_terminal_turns(stage, reply, arbitrary(), false);
            }
            lemma_stays_shallow::<TerminalStage>(t, reply, 0);
        },
        OperationView::Install(t) => {
            if let TaskOf::Active { stage, steps, at } = t {
                assert forall|fault: FaultView, clean: bool|
                    #[trigger] InstallStage::halted(stage, fault, clean) matches TurnOf::Go {
                        stage: s,
                        steps: p,
                    } ==> within(p, 2) by {
                    lemma_install_turns(stage, reply, fault, clean);
                }
                lemma_install_turns(stage, reply, arbitrary(), false);
            }
            lemma_stays_shallow::<InstallStage>(t, reply, 2);
        },
        OperationView::Remove(t) => {
            if let TaskOf::Active { stage, steps, at } = t {
                assert forall|fault: FaultView, clean: bool|
                    #[trigger] RemoveStage::halted(stage, fault, clean) matches TurnOf::Go {
                        stage: s,
                        steps: p,
                    } ==> within(p, 0) by {
                    lemma_remove_turns(stage, reply, fault, clean);
                }
                lemma_remove_turns(stage, reply, arbitrary(), false);
            }
            lemma_stays_shallow::<RemoveStage>(t, reply, 0);
        },
        OperationView::List(t) => {
            if let TaskOf::Active { stage, steps, at } = t {
                assert forall|fault: FaultView, clean: bool|
                    #[trigger] ListStage::halted(stage, fault, clean) matches TurnOf::Go {
                        stage: s,
                        steps: p,
                    } ==> within(p, 1) by {
                    lemma_list_turns(stage, reply, fault, clean);
                }
                lemma_list_turns(stage, reply, arbitrary(), false);
            }
            lemma_stays_shallow::<ListStage>(t, reply, 1);
        },
        OperationView::Visit(t) => {
            if let TaskOf::Active { stage, steps, at } = t {
                assert forall|fault: FaultView, clean: bool|
                    #[trigger] SessionStage::halted(stage, fault, clean) matches TurnOf::Go {
                        stage: s,
                        steps: p,
                    } ==> within(p, 2) by {
                    lemma_visit_turns(stage, reply, fault, clean);
                }
                lemma_visit_turns(stage, reply, arbitrary(), false);
            }
            lemma_stays_shallow::<SessionStage>(t, reply, 2);
        },
        OperationView::Serve(t) => {
            if let TaskOf::Active { stage, steps, at } = t {
                assert forall|fault: FaultView, clean: bool|
                    #[trigger] CliStage::halted(stage, fault, clean) matches TurnOf::Go {
                        stage: s,
                        steps: p,
                    } ==> within(p, 3) by {
                    lemma_serve_turns(stage, reply, fault, clean);
                }
                lemma_serve_turns(stage, reply, arbitrary(), false);
            }
            lemma_stays_shallow::<CliStage>(t, reply, 3);
        },
    }
}

/// What an action calls leads one step less deep than the action.
proof fn lemma_called(action: ActionView)
    ensures
        match called(action) {
            Some(op) => level(op) + 1 == depth(action) && well_founded(op),
            None => depth(action) == 0,
        },
{
    if let ActionOf::List { config } = action {
        lemma_list_starts(config);
    }
}

proof fn lemma_list_starts(config: ConfigView)
    ensures
        shallow(list_task(config), 1),
{
}

// --------------------------------------------------------------------- progress

/// How far the stage of an operation is from the last.
pub open spec fn tall(op: OperationView) -> nat {
    match op {
        OperationView::Lookup(t) => height::<LookupStage>(t),
        OperationView::Boot(t) => height::<BootStage>(t),
        OperationView::Stop(t) => height::<StopStage>(t),
        OperationView::Network(t) => height::<NetStage>(t),
        OperationView::Enlist(t) => height::<UserStage>(t),
        OperationView::Import(t) => height::<ImportStage>(t),
        OperationView::Guest(t) => height::<GuestStage>(t),
        OperationView::Terminal(t) => height::<TerminalStage>(t),
        OperationView::Install(t) => height::<InstallStage>(t),
        OperationView::Remove(t) => height::<RemoveStage>(t),
        OperationView::List(t) => height::<ListStage>(t),
        OperationView::Visit(t) => height::<SessionStage>(t),
        OperationView::Serve(t) => height::<CliStage>(t),
    }
}

/// How many steps of its stage an operation has before it.
pub open spec fn ahead(op: OperationView) -> nat {
    match op {
        OperationView::Lookup(t) => left(t),
        OperationView::Boot(t) => left(t),
        OperationView::Stop(t) => left(t),
        OperationView::Network(t) => left(t),
        OperationView::Enlist(t) => left(t),
        OperationView::Import(t) => left(t),
        OperationView::Guest(t) => left(t),
        OperationView::Terminal(t) => left(t),
        OperationView::Install(t) => left(t),
        OperationView::Remove(t) => left(t),
        OperationView::List(t) => left(t),
        OperationView::Visit(t) => left(t),
        OperationView::Serve(t) => left(t),
    }
}

/// A reply brings an operation forward.
proof fn lemma_brings_forward(op: OperationView, reply: ReplyView)
    requires
        well_founded(op),
        waits_for(op) is Some,
    ensures
        tall(answered(op, reply)) < tall(op) || (tall(answered(op, reply)) == tall(op) && ahead(
            answered(op, reply),
        ) < ahead(op)),
{
    match op {
        OperationView::Lookup(t) => {
            law_reply_brings_forward::<LookupStage>(t, reply);
        },
        OperationView::Boot(t) => {
            law_reply_brings_forward::<BootStage>(t, reply);
        },
        OperationView::Stop(t) => {
            law_reply_brings_forward::<StopStage>(t, reply);
        },
        OperationView::Network(t) => {
            law_reply_brings_forward::<NetStage>(t, reply);
        },
        OperationView::Enlist(t) => {
            law_reply_brings_forward::<UserStage>(t, reply);
        },
        OperationView::Import(t) => {
            law_reply_brings_forward::<ImportStage>(t, reply);
        },
        OperationView::Guest(t) => {
            law_reply_brings_forward::<GuestStage>(t, reply);
        },
        OperationView::Terminal(t) => {
            law_reply_brings_forward::<TerminalStage>(t, reply);
        },
        OperationView::Install(t) => {
            law_reply_brings_forward::<InstallStage>(t, reply);
        },
        OperationView::Remove(t) => {
            law_reply_brings_forward::<RemoveStage>(t, reply);
        },
        OperationView::List(t) => {
            law_reply_brings_forward::<ListStage>(t, reply);
        },
        OperationView::Visit(t) => {
            law_reply_brings_forward::<SessionStage>(t, reply);
        },
        OperationView::Serve(t) => {
            law_reply_brings_forward::<CliStage>(t, reply);
        },
    }
}

/// A stack in which every operation waits for the one above it, which can call less
/// deep than it.
pub open spec fn orderly(stack: Seq<OperationView>) -> bool {
    &&& stack.len() > 0
    &&& forall|i: int| 0 <= i < stack.len() ==> well_founded(#[trigger] stack[i])
    &&& forall|i: int| 0 <= i < stack.len() - 1 ==> waits_for(#[trigger] stack[i]) is Some
    &&& forall|i: int| 0 <= i < stack.len() ==> level(#[trigger] stack[i]) + i <= 3
}

/// Nothing is left to do: no call or return is due, and the host is not waited for.
pub open spec fn at_rest(stack: Seq<OperationView>) -> bool {
    moved(stack) is None && (stack.len() > 0 ==> waits_for(stack.last()) is None)
}

/// The stack after a call or a return, or else after the host's reply.
pub open spec fn onward(stack: Seq<OperationView>, reply: ReplyView) -> Seq<OperationView> {
    match moved(stack) {
        Some(after) => after,
        None => if at_rest(stack) {
            stack
        } else {
            replied(stack, reply)
        },
    }
}

/// The stack after `n` calls, returns and replies.
pub open spec fn after_moves(
    stack: Seq<OperationView>,
    replies: spec_fn(nat) -> ReplyView,
    n: nat,
) -> Seq<OperationView>
    decreases n,
{
    if n == 0 {
        stack
    } else {
        onward(after_moves(stack, replies, (n - 1) as nat), replies((n - 1) as nat))
    }
}

/// An operation can be called at this place.
spec fn free(stack: Seq<OperationView>, i: int) -> nat {
    if i < stack.len() {
        0
    } else {
        1
    }
}

spec fn tall_at(stack: Seq<OperationView>, i: int) -> nat {
    if i < stack.len() {
        tall(stack[i])
    } else {
        0
    }
}

spec fn ahead_at(stack: Seq<OperationView>, i: int) -> nat {
    if i < stack.len() {
        ahead(stack[i])
    } else {
        0
    }
}

/// The place is nearer to its end; or it is as it was.
spec fn nearer(a: Seq<OperationView>, b: Seq<OperationView>, i: int) -> bool {
    free(b, i) < free(a, i) || (free(b, i) == free(a, i) && (tall_at(b, i) < tall_at(a, i) || (
    tall_at(b, i) == tall_at(a, i) && ahead_at(b, i) < ahead_at(a, i))))
}

spec fn alike(a: Seq<OperationView>, b: Seq<OperationView>, i: int) -> bool {
    free(b, i) == free(a, i) && tall_at(b, i) == tall_at(a, i) && ahead_at(b, i) == ahead_at(a, i)
}

/// Every move brings the stack forward: at some place it comes nearer to its end, and
/// below that place nothing changes.
proof fn lemma_onward(stack: Seq<OperationView>, reply: ReplyView) -> (k: int)
    requires
        orderly(stack),
        !at_rest(stack),
    ensures
        orderly(onward(stack, reply)),
        0 <= k < 4,
        nearer(stack, onward(stack, reply), k),
        forall|i: int| 0 <= i < k ==> #[trigger] alike(stack, onward(stack, reply), i),
{
    let n = stack.len() as int;
    let top = stack.last();
    let next = onward(stack, reply);
    assert(stack[n - 1] == top);
    assert(level(stack[n - 1]) + (n - 1) <= 3);
    match waits_for(top) {
        Some(action) => {
            lemma_called(action);
            lemma_waits_within(top, action);
            match called(action) {
                Some(op) => {
                    assert(next == stack.push(op));
                    assert forall|i: int| 0 <= i < n implies #[trigger] alike(stack, next, i) by {}
                    n
                },
                None => {
                    assert(next == replied(stack, reply));
                    lemma_stays_well_founded(top, reply);
                    lemma_brings_forward(top, reply);
                    assert forall|i: int| 0 <= i < n - 1 implies #[trigger] alike(
                        stack,
                        next,
                        i,
                    ) by {}
                    n - 1
                },
            }
        },
        None => {
            let result = outcome(top).unwrap();
            let rest = stack.drop_last();
            let caller = rest.last();
            assert(caller == stack[n - 2]);
            assert(waits_for(stack[n - 2]) is Some);
            assert(next == rest.drop_last().push(answered(caller, told(result))));
            lemma_stays_well_founded(caller, told(result));
            lemma_brings_forward(caller, told(result));
            assert(level(stack[n - 2]) + (n - 2) <= 3);
            assert forall|i: int| 0 <= i < n - 2 implies #[trigger] alike(stack, next, i) by {}
            n - 2
        },
    }
}

/// What an operation waits for leads no deeper than it may call.
proof fn lemma_waits_within(op: OperationView, action: ActionView)
    requires
        well_founded(op),
        waits_for(op) == Some(action),
    ensures
        depth(action) <= level(op),
{
}

// ------------------------------------------------------------------------- laws

/// Whatever the host replies, every operation comes to its end, with all that it
/// calls: after some number of calls, returns and replies nothing is left to do.
pub proof fn law_every_operation_ends(
    stack: Seq<OperationView>,
    replies: spec_fn(nat) -> ReplyView,
) -> (n: nat)
    requires
        orderly(stack),
    ensures
        at_rest(after_moves(stack, replies, n)),
{
    lemma_ends_after(stack, replies, 0)
}

proof fn lemma_ends_after(
    stack: Seq<OperationView>,
    replies: spec_fn(nat) -> ReplyView,
    m: nat,
) -> (n: nat)
    requires
        orderly(after_moves(stack, replies, m)),
    ensures
        at_rest(after_moves(stack, replies, n)),
    decreases
            free(after_moves(stack, replies, m), 0),
            tall_at(after_moves(stack, replies, m), 0),
            ahead_at(after_moves(stack, replies, m), 0),
            free(after_moves(stack, replies, m), 1),
            tall_at(after_moves(stack, replies, m), 1),
            ahead_at(after_moves(stack, replies, m), 1),
            free(after_moves(stack, replies, m), 2),
            tall_at(after_moves(stack, replies, m), 2),
            ahead_at(after_moves(stack, replies, m), 2),
            free(after_moves(stack, replies, m), 3),
            tall_at(after_moves(stack, replies, m), 3),
            ahead_at(after_moves(stack, replies, m), 3),
{
    let now = after_moves(stack, replies, m);
    if at_rest(now) {
        m
    } else {
        let k = lemma_onward(now, replies(m));
        let then = after_moves(stack, replies, m + 1);
        assert(then == onward(now, replies(m)));
        assert(k > 0 ==> alike(now, then, 0));
        assert(k > 1 ==> alike(now, then, 1));
        assert(k > 2 ==> alike(now, then, 2));
        lemma_ends_after(stack, replies, m + 1)
    }
}

/// The program ends, whatever it is asked for and whatever the host replies.
pub proof fn law_every_request_is_answered(
    request: RequestView,
    spawned: bool,
    replies: spec_fn(nat) -> ReplyView,
) -> (n: nat)
    ensures
        at_rest(
            after_moves(
                Seq::empty().push(OperationView::Serve(serve_task(request, spawned))),
                replies,
                n,
            ),
        ),
{
    let stack = Seq::empty().push(OperationView::Serve(serve_task(request, spawned)));
    assert(orderly(stack));
    law_every_operation_ends(stack, replies)
}

} // verus!
