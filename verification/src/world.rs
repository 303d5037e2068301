//! A model of the host, and what whole runs of tasks leave behind on it.
//!
//! The model knows the files that matter, the network devices and firewall tables,
//! the mounts, the configuration and the processes that were killed. All that is
//! asked of it works; only what is not there cannot be read or appended to.
use vstd::prelude::*;
use vstd::utf8::{
    decode_utf8, encode_utf8, encode_utf8_decode_utf8, encode_utf8_valid_utf8, valid_utf8,
};

use crate::accounts::{
    complete_bytes, group_line, law_added_user_is_known, law_regrouping_is_idempotent, names_user,
    passwd_line, plain_line, regrouped, shadow_line, user_known,
};
use crate::action::{ActionOf, ActionView, FaultKind, FaultView, ReplyOf, ReplyView, ValueOf};
use crate::boot::{boot_task, law_booted_is_written_down, recorded_by, BootStage, BootStageView};
use crate::config::{config_file, distro_path, save_steps, ConfigView};
use crate::distro::{
    create_steps, hosts_text, sudo_steps, user_task, SeatView, UserStage, UserStageOf,
    UserStageView,
};
use crate::network::{cleanup_steps, nat_table, netns_file, proc_ns, veth};
use crate::path::path_join;
use crate::runtime::{
    host_mount, idle_steps, kill_steps, lookup_task, pid_file, recorded_pid, stop_steps, stop_task,
    unmap_steps, LookupStage, LookupStageView, StopStage, StopStageOf, StopStageView,
};
use crate::task::{
    after_replies, attempt, entered, led_by, must, no_steps, pending, reach, resumed, started,
    FlowOf, Plan, StepView, TaskOf, TaskView,
};
use crate::text::{decimal, lemma_prefix_injective, lines_by};

verus! {

// -------------------------------------------------------------------- the model

/// What matters of a host.
#[verifier::ext_equal]
pub struct World {
    /// The files, by path, with what they hold.
    pub files: Map<Seq<char>, Seq<u8>>,
    /// The network devices.
    pub links: Set<Seq<char>>,
    /// The firewall's tables.
    pub tables: Set<Seq<char>>,
    /// The places where something is mounted.
    pub mounts: Set<Seq<char>>,
    /// The configuration that is stored.
    pub config: ConfigView,
    /// The user's home directory.
    pub home: Seq<char>,
    /// The processes that were killed.
    pub killed: Set<u32>,
}

/// The init process of a distribution: the one whose number its file holds, if that
/// process has namespaces.
pub open spec fn init_of(w: World, name: Seq<char>) -> Option<u32> {
    if w.files.contains_key(pid_file(name)) && valid_utf8(w.files[pid_file(name)]) {
        match recorded_pid(decode_utf8(w.files[pid_file(name)])) {
            Some(pid) => if w.files.contains_key(proc_ns(pid, "uts"@)) {
                Some(pid)
            } else {
                None
            },
            None => None,
        }
    } else {
        None
    }
}

/// The file of a distribution holds the number of a process that is gone.
pub open spec fn is_stale(w: World, name: Seq<char>) -> bool {
    w.files.contains_key(pid_file(name)) && valid_utf8(w.files[pid_file(name)]) && recorded_pid(
        decode_utf8(w.files[pid_file(name)]),
    ) is Some && init_of(w, name) is None
}

/// The host after an init process was looked for.
pub open spec fn looked_up(w: World, name: Seq<char>) -> World {
    if is_stale(w, name) {
        World { files: w.files.remove(pid_file(name)), ..w }
    } else {
        w
    }
}

/// The host after a program was run.
pub open spec fn ran(w: World, program: Seq<char>, args: Seq<Seq<char>>) -> World {
    if program == "ip"@ && args.len() >= 3 && args[0] == "link"@ && args[1] == "add"@ {
        World { links: w.links.insert(args[2]), ..w }
    } else if program == "ip"@ && args.len() >= 3 && args[0] == "link"@ && args[1] == "del"@ {
        World { links: w.links.remove(args[2]), ..w }
    } else if program == "nft"@ && args.len() == 4 && args[0] == "add"@ && args[1] == "table"@ {
        World { tables: w.tables.insert(args[3]), ..w }
    } else if program == "nft"@ && args.len() == 4 && args[0] == "delete"@ && args[1]
        == "table"@ {
        World { tables: w.tables.remove(args[3]), ..w }
    } else if program == "umount"@ && args.len() > 0 {
        World { mounts: w.mounts.remove(args.last()), ..w }
    } else {
        w
    }
}

/// The host after an action.
pub open spec fn performed(w: World, action: ActionView) -> World {
    match action {
        ActionOf::Run { program, args } => ran(w, program, args),
        ActionOf::CreateFile { path } => World {
            files: w.files.insert(path, Seq::empty()),
            ..w
        },
        ActionOf::WriteText { path, text } => World {
            files: w.files.insert(path, encode_utf8(text)),
            ..w
        },
        ActionOf::AppendText { path, text } => if w.files.contains_key(path) {
            World { files: w.files.insert(path, w.files[path] + encode_utf8(text)), ..w }
        } else {
            w
        },
        ActionOf::RemoveFile { path } => World { files: w.files.remove(path), ..w },
        ActionOf::StoreConfig { path, config } => if path == config_file() {
            World { config, ..w }
        } else {
            w
        },
        ActionOf::Mount { source, target, fstype, flags, data } => World {
            mounts: w.mounts.insert(target),
            ..w
        },
        ActionOf::Unmount { target } => World { mounts: w.mounts.remove(target), ..w },
        ActionOf::Kill { pid } => World {
            files: w.files.remove(proc_ns(pid, "uts"@)),
            killed: w.killed.insert(pid),
            ..w
        },
        ActionOf::FindPid { name } => looked_up(w, name),
        _ => w,
    }
}

/// The reply to what cannot be done because a file is missing.
pub open spec fn missing() -> ReplyView {
    ReplyOf::Failed { kind: FaultKind::Host { code: 2 }, error: "No such file or directory"@ }
}

/// What the host replies to an action.
pub open spec fn reply_of(w: World, action: ActionView) -> ReplyView {
    match action {
        ActionOf::Run { program, args } => ReplyOf::Exit { success: true },
        ActionOf::Exists { path } => ReplyOf::Found { exists: w.files.contains_key(path) },
        ActionOf::ReadBytes { path } => if w.files.contains_key(path) {
            ReplyOf::Bytes { bytes: w.files[path] }
        } else {
            missing()
        },
        ActionOf::ReadText { path } => if !w.files.contains_key(path) {
            missing()
        } else if valid_utf8(w.files[path]) {
            ReplyOf::Text { text: decode_utf8(w.files[path]) }
        } else {
            ReplyOf::Failed {
                kind: FaultKind::InvalidData,
                error: "stream did not contain valid UTF-8"@,
            }
        },
        ActionOf::AppendText { path, text } => if w.files.contains_key(path) {
            ReplyOf::Done
        } else {
            missing()
        },
        ActionOf::LoadConfig => ReplyOf::Config { config: w.config },
        ActionOf::AskHome => ReplyOf::Text { text: w.home },
        ActionOf::FindPid { name } => ReplyOf::Located { found: init_of(w, name) },
        _ => ReplyOf::Done,
    }
}

/// A task and the host after up to `n` actions.
pub open spec fn run_on<P: Plan>(t: TaskView<P::V>, w: World, n: nat) -> (TaskView<P::V>, World)
    decreases n,
{
    if n == 0 {
        (t, w)
    } else {
        match pending(t) {
            Some(action) => run_on::<P>(
                resumed::<P>(t, reply_of(w, action)),
                performed(w, action),
                (n - 1) as nat,
            ),
            None => (t, w),
        }
    }
}

/// The host after the steps of a stage, from step `at` on, and the last reply; nothing
/// if a step stops the task.
pub open spec fn passed(steps: Seq<StepView>, at: int, w: World) -> Option<(World, ReplyView)>
    decreases steps.len() - at,
{
    if 0 <= at < steps.len() {
        let action = steps[at].action;
        let reply = reply_of(w, action);
        match led_by(steps[at].rule, reply) {
            FlowOf::Advance { skip } => if at + 1 + skip < steps.len() {
                passed(steps, at + 1 + skip, performed(w, action))
            } else {
                Some((performed(w, action), reply))
            },
            FlowOf::Halt { fault, clean } => None,
        }
    } else {
        None
    }
}

/// A run can be cut in two.
pub proof fn lemma_run_adds<P: Plan>(t: TaskView<P::V>, w: World, a: nat, b: nat)
    ensures
        run_on::<P>(t, w, a + b) == run_on::<P>(
            run_on::<P>(t, w, a).0,
            run_on::<P>(t, w, a).1,
            b,
        ),
    decreases a,
{
    if a > 0 {
        match pending(t) {
            Some(action) => {
                lemma_run_adds::<P>(
                    resumed::<P>(t, reply_of(w, action)),
                    performed(w, action),
                    (a - 1) as nat,
                    b,
                );
                assert(((a + b) - 1) as nat == ((a - 1) as nat) + b);
            },
            None => {
                lemma_rest::<P>(t, w, b);
            },
        }
    }
}

/// A task that waits for nothing stays as it is.
pub proof fn lemma_rest<P: Plan>(t: TaskView<P::V>, w: World, n: nat)
    requires
        pending(t) is None,
    ensures
        run_on::<P>(t, w, n) == (t, w),
{
}

/// Two runs of one task that are both over are the same.
pub proof fn lemma_one_end<P: Plan>(t: TaskView<P::V>, w: World, a: nat, b: nat)
    requires
        run_on::<P>(t, w, a).0 is Over,
        run_on::<P>(t, w, b).0 is Over,
    ensures
        run_on::<P>(t, w, a) == run_on::<P>(t, w, b),
{
    if a <= b {
        let more = (b - a) as nat;
        lemma_run_adds::<P>(t, w, a, more);
        lemma_rest::<P>(run_on::<P>(t, w, a).0, run_on::<P>(t, w, a).1, more);
    } else {
        let more = (a - b) as nat;
        lemma_run_adds::<P>(t, w, b, more);
        lemma_rest::<P>(run_on::<P>(t, w, b).0, run_on::<P>(t, w, b).1, more);
    }
}

/// A stage whose steps are passed leads to its next turn.
pub proof fn lemma_passed<P: Plan>(
    stage: P::V,
    steps: Seq<StepView>,
    at: int,
    w: World,
    after: World,
    reply: ReplyView,
) -> (n: nat)
    requires
        passed(steps, at, w) == Some((after, reply)),
    ensures
        run_on::<P>(TaskOf::Active { stage, steps, at }, w, n) == (
            entered(P::next(stage, reply)),
            after,
        ),
    decreases steps.len() - at,
{
    let t = TaskView::<P::V>::Active { stage, steps, at };
    let action = steps[at].action;
    let first = reply_of(w, action);
    match led_by(steps[at].rule, first) {
        FlowOf::Advance { skip } => {
            if at + 1 + skip < steps.len() {
                let m = lemma_passed::<P>(
                    stage,
                    steps,
                    at + 1 + skip,
                    performed(w, action),
                    after,
                    reply,
                );
                assert(run_on::<P>(t, w, m + 1) == run_on::<P>(
                    resumed::<P>(t, first),
                    performed(w, action),
                    m,
                ));
                m + 1
            } else {
                reveal_with_fuel(run_on, 2);
                1
            }
        },
        FlowOf::Halt { fault, clean } => 0,
    }
}

/// After a stage whose steps are passed the run goes on from the next turn.
pub proof fn lemma_then<P: Plan>(
    t: TaskView<P::V>,
    w: World,
    n: nat,
    stage: P::V,
    steps: Seq<StepView>,
    mid: World,
    after: World,
    reply: ReplyView,
) -> (m: nat)
    requires
        run_on::<P>(t, w, n) == (started::<P::V>(stage, steps), mid),
        passed(steps, 0, mid) == Some((after, reply)),
    ensures
        run_on::<P>(t, w, m) == (entered(P::next(stage, reply)), after),
{
    let k = lemma_passed::<P>(stage, steps, 0, mid, after, reply);
    lemma_run_adds::<P>(t, w, n, k);
    n + k
}

// --------------------------------------------------------------- the configuration

/// What is saved is loaded again: saving a configuration cannot fail on this host,
/// and whoever loads the configuration afterwards is given the one that was saved.
pub proof fn law_saved_is_loaded(w: World, config: ConfigView)
    ensures
        ({
            let saved = passed(save_steps(config), 0, w);
            &&& saved is Some
            &&& reply_of(saved.unwrap().0, ActionOf::LoadConfig) == (ReplyView::Config { config })
        }),
{
    reveal_with_fuel(passed, 4);
}

// -------------------------------------------------------------------- the network

/// The host after the network of a distribution was cleaned up.
pub open spec fn cleaned(w: World, name: Seq<char>) -> World {
    World {
        links: w.links.remove(veth(name)),
        tables: w.tables.remove(nat_table(name)),
        mounts: if w.files.contains_key(netns_file(name)) {
            w.mounts.remove(netns_file(name))
        } else {
            w.mounts
        },
        files: w.files.remove(netns_file(name)),
        ..w
    }
}

/// The programs that are run have different names.
proof fn lemma_programs()
    ensures
        "ip"@ != "nft"@,
        "ip"@ != "umount"@,
        "ip"@ != "pkill"@,
        "ip"@ != "chown"@,
        "nft"@ != "umount"@,
        "nft"@ != "pkill"@,
        "nft"@ != "chown"@,
        "umount"@ != "pkill"@,
        "umount"@ != "chown"@,
        "add"@ != "del"@,
        "add"@ != "delete"@,
{
    reveal_strlit("ip");
    reveal_strlit("nft");
    reveal_strlit("umount");
    reveal_strlit("pkill");
    reveal_strlit("chown");
    reveal_strlit("add");
    reveal_strlit("del");
    reveal_strlit("delete");
    assert("ip"@.len() == 2 && "nft"@.len() == 3 && "umount"@.len() == 6);
    assert("pkill"@.len() == 5 && "chown"@.len() == 5);
    assert("add"@[0] != "del"@[0]);
}

/// Cleaning up the network of a distribution takes away its cable, its table of
/// translation rules and its namespace file, and nothing else; doing it once more
/// changes nothing more.
pub proof fn law_cleanup_happens_once(w: World, name: Seq<char>)
    ensures
        passed(cleanup_steps(name), 0, w) matches Some((after, reply)) && after == cleaned(w, name),
        cleaned(cleaned(w, name), name) == cleaned(w, name),
        !cleaned(w, name).links.contains(veth(name)),
        !cleaned(w, name).tables.contains(nat_table(name)),
        !cleaned(w, name).files.contains_key(netns_file(name)),
{
    lemma_cleanup(w, name);
    assert(cleaned(cleaned(w, name), name) =~= cleaned(w, name));
}

proof fn lemma_cleanup(w: World, name: Seq<char>)
    ensures
        passed(cleanup_steps(name), 0, w) matches Some((after, reply)) && after == cleaned(w, name),
{
    lemma_programs();
    let steps = cleanup_steps(name);
    assert(steps.len() == 7);
    let w1 = performed(w, steps[0].action);
    let w2 = performed(w1, steps[1].action);
    let w3 = performed(w2, steps[2].action);
    let w4 = performed(w3, steps[3].action);
    assert(w1 == w && w2 == w);
    assert(w3 == (World { tables: w.tables.remove(nat_table(name)), ..w }));
    assert(w4 == (World { links: w.links.remove(veth(name)), ..w3 }));
    reveal_with_fuel(passed, 8);
    if w.files.contains_key(netns_file(name)) {
        let w5 = performed(w4, steps[5].action);
        assert(w5 == (World { mounts: w4.mounts.remove(netns_file(name)), ..w4 }));
        let w6 = performed(w5, steps[6].action);
        assert(w6 =~= cleaned(w, name));
    } else {
        assert(w4 =~= cleaned(w, name)) by {
            assert(w.files.remove(netns_file(name)) =~= w.files);
        }
    }
}

// --------------------------------------------------------------------- stopping

/// Looking for the init process of a distribution finds the one that is there, if
/// there is one; what is written down of a process that is gone is removed.
pub proof fn law_lookup_tells_the_truth(w: World, name: Seq<char>) -> (n: nat)
    ensures
        run_on::<LookupStage>(lookup_task(name), w, n).0 == (TaskView::<LookupStageView>::Over {
            result: Ok(ValueOf::Located { found: init_of(w, name) }),
        }),
        run_on::<LookupStage>(lookup_task(name), w, n).1 == looked_up(w, name),
{
    reveal_with_fuel(run_on, 5);
    let there = w.files.contains_key(pid_file(name));
    if !there {
        1
    } else if !valid_utf8(w.files[pid_file(name)]) {
        2
    } else {
        match recorded_pid(decode_utf8(w.files[pid_file(name)])) {
            None => 2,
            Some(pid) => if w.files.contains_key(proc_ns(pid, "uts"@)) {
                3
            } else {
                4
            },
        }
    }
}

/// Steps that can leave out only steps among themselves.
pub open spec fn contained(steps: Seq<StepView>) -> bool {
    forall|i: int| 0 <= i < steps.len() ==> i + reach(#[trigger] steps[i]) < steps.len()
}

/// Behind other steps, steps are passed as they are alone.
proof fn lemma_passed_behind(a: Seq<StepView>, b: Seq<StepView>, j: int, w: World)
    requires
        0 <= j <= b.len(),
    ensures
        passed(a + b, a.len() + j, w) == passed(b, j, w),
    decreases b.len() - j,
{
    if j < b.len() {
        assert((a + b)[a.len() + j] == b[j]);
        if let FlowOf::Advance { skip } = led_by(b[j].rule, reply_of(w, b[j].action)) {
            if j + 1 + skip < b.len() {
                lemma_passed_behind(a, b, j + 1 + skip, performed(w, b[j].action));
            }
        }
    }
}

/// Steps followed by others are passed one list after the other.
proof fn lemma_passed_add(
    a: Seq<StepView>,
    b: Seq<StepView>,
    at: int,
    w: World,
    mid: World,
    reply: ReplyView,
)
    requires
        contained(a),
        b.len() > 0,
        passed(a, at, w) == Some((mid, reply)),
    ensures
        passed(a + b, at, w) == passed(b, 0, mid),
    decreases a.len() - at,
{
    let action = a[at].action;
    assert((a + b)[at] == a[at]);
    if let FlowOf::Advance { skip } = led_by(a[at].rule, reply_of(w, action)) {
        assert(skip <= reach(a[at]));
        if at + 1 + skip < a.len() {
            lemma_passed_add(a, b, at + 1 + skip, performed(w, action), mid, reply);
        } else {
            lemma_passed_behind(a, b, 0, mid);
        }
    }
}

/// The host after the guest's files were taken out of the home and its init process
/// was looked for.
pub open spec fn unmapped(w: World, name: Seq<char>) -> World {
    looked_up(
        if w.files.contains_key(host_mount(w.home, name)) {
            World { mounts: w.mounts.remove(host_mount(w.home, name)), ..w }
        } else {
            w
        },
        name,
    )
}

/// The host after an init process was killed and what told of it was removed.
pub open spec fn struck(w: World, name: Seq<char>, pid: u32) -> World {
    World {
        files: w.files.remove(proc_ns(pid, "uts"@)).remove(pid_file(name)),
        killed: w.killed.insert(pid),
        mounts: w.mounts.remove(distro_path(name, "merged"@)),
        ..w
    }
}

/// The host after a distribution was stopped: the init process, if it was there, was
/// killed, what told of it was removed, and the network was cleaned up.
pub open spec fn stopped(w: World, name: Seq<char>) -> World {
    match init_of(w, name) {
        Some(pid) => cleaned(struck(unmapped(w, name), name, pid), name),
        None => cleaned(unmapped(w, name), name),
    }
}

proof fn lemma_unmap(w: World, name: Seq<char>)
    ensures
        passed(unmap_steps(name, w.home), 0, w) == Some(
            (unmapped(w, name), ReplyView::Located { found: init_of(w, name) }),
        ),
{
    reveal_with_fuel(passed, 5);
    let steps = unmap_steps(name, w.home);
    assert(steps.len() == 4);
}

proof fn lemma_kill(w: World, name: Seq<char>, pid: u32)
    ensures
        passed(kill_steps(name, pid), 0, w) matches Some((after, reply)) && after == struck(
            w,
            name,
            pid,
        ),
        contained(kill_steps(name, pid)),
        contained(cleanup_steps(name)),
{
    reveal_with_fuel(passed, 7);
    let steps = kill_steps(name, pid);
    assert(steps.len() == 6);
    assert(cleanup_steps(name).len() == 7);
    let w1 = World {
        files: w.files.remove(proc_ns(pid, "uts"@)),
        killed: w.killed.insert(pid),
        ..w
    };
    assert(performed(w, steps[1].action) == w1);
    if !w1.files.contains_key(pid_file(name)) {
        assert(w1.files.remove(pid_file(name)) =~= w1.files);
    }
    assert(performed(
        World { files: w1.files.remove(pid_file(name)), ..w1 },
        steps[5].action,
    ) =~= struck(w, name, pid));
}

proof fn lemma_stop_steps(w: World, name: Seq<char>, pid: u32)
    ensures
        passed(stop_steps(name, pid), 0, w) matches Some((after, reply)) && after == cleaned(
            struck(w, name, pid),
            name,
        ),
{
    lemma_kill(w, name, pid);
    let a = kill_steps(name, pid);
    let b = cleanup_steps(name);
    let (mid, r) = passed(a, 0, w).unwrap();
    lemma_passed_add(a, b, 0, w, mid, r);
    lemma_cleanup(mid, name);
    let (end, q) = passed(b, 0, mid).unwrap();
    let said = stop_steps(name, pid).last();
    let c = Seq::empty().push(said);
    assert(stop_steps(name, pid) =~= (a + b) + c);
    assert(contained(a + b)) by {
        assert forall|i: int| 0 <= i < (a + b).len() implies i + reach(#[trigger] (a + b)[i]) < (a
            + b).len() by {
            if i < a.len() {
                assert((a + b)[i] == a[i]);
            } else {
                assert((a + b)[i] == b[i - a.len()]);
            }
        }
    }
    lemma_passed_add(a + b, c, 0, w, end, q);
    reveal_with_fuel(passed, 2);
}

proof fn lemma_idle_steps(w: World, name: Seq<char>)
    ensures
        passed(idle_steps(name), 0, w) matches Some((after, reply)) && after == cleaned(w, name),
{
    let said = idle_steps(name)[0];
    let a = Seq::empty().push(said);
    let b = cleanup_steps(name);
    assert(idle_steps(name) =~= a + b);
    reveal_with_fuel(passed, 2);
    assert(passed(a, 0, w) == Some((w, ReplyView::Done)));
    lemma_passed_add(a, b, 0, w, w, ReplyOf::Done);
    lemma_cleanup(w, name);
}

/// A stop succeeds, of a distribution that runs as of one that does not. It kills the
/// init process if there is one, and no other; afterwards none is found, and the
/// network is cleaned up.
pub proof fn law_stopped_is_gone(w: World, name: Seq<char>) -> (n: nat)
    ensures
        run_on::<StopStage>(stop_task(name), w, n).0 == (TaskView::<StopStageView>::Over {
            result: Ok(ValueOf::Nothing),
        }),
        run_on::<StopStage>(stop_task(name), w, n).1 == stopped(w, name),
        init_of(stopped(w, name), name) is None,
        stopped(w, name).killed == (match init_of(w, name) {
            Some(pid) => w.killed.insert(pid),
            None => w.killed,
        }),
        stopped(w, name) == cleaned(stopped(w, name), name),
{
    let t = stop_task(name);
    let start = no_steps().push(attempt(ActionOf::AskHome));
    reveal_with_fuel(passed, 2);
    let n1 = lemma_then::<StopStage>(
        t,
        w,
        0,
        StopStageOf::Home { name },
        start,
        w,
        w,
        ReplyOf::Text { text: w.home },
    );
    lemma_unmap(w, name);
    let mid = unmapped(w, name);
    let n2 = lemma_then::<StopStage>(
        t,
        w,
        n1,
        StopStageOf::Find { name },
        unmap_steps(name, w.home),
        w,
        mid,
        ReplyOf::Located { found: init_of(w, name) },
    );
    let after = stopped(w, name);
    assert(cleaned(after, name) =~= after);
    match init_of(w, name) {
        Some(pid) => {
            lemma_stop_steps(mid, name, pid);
            let (end, reply) = passed(stop_steps(name, pid), 0, mid).unwrap();
            assert(!end.files.contains_key(pid_file(name)));
            lemma_then::<StopStage>(
                t,
                w,
                n2,
                StopStageOf::Kill,
                stop_steps(name, pid),
                mid,
                end,
                reply,
            )
        },
        None => {
            lemma_idle_steps(mid, name);
            let (end, reply) = passed(idle_steps(name), 0, mid).unwrap();
            assert(init_of(mid, name) is None);
            lemma_then::<StopStage>(
                t,
                w,
                n2,
                StopStageOf::Idle,
                idle_steps(name),
                mid,
                end,
                reply,
            )
        },
    }
}

// ---------------------------------------------------------------- booting

/// The world in which the first `n` actions of a task have been performed.
pub open spec fn world_after<P: Plan>(
    w: World,
    t: TaskView<P::V>,
    replies: spec_fn(nat) -> ReplyView,
    n: nat,
) -> World
    decreases n,
{
    if n == 0 {
        w
    } else {
        let m = (n - 1) as nat;
        match pending(after_replies::<P>(t, replies, m)) {
            Some(action) => performed(world_after::<P>(w, t, replies, m), action),
            None => world_after::<P>(w, t, replies, m),
        }
    }
}

/// What was written down before the boot was over is in the file ever after.
proof fn lemma_record_in_the_file(
    w: World,
    name: Seq<char>,
    pid: u32,
    replies: spec_fn(nat) -> ReplyView,
    k: nat,
    m: nat,
    n: nat,
)
    requires
        recorded_by(name, pid, replies, k, m),
        after_replies::<BootStage>(boot_task(name), replies, m) is Over,
        k < n,
    ensures
        n >= m ==> after_replies::<BootStage>(boot_task(name), replies, n) is Over,
        world_after::<BootStage>(w, boot_task(name), replies, n).files.contains_pair(
            pid_file(name),
            encode_utf8(decimal(pid as nat)),
        ),
    decreases n,
{
    if k + 1 < n {
        lemma_record_in_the_file(w, name, pid, replies, k, m, (n - 1) as nat);
    }
}

/// Whatever the host replies, a boot that succeeds leaves the number of the init process
/// where looking for it finds it, as long as the process is there.
pub proof fn law_booted_is_found(
    w: World,
    name: Seq<char>,
    pid: u32,
    replies: spec_fn(nat) -> ReplyView,
    n: nat,
)
    requires
        after_replies::<BootStage>(boot_task(name), replies, n) == (TaskView::<
            BootStageView,
        >::Over { result: Ok(ValueOf::Pid { pid }) }),
        world_after::<BootStage>(w, boot_task(name), replies, n).files.contains_key(
            proc_ns(pid, "uts"@),
        ),
    ensures
        init_of(world_after::<BootStage>(w, boot_task(name), replies, n), name) == Some(pid),
{
    broadcast use {encode_utf8_valid_utf8, encode_utf8_decode_utf8};

    let m = law_booted_is_written_down(name, pid, replies, n);
    let k = choose|k: nat| #[trigger] recorded_by(name, pid, replies, k, m);
    lemma_record_in_the_file(w, name, pid, replies, k, m, n);
}

// ---------------------------------------------------------------- making a user

/// The file of the root file system in which users are allowed to become the
/// superuser.
pub open spec fn sudoers_file(root: Seq<char>) -> Seq<char> {
    path_join(path_join(root, "etc/sudoers.d"@), "lsl-user"@)
}

/// The host after some text was appended to a file.
pub open spec fn appended(w: World, path: Seq<char>, text: Seq<char>) -> World {
    World { files: w.files.insert(path, w.files[path] + encode_utf8(text)), ..w }
}

/// The host after a text was written to a file.
pub open spec fn written(w: World, path: Seq<char>, text: Seq<char>) -> World {
    World { files: w.files.insert(path, encode_utf8(text)), ..w }
}

/// The host after a user was added to the account files, unless the user is known.
pub open spec fn listed(w: World, seat: SeatView) -> World {
    let passwd = path_join(seat.root, "etc/passwd"@);
    if user_known(w.files[passwd], seat.user) {
        w
    } else {
        let w1 = appended(w, passwd, passwd_line(seat.user, seat.uid, seat.gid).push('\n'));
        let w2 = appended(
            w1,
            path_join(seat.root, "etc/group"@),
            group_line(seat.user, seat.gid).push('\n'),
        );
        appended(w2, path_join(seat.root, "etc/shadow"@), shadow_line(seat.user).push('\n'))
    }
}

/// The host after a user was allowed to become the superuser.
pub open spec fn allowed(w: World, seat: SeatView, groups: Option<Seq<char>>) -> World {
    let w1 = match groups {
        Some(text) => written(w, path_join(seat.root, "etc/group"@), text),
        None => w,
    };
    let w2 = written(
        w1,
        sudoers_file(seat.root),
        seat.user + " ALL=(ALL:ALL) NOPASSWD: ALL\n"@,
    );
    written(w2, path_join(seat.root, "etc/hosts"@), hosts_text("lsl-kali"@))
}

/// The account files are there.
pub open spec fn has_tables(w: World, root: Seq<char>) -> bool {
    &&& w.files.contains_key(path_join(root, "etc/passwd"@))
    &&& w.files.contains_key(path_join(root, "etc/group"@))
    &&& w.files.contains_key(path_join(root, "etc/shadow"@))
}

proof fn lemma_create(w: World, seat: SeatView)
    requires
        has_tables(w, seat.root),
        !user_known(w.files[path_join(seat.root, "etc/passwd"@)], seat.user),
    ensures
        passed(create_steps(seat), 0, w) == Some(
            (listed(w, seat), ReplyView::Exit { success: true }),
        ),
{
    lemma_programs();
    let steps = create_steps(seat);
    assert(steps.len() == 5);
    reveal_with_fuel(passed, 6);
    let w1 = performed(w, steps[0].action);
    let w2 = performed(w1, steps[1].action);
    let w3 = performed(w2, steps[2].action);
    assert(w3 == listed(w, seat));
    assert(performed(w3, steps[3].action) == w3);
    assert(performed(w3, steps[4].action) == w3);
}

proof fn lemma_sudo(w: World, seat: SeatView, groups: Option<Seq<char>>)
    ensures
        passed(sudo_steps(seat, groups), 0, w) == Some(
            (allowed(w, seat, groups), ReplyView::Done),
        ),
{
    reveal_with_fuel(passed, 6);
    let steps = sudo_steps(seat, groups);
    assert(groups is Some ==> steps.len() == 5);
    assert(groups is None ==> steps.len() == 4);
}

/// Up to reading the group table, making a user goes the same way in any case.
proof fn lemma_to_the_groups(w: World, seat: SeatView) -> (n: nat)
    requires
        has_tables(w, seat.root),
    ensures
        ({
            let after = listed(w, seat);
            run_on::<UserStage>(
                user_task(seat.root, seat.user, seat.uid, seat.gid),
                w,
                n,
            ) == (
                entered(
                    UserStage::next(
                        UserStageOf::GroupRead { seat },
                        ReplyOf::Bytes { bytes: after.files[path_join(seat.root, "etc/group"@)] },
                    ),
                ),
                after,
            )
        }),
{
    let t = user_task(seat.root, seat.user, seat.uid, seat.gid);
    let passwd = path_join(seat.root, "etc/passwd"@);
    let group = path_join(seat.root, "etc/group"@);
    let after = listed(w, seat);
    reveal_with_fuel(passed, 2);
    let first = no_steps().push(must(ActionOf::ReadBytes { path: passwd }));
    let bytes = w.files[passwd];
    let n1 = lemma_then::<UserStage>(
        t,
        w,
        0,
        UserStageOf::Passwd { seat },
        first,
        w,
        w,
        ReplyOf::Bytes { bytes },
    );
    let n2 = if user_known(bytes, seat.user) {
        n1
    } else {
        lemma_create(w, seat);
        lemma_then::<UserStage>(
            t,
            w,
            n1,
            UserStageOf::Create { seat },
            create_steps(seat),
            w,
            after,
            ReplyOf::Exit { success: true },
        )
    };
    let seek = no_steps().push(attempt(ActionOf::Exists { path: group }));
    let n3 = lemma_then::<UserStage>(
        t,
        w,
        n2,
        UserStageOf::Group { seat },
        seek,
        after,
        after,
        ReplyOf::Found { exists: true },
    );
    let read = no_steps().push(must(ActionOf::ReadBytes { path: group }));
    lemma_then::<UserStage>(
        t,
        w,
        n3,
        UserStageOf::GroupRead { seat },
        read,
        after,
        after,
        ReplyOf::Bytes { bytes: after.files[group] },
    )
}

/// Where the group table can be read, making a user succeeds.
proof fn lemma_user_made(w: World, seat: SeatView, groups: Option<Seq<char>>) -> (n: nat)
    requires
        has_tables(w, seat.root),
        regrouped(
            listed(w, seat).files[path_join(seat.root, "etc/group"@)],
            seat.user,
            "sudo"@,
        ) == Ok::<Option<Seq<char>>, FaultView>(groups),
    ensures
        run_on::<UserStage>(
            user_task(seat.root, seat.user, seat.uid, seat.gid),
            w,
            n,
        ).0 == (TaskView::<UserStageView>::Over { result: Ok(ValueOf::Nothing) }),
        run_on::<UserStage>(
            user_task(seat.root, seat.user, seat.uid, seat.gid),
            w,
            n,
        ).1 == allowed(listed(w, seat), seat, groups),
{
    let t = user_task(seat.root, seat.user, seat.uid, seat.gid);
    let after = listed(w, seat);
    let m = lemma_to_the_groups(w, seat);
    lemma_sudo(after, seat, groups);
    lemma_then::<UserStage>(
        t,
        w,
        m,
        UserStageOf::Sudo,
        sudo_steps(seat, groups),
        after,
        allowed(after, seat, groups),
        ReplyOf::Done,
    )
}

/// Different relative parts of a root file system have different paths.
proof fn lemma_paths_differ(root: Seq<char>, a: Seq<char>, b: Seq<char>)
    requires
        a != b,
        a.len() > 0 && a[0] != '/',
        b.len() > 0 && b[0] != '/',
    ensures
        path_join(root, a) != path_join(root, b),
{
    let stem = if root.len() == 0 || root.last() == '/' {
        root
    } else {
        root.push('/')
    };
    lemma_prefix_injective(stem, a, b);
}

/// The files that making a user touches are five different ones.
proof fn lemma_tables_differ(root: Seq<char>)
    ensures
        ({
            let passwd = path_join(root, "etc/passwd"@);
            let group = path_join(root, "etc/group"@);
            let shadow = path_join(root, "etc/shadow"@);
            let hosts = path_join(root, "etc/hosts"@);
            let sudoers = sudoers_file(root);
            &&& passwd != group && passwd != shadow && passwd != hosts && passwd != sudoers
            &&& group != shadow && group != hosts && group != sudoers
            &&& shadow != hosts && shadow != sudoers
            &&& hosts != sudoers
        }),
{
    reveal_strlit("etc/passwd");
    reveal_strlit("etc/group");
    reveal_strlit("etc/shadow");
    reveal_strlit("etc/hosts");
    reveal_strlit("etc/sudoers.d");
    reveal_strlit("lsl-user");
    let p = "etc/passwd"@;
    let g = "etc/group"@;
    let s = "etc/shadow"@;
    let h = "etc/hosts"@;
    let u = "etc/sudoers.d"@ + Seq::empty().push('/') + "lsl-user"@;
    assert(p.len() == 10 && g.len() == 9 && s.len() == 10 && h.len() == 9);
    assert("etc/sudoers.d"@.len() == 13 && u.len() == 22);
    assert(p[4] == 'p' && g[4] == 'g' && s[4] == 's' && h[4] == 'h' && u[4] == 's');
    assert(p[0] == 'e' && g[0] == 'e' && s[0] == 'e' && h[0] == 'e' && u[0] == 'e');
    assert("etc/sudoers.d"@.last() == 'd' && "lsl-user"@[0] == 'l');
    assert(sudoers_file(root) =~= path_join(root, u)) by {
        assert(path_join(root, "etc/sudoers.d"@).last() == 'd');
    }
    lemma_paths_differ(root, p, g);
    lemma_paths_differ(root, p, s);
    lemma_paths_differ(root, p, h);
    lemma_paths_differ(root, p, u);
    lemma_paths_differ(root, g, s);
    lemma_paths_differ(root, g, h);
    lemma_paths_differ(root, g, u);
    lemma_paths_differ(root, s, h);
    lemma_paths_differ(root, s, u);
    lemma_paths_differ(root, h, u);
}

/// Making a user whom the user table does not name adds one line to it, and that line
/// is the only one that names the user.
pub proof fn law_user_is_listed_once(w: World, seat: SeatView, groups: Option<Seq<char>>)
    requires
        !seat.user.contains('\n'),
        complete_bytes(w.files[path_join(seat.root, "etc/passwd"@)]),
    ensures
        ({
            let passwd = path_join(seat.root, "etc/passwd"@);
            let before = w.files[passwd];
            let after = allowed(listed(w, seat), seat, groups).files[passwd];
            let ls = lines_by(after, 10u8, 13u8);
            &&& user_known(after, seat.user)
            &&& user_known(before, seat.user) ==> after == before
            &&& !user_known(before, seat.user) ==> after == before + encode_utf8(
                passwd_line(seat.user, seat.uid, seat.gid).push('\n'),
            ) && forall|i: int|
                0 <= i < ls.len() ==> (names_user(#[trigger] ls[i], seat.user) <==> i == ls.len()
                    - 1)
        }),
{
    lemma_tables_differ(seat.root);
    let passwd = path_join(seat.root, "etc/passwd"@);
    law_added_user_is_known(w.files[passwd], seat.user, seat.uid, seat.gid);
}

/// Making the same user twice leaves everything as making the user once does: when the
/// first time has succeeded, the second succeeds too and changes nothing, neither in
/// the user, group, password and host tables nor in the file that lets the user become
/// the superuser. The user table must have ended in a line end, and the name must
/// hold no line end and not end in a carriage return.
pub proof fn law_second_user_setup_changes_nothing(w: World, seat: SeatView, n: nat) -> (m: nat)
    requires
        plain_line(seat.user),
        has_tables(w, seat.root),
        complete_bytes(w.files[path_join(seat.root, "etc/passwd"@)]),
        run_on::<UserStage>(
            user_task(seat.root, seat.user, seat.uid, seat.gid),
            w,
            n,
        ).0 == (TaskView::<UserStageView>::Over { result: Ok(ValueOf::Nothing) }),
    ensures
        ({
            let t = user_task(seat.root, seat.user, seat.uid, seat.gid);
            let once = run_on::<UserStage>(t, w, n).1;
            let twice = run_on::<UserStage>(t, once, m);
            &&& twice.0 == (TaskView::<UserStageView>::Over { result: Ok(ValueOf::Nothing) })
            &&& twice.1 == once
        }),
{
    let t = user_task(seat.root, seat.user, seat.uid, seat.gid);
    let passwd = path_join(seat.root, "etc/passwd"@);
    let group = path_join(seat.root, "etc/group"@);
    let table = listed(w, seat).files[group];
    lemma_tables_differ(seat.root);
    match regrouped(table, seat.user, "sudo"@) {
        Err(f) => {
            let k = lemma_to_the_groups(w, seat);
            lemma_one_end::<UserStage>(t, w, n, k);
            0
        },
        Ok(groups) => {
            let k = lemma_user_made(w, seat, groups);
            lemma_one_end::<UserStage>(t, w, n, k);
            let once = allowed(listed(w, seat), seat, groups);
            law_user_is_listed_once(w, seat, groups);
            assert(listed(once, seat) == once);
            if let Some(text) = groups {
                law_regrouping_is_idempotent(table, seat.user, "sudo"@, text);
                assert(once.files[group] == encode_utf8(text));
            } else {
                assert(once.files[group] == table);
            }
            assert(allowed(once, seat, None) =~= once) by {
                assert(once.files.contains_key(sudoers_file(seat.root)));
                assert(once.files.contains_key(path_join(seat.root, "etc/hosts"@)));
                assert(allowed(once, seat, None).files =~= once.files);
            }
            lemma_user_made(once, seat, None)
        },
    }
}

} // verus!
