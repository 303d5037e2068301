//! How a guest is connected to the network.
//!
//! There are three ways. A guest that asks for DHCP is bridged to the host's
//! interface and gets an address from the local network. Where that fails, it is
//! given an address of the host's own subnet, for which the host answers (proxy
//! ARP). A guest with an address outside of that subnet goes through a private
//! subnet and address translation.
use vstd::prelude::*;

use crate::action::{
    capture, command, fault, line, no_words, query, run, words, Action, ActionOf, ActionView, Fault,
    FaultKind, FaultOf, FaultView, Reply, ReplyOf, ReplyView, Style, ValueOf, Words,
};
use crate::config::{get_merged_path, merged_path};
use crate::task::{
    after_replies, attempt, checked, entered, failing, giving, goes_on, guarded, heard, heedless,
    law_heedless_stage_ends, led_by, lemma_heard_grows, must, needed, no_steps, only_if, pending,
    resumed, started, turned, FlowOf, Plan, RuleOf, StepView, Steps, Task, TaskOf, TaskView, Turn,
    TurnOf, TurnView,
};
use crate::text::{
    contains, decimal, decode_lossy, fields, format_decimal, holds, is_digit, joined,
    law_fields_join, law_join_fields, lemma_decimal, lemma_prefix_injective, lemma_suffix_injective,
    lines, lossy_text, number, parse_u32, same, split_fields, split_lines, split_words, texts,
};

verus! {

// ------------------------------------------------------------------------ names

/// The network namespace of a guest.
pub open spec fn netns(name: Seq<char>) -> Seq<char> {
    "lsl-"@ + name
}

/// Names the network namespace of a guest.
pub fn netns_name(name: &str) -> (r: String)
    ensures
        r@ == netns(name@),
{
    "lsl-".to_owned().concat(name)
}

/// The file that keeps the network namespace of a guest.
pub open spec fn netns_file(name: Seq<char>) -> Seq<char> {
    "/var/run/netns/"@ + netns(name)
}

/// Names the file that keeps the network namespace of a guest.
pub fn netns_path(name: &str) -> (r: String)
    ensures
        r@ == netns_file(name@),
{
    "/var/run/netns/".to_owned().concat(netns_name(name).as_str())
}

/// The host's end of the cable to a guest.
pub open spec fn veth(name: Seq<char>) -> Seq<char> {
    "lsl-v-"@ + name + "-0"@
}

/// Names the host's end of the cable to a guest.
pub fn veth_host(name: &str) -> (r: String)
    ensures
        r@ == veth(name@),
{
    "lsl-v-".to_owned().concat(name).concat("-0")
}

/// The interface that bridges a guest to the local network.
pub open spec fn ipvlan(name: Seq<char>) -> Seq<char> {
    "lsl-ipvl-"@ + name
}

/// Names the interface that bridges a guest to the local network.
pub fn ipvlan_interface(name: &str) -> (r: String)
    ensures
        r@ == ipvlan(name@),
{
    "lsl-ipvl-".to_owned().concat(name)
}

/// The table of address translation rules of a guest.
pub open spec fn nat_table(name: Seq<char>) -> Seq<char> {
    "lsl-"@ + name
}

/// The file of a namespace of a process.
pub open spec fn proc_ns(pid: u32, kind: Seq<char>) -> Seq<char> {
    "/proc/"@ + decimal(pid as nat) + "/ns/"@ + kind
}

/// Names the file of a namespace of a process.
pub fn namespace_path(pid: u32, kind: &str) -> (r: String)
    ensures
        r@ == proc_ns(pid, kind@),
{
    "/proc/".to_owned().concat(format_decimal(pid).as_str()).concat("/ns/").concat(kind)
}

/// The file that a guest has once its account was set up.
pub open spec fn setup_flag(name: Seq<char>) -> Seq<char> {
    merged_path(name, "etc/lsl_setup_completed"@)
}

/// Names the file that a guest has once its account was set up.
pub fn setup_flag_path(name: &str) -> (r: String)
    ensures
        r@ == setup_flag(name@),
{
    get_merged_path(name, "etc/lsl_setup_completed")
}

// -------------------------------------------------------------------- addresses

/// Two addresses of four parts each that share the first three.
pub open spec fn same_subnet(a: Seq<char>, b: Seq<char>) -> bool {
    &&& fields(a, '.').len() == 4
    &&& fields(b, '.').len() == 4
    &&& fields(a, '.').take(3) == fields(b, '.').take(3)
}

/// Tells whether two addresses are in one subnet.
pub fn are_ips_in_same_subnet(ip1: &str, ip2: &str) -> (r: bool)
    ensures
        r == same_subnet(ip1@, ip2@),
{
    let a: Vec<String> = split_fields(ip1, '.');
    let b: Vec<String> = split_fields(ip2, '.');
    let ghost fa = fields(ip1@, '.');
    let ghost fb = fields(ip2@, '.');
    assert(fa.len() == a@.len() && fb.len() == b@.len());
    if a.len() == 4 && b.len() == 4 {
        assert forall|i: int| 0 <= i < 4 implies fa[i] == a@[i]@ && fb[i] == b@[i]@ by {
            assert(texts(a@)[i] == a@[i]@);
            assert(texts(b@)[i] == b@[i]@);
        }
        let mut i: usize = 0;
        while i < 3
            invariant
                i <= 3,
                a@.len() == 4,
                b@.len() == 4,
                fa.len() == 4,
                fb.len() == 4,
                fa == fields(ip1@, '.'),
                fb == fields(ip2@, '.'),
                forall|j: int| 0 <= j < 4 ==> #[trigger] fa[j] == a@[j]@,
                forall|j: int| 0 <= j < 4 ==> #[trigger] fb[j] == b@[j]@,
                forall|j: int| 0 <= j < i ==> #[trigger] fa[j] == fb[j],
            decreases 3 - i,
        {
            if !same(a[i].as_str(), b[i].as_str()) {
                assert(fa.take(3)[i as int] != fb.take(3)[i as int]);
                return false;
            }
            assert(fa[i as int] == fb[i as int]);
            i = i + 1;
        }
        assert(fa.take(3) =~= fb.take(3));
        true
    } else {
        false
    }
}

/// By how much the last part of the host's address is moved, try by try.
pub open spec fn offset(k: int) -> int {
    if k == 0 {
        100
    } else if k == 1 {
        150
    } else if k == 2 {
        200
    } else if k == 3 {
        50
    } else {
        80
    }
}

/// How many addresses are tried.
pub const TRIES: usize = 5;

/// The last part of the address that is tried; zero gives way to 253.
pub open spec fn octet(last: u32, k: int) -> nat {
    let moved = (last + offset(k)) % 254;
    if moved == 0 {
        253
    } else {
        moved as nat
    }
}

/// An address of the subnet that the first three parts name.
pub open spec fn in_subnet(parts: Seq<Seq<char>>, last: Seq<char>) -> Seq<char> {
    parts[0] + "."@ + parts[1] + "."@ + parts[2] + "."@ + last
}

/// The address that is tried.
pub open spec fn candidate(parts: Seq<Seq<char>>, last: u32, k: int) -> Seq<char> {
    in_subnet(parts, decimal(octet(last, k)))
}

/// The address that is taken when none that was tried is free.
pub open spec fn spare(parts: Seq<Seq<char>>) -> Seq<char> {
    in_subnet(parts, "222"@)
}

/// Puts an address together.
fn make_ip(parts: &Vec<String>, last: &str) -> (r: String)
    requires
        parts@.len() >= 3,
    ensures
        r@ == in_subnet(texts(parts@), last@),
{
    assert(texts(parts@)[0] == parts@[0]@);
    assert(texts(parts@)[1] == parts@[1]@);
    assert(texts(parts@)[2] == parts@[2]@);
    parts[0].clone().concat(".").concat(parts[1].as_str()).concat(".").concat(
        parts[2].as_str(),
    ).concat(".").concat(last)
}

/// Computes the offset of a try.
fn offset_of(k: usize) -> (r: u32)
    ensures
        r == offset(k as int),
{
    if k == 0 {
        100
    } else if k == 1 {
        150
    } else if k == 2 {
        200
    } else if k == 3 {
        50
    } else {
        80
    }
}

/// The steps that tell whether an address is in use.
pub open spec fn ping_steps(ip: Seq<char>) -> Seq<StepView> {
    no_steps().push(
        attempt(
            command(
                "ping"@,
                no_words().push("-c"@).push("1"@).push("-W"@).push("1"@).push(ip),
            ),
        ),
    )
}

/// Makes the steps that tell whether an address is in use.
fn ping(ip: &str) -> (r: Steps)
    ensures
        r@ == ping_steps(ip@),
{
    Steps::new().attempt(run("ping", words().with("-c").with("1").with("-W").with("1").with(ip)))
}

// ----------------------------------------------------------------------- routes

/// The destination that stands for the default route in the kernel's table.
pub open spec fn is_default_route(line: Seq<char>) -> bool {
    crate::text::words(line).len() >= 2 && crate::text::words(line)[1] == "00000000"@
}

/// The interface of the first default route among the lines from `i` on.
pub open spec fn interface_from(ls: Seq<Seq<char>>, i: int) -> Option<Seq<char>>
    decreases ls.len() - i,
{
    if i < 0 || i >= ls.len() {
        None
    } else if is_default_route(ls[i]) {
        Some(crate::text::words(ls[i])[0])
    } else {
        interface_from(ls, i + 1)
    }
}

/// The interface of the default route in the kernel's table, whose first line is
/// a heading.
pub open spec fn default_interface(table: Seq<char>) -> Option<Seq<char>> {
    interface_from(lines(table), 1)
}

/// Finds the interface of the default route.
pub fn get_default_host_interface(table: &str) -> (r: Result<String, Fault>)
    ensures
        match r {
            Ok(dev) => default_interface(table@) == Some(dev@),
            Err(f) => default_interface(table@) is None && f@ == (FaultOf {
                kind: FaultKind::NotFound,
                message: "No default host network interface found"@,
            }),
        },
{
    let all: Vec<String> = split_lines(table);
    let ghost ls = lines(table@);
    assert(ls.len() == all@.len());
    let mut i: usize = 1;
    while i < all.len()
        invariant
            1 <= i,
            ls == lines(table@),
            texts(all@) == ls,
            ls.len() == all@.len(),
            interface_from(ls, 1) == interface_from(ls, i as int),
        decreases all@.len() - i,
    {
        let parts: Vec<String> = split_words(all[i].as_str());
        assert(texts(all@)[i as int] == all@[i as int]@);
        let ghost ws = crate::text::words(ls[i as int]);
        assert(ws.len() == parts@.len());
        if parts.len() >= 2 {
            assert(texts(parts@)[0] == parts@[0]@);
            assert(texts(parts@)[1] == parts@[1]@);
            if same(parts[1].as_str(), "00000000") {
                return Ok(parts[0].clone());
            }
        }
        i = i + 1;
    }
    Err(fault(FaultKind::NotFound, "No default host network interface found"))
}

/// The word behind the last occurrence of `key` that has one.
pub open spec fn value_after(ws: Seq<Seq<char>>, key: Seq<char>) -> Seq<char>
    decreases ws.len(),
{
    if ws.len() < 2 {
        Seq::empty()
    } else if ws[ws.len() - 2] == key {
        ws.last()
    } else {
        value_after(ws.drop_last(), key)
    }
}

/// Finds the word behind a key.
fn find_after(ws: &Vec<String>, key: &str) -> (r: String)
    ensures
        r@ == value_after(texts(ws@), key@),
{
    let ghost all = texts(ws@);
    let mut n: usize = ws.len();
    assert(all.take(n as int) =~= all);
    while n >= 2
        invariant
            n <= ws@.len(),
            all == texts(ws@),
            value_after(all, key@) == value_after(all.take(n as int), key@),
        decreases n,
    {
        assert(all.take(n as int)[n - 2] == ws@[n - 2]@);
        assert(all.take(n as int).last() == ws@[n - 1]@);
        if same(ws[n - 2].as_str(), key) {
            return ws[n - 1].clone();
        }
        assert(all.take(n as int).drop_last() =~= all.take(n - 1));
        n = n - 1;
    }
    String::new()
}

/// What the routing tool answered when it was asked for the way out.
pub enum RouteOf<T> {
    /// Nothing.
    Silent,
    /// A line that does not name both an interface and an address.
    Partial,
    /// The interface, the address of the host on it, and the next hop.
    Complete { dev: T, src: T, via: T },
}

pub type Route = RouteOf<String>;

pub type RouteView = RouteOf<Seq<char>>;

impl View for Route {
    type V = RouteView;

    open spec fn view(&self) -> RouteView {
        match *self {
            RouteOf::Silent => RouteOf::Silent,
            RouteOf::Partial => RouteOf::Partial,
            RouteOf::Complete { dev, src, via } => RouteOf::Complete {
                dev: dev@,
                src: src@,
                via: via@,
            },
        }
    }
}

/// How the answer of the routing tool reads: only its first line counts.
pub open spec fn route_of(answer: Seq<char>) -> RouteView {
    let ls = lines(answer);
    if ls.len() == 0 {
        RouteOf::Silent
    } else {
        let ws = crate::text::words(ls[0]);
        let dev = value_after(ws, "dev"@);
        let src = value_after(ws, "src"@);
        if dev.len() == 0 || src.len() == 0 {
            RouteOf::Partial
        } else {
            RouteOf::Complete { dev, src, via: value_after(ws, "via"@) }
        }
    }
}

/// Reads the answer of the routing tool.
pub fn read_route(answer: &str) -> (r: Route)
    ensures
        r@ == route_of(answer@),
{
    let all: Vec<String> = split_lines(answer);
    assert(lines(answer@).len() == all@.len());
    if all.len() == 0 {
        return RouteOf::Silent;
    }
    assert(texts(all@)[0] == all@[0]@);
    let ws: Vec<String> = split_words(all[0].as_str());
    let dev: String = find_after(&ws, "dev");
    let src: String = find_after(&ws, "src");
    if dev.as_str().is_empty() || src.as_str().is_empty() {
        RouteOf::Partial
    } else {
        RouteOf::Complete { dev, src, via: find_after(&ws, "via") }
    }
}

/// The address that is assumed where the host's own is not known.
pub open spec fn assumed_address() -> Seq<char> {
    "10.0.0.1"@
}

/// The route out of the host: interface, address, next hop. Where the tool's
/// answer is incomplete, the interface comes from the kernel's table.
pub open spec fn route_details(
    answer: Seq<char>,
    table: Option<Seq<char>>,
) -> Result<(Seq<char>, Seq<char>, Seq<char>), FaultView> {
    match route_of(answer) {
        RouteOf::Silent => Err(
            FaultOf { kind: FaultKind::Other, message: "Failed to get default route"@ },
        ),
        RouteOf::Complete { dev, src, via } => Ok((dev, src, via)),
        RouteOf::Partial => match table {
            Some(t) if default_interface(t) is Some => Ok(
                (default_interface(t)->0, assumed_address(), assumed_address()),
            ),
            _ => Err(
                FaultOf {
                    kind: FaultKind::Other,
                    message: "Failed to parse default route details"@,
                },
            ),
        },
    }
}

/// Finds the route out of the host, given what the routing tool wrote and the
/// kernel's table, if that could be read.
pub fn get_default_route_details(output: &[u8], table: Option<&str>) -> (r: Result<
    (String, String, String),
    Fault,
>)
    ensures
        ({
            let known = route_details(
                lossy_text(output@),
                match table {
                    Some(t) => Some(t@),
                    None => None,
                },
            );
            match r {
                Ok(x) => known == Ok::<_, FaultView>((x.0@, x.1@, x.2@)),
                Err(f) => known == Err::<(Seq<char>, Seq<char>, Seq<char>), _>(f@),
            }
        }),
{
    let answer: String = decode_lossy(output);
    match read_route(answer.as_str()) {
        RouteOf::Silent => Err(fault(FaultKind::Other, "Failed to get default route")),
        RouteOf::Complete { dev, src, via } => Ok((dev, src, via)),
        RouteOf::Partial => {
            match table {
                Some(t) => {
                    match get_default_host_interface(t) {
                        Ok(dev) => {
                            return Ok((dev, "10.0.0.1".to_owned(), "10.0.0.1".to_owned()));
                        },
                        Err(_) => {},
                    }
                },
                None => {},
            }
            Err(fault(FaultKind::Other, "Failed to parse default route details"))
        },
    }
}

// ------------------------------------------------------------------------ steps

/// What is to be connected: the guest, its init process, the address it is to
/// have, or `dhcp`, and its hardware address.
pub struct LinkOf<T> {
    pub name: T,
    pub pid: u32,
    pub ip: T,
    pub mac: T,
}

pub type Link = LinkOf<String>;

pub type LinkView = LinkOf<Seq<char>>;

impl View for Link {
    type V = LinkView;

    open spec fn view(&self) -> LinkView {
        LinkOf { name: self.name@, pid: self.pid, ip: self.ip@, mac: self.mac@ }
    }
}

/// The words of a command in the network namespace of a guest, up to the command.
pub open spec fn inside(name: Seq<char>) -> Seq<Seq<char>> {
    no_words().push("netns"@).push("exec"@).push(netns(name))
}

/// Starts a command in the network namespace of a guest.
fn in_netns(name: &str) -> (r: Words)
    ensures
        r@ == inside(name@),
{
    words().with("netns").with("exec").with(netns_name(name).as_str())
}

/// Keeping the network namespace, and asking whether the account was set up.
pub open spec fn prepare_steps(name: Seq<char>, pid: u32) -> Seq<StepView> {
    no_steps().push(
        attempt(
            line(
                Style::Blue,
                "Configuring network for distro '"@ + name + "' (PID: "@ + decimal(pid as nat)
                    + ")..."@,
            ),
        ),
    ).push(must(ActionOf::CreateDirs { path: "/var/run/netns"@ })).push(
        only_if(netns_file(name), false, 1),
    ).push(must(ActionOf::CreateFile { path: netns_file(name) })).push(
        checked(
            command(
                "mount"@,
                no_words().push("--bind"@).push(proc_ns(pid, "net"@)).push(netns_file(name)),
            ),
            "Failed to bind-mount network namespace"@,
        ),
    ).push(attempt(ActionOf::Exists { path: setup_flag(name) }))
}

fn prepare(name: &str, pid: u32) -> (r: Steps)
    ensures
        r@ == prepare_steps(name@, pid),
{
    let text: String = "Configuring network for distro '".to_owned().concat(name).concat(
        "' (PID: ",
    ).concat(format_decimal(pid).as_str()).concat(")...");
    Steps::new().say(Style::Blue, text).must(
        ActionOf::CreateDirs { path: "/var/run/netns".to_owned() },
    ).only_if(netns_path(name), false, 1).must(
        ActionOf::CreateFile { path: netns_path(name) },
    ).checked(
        run(
            "mount",
            words().with("--bind").with(namespace_path(pid, "net").as_str()).with(
                netns_path(name).as_str(),
            ),
        ),
        "Failed to bind-mount network namespace",
    ).attempt(ActionOf::Exists { path: setup_flag_path(name) })
}

/// Looking for the interface to bridge to.
pub open spec fn table_steps() -> Seq<StepView> {
    no_steps().push(
        attempt(
            line(
                Style::Cyan,
                "[LSL] Network mode: Bridging to host network (DHCP via ipvlan)..."@,
            ),
        ),
    ).push(attempt(ActionOf::ReadText { path: "/proc/net/route"@ }))
}

fn read_table() -> (r: Steps)
    ensures
        r@ == table_steps(),
{
    Steps::new().say(
        Style::Cyan,
        "[LSL] Network mode: Bridging to host network (DHCP via ipvlan)...".to_owned(),
    ).attempt(ActionOf::ReadText { path: "/proc/net/route".to_owned() })
}

/// Bridging to an interface, asking for an address, and looking at what came.
pub open spec fn bridge_steps(name: Seq<char>, host: Seq<char>) -> Seq<StepView> {
    no_steps().push(
        attempt(
            line(Style::Cyan, "[LSL] Bridging to host default interface: "@ + host),
        ),
    ).push(
        needed(
            command(
                "ip"@,
                no_words().push("link"@).push("add"@).push(ipvlan(name)).push("link"@).push(
                    host,
                ).push("type"@).push("ipvlan"@).push("mode"@).push("l2"@),
            ),
            "ipvlan"@,
        ),
    ).push(
        needed(
            command(
                "ip"@,
                no_words().push("link"@).push("set"@).push(ipvlan(name)).push("netns"@).push(
                    netns(name),
                ).push("name"@).push("eth0"@),
            ),
            "netns"@,
        ),
    ).push(
        attempt(
            command(
                "ip"@,
                inside(name).push("ip"@).push("link"@).push("set"@).push("dev"@).push(
                    "eth0"@,
                ).push("up"@),
            ),
        ),
    ).push(
        attempt(
            command(
                "ip"@,
                inside(name).push("ip"@).push("link"@).push("set"@).push("dev"@).push(
                    "lo"@,
                ).push("up"@),
            ),
        ),
    ).push(
        attempt(line(Style::Cyan, "[LSL] Requesting IP from DHCP server..."@)),
    ).push(
        needed(
            command(
                "ip"@,
                inside(name).push("dhclient"@).push("-1"@).push("-timeout"@).push("5"@).push(
                    "eth0"@,
                ),
            ),
            "dhclient"@,
        ),
    ).push(
        needed(
            query(
                "ip"@,
                inside(name).push("ip"@).push("-4"@).push("addr"@).push("show"@).push(
                    "dev"@,
                ).push("eth0"@),
            ),
            "address"@,
        ),
    )
}

fn bridge(name: &str, host: &str) -> (r: Steps)
    ensures
        r@ == bridge_steps(name@, host@),
{
    let interface: String = ipvlan_interface(name);
    Steps::new().say(
        Style::Cyan,
        "[LSL] Bridging to host default interface: ".to_owned().concat(host),
    ).needed(
        run(
            "ip",
            words().with("link").with("add").with(interface.as_str()).with("link").with(host).with(
                "type",
            ).with("ipvlan").with("mode").with("l2"),
        ),
        "ipvlan",
    ).needed(
        run(
            "ip",
            words().with("link").with("set").with(interface.as_str()).with("netns").with(
                netns_name(name).as_str(),
            ).with("name").with("eth0"),
        ),
        "netns",
    ).attempt(
        run(
            "ip",
            in_netns(name).with("ip").with("link").with("set").with("dev").with("eth0").with("up"),
        ),
    ).attempt(
        run(
            "ip",
            in_netns(name).with("ip").with("link").with("set").with("dev").with("lo").with("up"),
        ),
    ).say(Style::Cyan, "[LSL] Requesting IP from DHCP server...".to_owned()).needed(
        run(
            "ip",
            in_netns(name).with("dhclient").with("-1").with("-timeout").with("5").with("eth0"),
        ),
        "dhclient",
    ).needed(
        capture(
            "ip",
            in_netns(name).with("ip").with("-4").with("addr").with("show").with("dev").with(
                "eth0",
            ),
        ),
        "address",
    )
}

/// Saying that the bridge stands.
pub open spec fn bridged_steps() -> Seq<StepView> {
    no_steps().push(attempt(line(Style::Green, "[LSL] Bridged DHCP setup succeeded."@)))
}

fn bridged() -> (r: Steps)
    ensures
        r@ == bridged_steps(),
{
    Steps::new().say(Style::Green, "[LSL] Bridged DHCP setup succeeded.".to_owned())
}

/// Taking a bridge down again.
pub open spec fn unbridge_steps(name: Seq<char>) -> Seq<StepView> {
    no_steps().push(
        attempt(
            line(
                Style::Yellow,
                "Warning: Bridged DHCP failed (common on wireless/Wi-Fi adapters or if dhclient is missing)."@,
            ),
        ),
    ).push(
        attempt(command("ip"@, no_words().push("link"@).push("del"@).push(ipvlan(name)))),
    ).push(
        attempt(
            command("ip"@, inside(name).push("ip"@).push("link"@).push("del"@).push("eth0"@)),
        ),
    )
}

fn unbridge(name: &str) -> (r: Steps)
    ensures
        r@ == unbridge_steps(name@),
{
    Steps::new().say(
        Style::Yellow,
        "Warning: Bridged DHCP failed (common on wireless/Wi-Fi adapters or if dhclient is missing).".to_owned(),
    ).attempt(
        run("ip", words().with("link").with("del").with(ipvlan_interface(name).as_str())),
    ).attempt(run("ip", in_netns(name).with("ip").with("link").with("del").with("eth0")))
}

/// Asking for the route out of the host, after saying why.
pub open spec fn route_steps(setup: bool, fallback: bool) -> Seq<StepView> {
    let ask = attempt(
        query("ip"@, no_words().push("route"@).push("get"@).push("1.1.1.1"@)),
    );
    if fallback {
        no_steps().push(
            attempt(line(Style::Yellow, "[LSL] Falling back to Routed Proxy ARP mode..."@)),
        ).push(ask)
    } else if setup {
        no_steps().push(
            attempt(
                line(
                    Style::Cyan,
                    "[LSL] Interactive setup active: using temporary NAT route for package downloads..."@,
                ),
            ),
        ).push(ask)
    } else {
        no_steps().push(ask)
    }
}

fn ask_route(setup: bool, fallback: bool) -> (r: Steps)
    ensures
        r@ == route_steps(setup, fallback),
{
    let start: Steps = if fallback {
        Steps::new().say(
            Style::Yellow,
            "[LSL] Falling back to Routed Proxy ARP mode...".to_owned(),
        )
    } else if setup {
        Steps::new().say(
            Style::Cyan,
            "[LSL] Interactive setup active: using temporary NAT route for package downloads...".to_owned(),
        )
    } else {
        Steps::new()
    };
    start.attempt(capture("ip", words().with("route").with("get").with("1.1.1.1")))
}

/// Asking the kernel for its table.
pub open spec fn route_table_steps() -> Seq<StepView> {
    no_steps().push(attempt(ActionOf::ReadText { path: "/proc/net/route"@ }))
}

fn read_route_table() -> (r: Steps)
    ensures
        r@ == route_table_steps(),
{
    Steps::new().attempt(ActionOf::ReadText { path: "/proc/net/route".to_owned() })
}

/// The file that switches proxy ARP of an interface.
pub open spec fn proxy_arp(dev: Seq<char>) -> Seq<char> {
    "/proc/sys/net/ipv4/conf/"@ + dev + "/proxy_arp"@
}

fn proxy_arp_path(dev: &str) -> (r: String)
    ensures
        r@ == proxy_arp(dev@),
{
    "/proc/sys/net/ipv4/conf/".to_owned().concat(dev).concat("/proxy_arp")
}

/// Laying the cable: a pair of interfaces, one of which goes to the guest.
pub open spec fn cable_steps(name: Seq<char>, moving: Seq<char>) -> Seq<StepView> {
    no_steps().push(
        guarded(
            command(
                "ip"@,
                no_words().push("link"@).push("add"@).push(veth(name)).push("type"@).push(
                    "veth"@,
                ).push("peer"@).push("name"@).push("eth0"@),
            ),
            "Failed to create veth pair"@,
        ),
    ).push(
        guarded(
            command(
                "ip"@,
                no_words().push("link"@).push("set"@).push("eth0"@).push("netns"@).push(
                    netns(name),
                ),
            ),
            moving,
        ),
    )
}

fn cable(name: &str, moving: &str) -> (r: Steps)
    ensures
        r@ == cable_steps(name@, moving@),
{
    Steps::new().guarded(
        run(
            "ip",
            words().with("link").with("add").with(veth_host(name).as_str()).with("type").with(
                "veth",
            ).with("peer").with("name").with("eth0"),
        ),
        "Failed to create veth pair",
    ).guarded(
        run(
            "ip",
            words().with("link").with("set").with("eth0").with("netns").with(
                netns_name(name).as_str(),
            ),
        ),
        moving,
    )
}

/// `ip link set dev eth0 address <mac>` in the guest.
pub open spec fn set_mac(name: Seq<char>, mac: Seq<char>) -> ActionView {
    command(
        "ip"@,
        inside(name).push("ip"@).push("link"@).push("set"@).push("dev"@).push("eth0"@).push(
            "address"@,
        ).push(mac),
    )
}

fn mac_command(name: &str, mac: &str) -> (r: Action)
    ensures
        r@ == set_mac(name@, mac@),
{
    run(
        "ip",
        in_netns(name).with("ip").with("link").with("set").with("dev").with("eth0").with(
            "address",
        ).with(mac),
    )
}

/// `ip addr add <ip>/24 dev eth0` in the guest.
pub open spec fn set_ip(name: Seq<char>, ip: Seq<char>) -> ActionView {
    command(
        "ip"@,
        inside(name).push("ip"@).push("addr"@).push("add"@).push(ip + "/24"@).push("dev"@).push(
            "eth0"@,
        ),
    )
}

fn ip_command(name: &str, ip: &str) -> (r: Action)
    ensures
        r@ == set_ip(name@, ip@),
{
    let cidr: String = ip.to_owned().concat("/24");
    run(
        "ip",
        in_netns(name).with("ip").with("addr").with("add").with(cidr.as_str()).with("dev").with(
            "eth0",
        ),
    )
}

/// `ip link set dev <dev> up` in the guest.
pub open spec fn set_up(name: Seq<char>, dev: Seq<char>) -> ActionView {
    command(
        "ip"@,
        inside(name).push("ip"@).push("link"@).push("set"@).push("dev"@).push(dev).push("up"@),
    )
}

fn up_command(name: &str, dev: &str) -> (r: Action)
    ensures
        r@ == set_up(name@, dev@),
{
    run(
        "ip",
        in_netns(name).with("ip").with("link").with("set").with("dev").with(dev).with("up"),
    )
}

/// `ip link set dev <cable> up` on the host.
pub open spec fn cable_up(name: Seq<char>) -> ActionView {
    command(
        "ip"@,
        no_words().push("link"@).push("set"@).push("dev"@).push(veth(name)).push("up"@),
    )
}

fn cable_up_command(name: &str) -> (r: Action)
    ensures
        r@ == cable_up(name@),
{
    run(
        "ip",
        words().with("link").with("set").with("dev").with(veth_host(name).as_str()).with("up"),
    )
}

/// Giving the guest an address of the host's subnet.
pub open spec fn routed_steps(
    link: LinkView,
    dev: Seq<char>,
    src: Seq<char>,
    ip: Seq<char>,
) -> Seq<StepView> {
    let said = no_steps().push(
        attempt(
            line(
                Style::Cyan,
                "[LSL] Network mode: Routed Proxy ARP (Assigned LAN IP: "@ + ip + ")"@,
            ),
        ),
    );
    (said + cable_steps(link.name, "Failed to move guest interface to netns"@)).push(
        attempt(set_mac(link.name, link.mac)),
    ).push(attempt(set_ip(link.name, ip))).push(attempt(set_up(link.name, "eth0"@))).push(
        attempt(set_up(link.name, "lo"@)),
    ).push(
        attempt(
            ActionOf::WriteText { path: "/proc/sys/net/ipv4/ip_forward"@, text: "1"@ },
        ),
    ).push(
        attempt(
            ActionOf::WriteText {
                path: "/proc/sys/net/ipv4/ping_group_range"@,
                text: "0 2147483647"@,
            },
        ),
    ).push(attempt(ActionOf::WriteText { path: proxy_arp(dev), text: "1"@ })).push(
        attempt(ActionOf::WriteText { path: proxy_arp(veth(link.name)), text: "1"@ }),
    ).push(attempt(cable_up(link.name))).push(
        attempt(
            command(
                "ip"@,
                no_words().push("route"@).push("add"@).push(ip).push("dev"@).push(
                    veth(link.name),
                ),
            ),
        ),
    ).push(
        attempt(
            command(
                "ip"@,
                inside(link.name).push("ip"@).push("route"@).push("add"@).push(src).push(
                    "dev"@,
                ).push("eth0"@),
            ),
        ),
    ).push(
        attempt(
            command(
                "ip"@,
                inside(link.name).push("ip"@).push("route"@).push("add"@).push("default"@).push(
                    "via"@,
                ).push(src),
            ),
        ),
    )
}

fn routed(link: &Link, dev: &str, src: &str, ip: &str) -> (r: Steps)
    ensures
        r@ == routed_steps(link@, dev@, src@, ip@),
{
    let name: &str = link.name.as_str();
    let cable_name: String = veth_host(name);
    Steps::new().say(
        Style::Cyan,
        "[LSL] Network mode: Routed Proxy ARP (Assigned LAN IP: ".to_owned().concat(ip).concat(")"),
    ).then_all(cable(name, "Failed to move guest interface to netns")).attempt(
        mac_command(name, link.mac.as_str()),
    ).attempt(ip_command(name, ip)).attempt(up_command(name, "eth0")).attempt(
        up_command(name, "lo"),
    ).attempt(
        ActionOf::WriteText {
            path: "/proc/sys/net/ipv4/ip_forward".to_owned(),
            text: "1".to_owned(),
        },
    ).attempt(
        ActionOf::WriteText {
            path: "/proc/sys/net/ipv4/ping_group_range".to_owned(),
            text: "0 2147483647".to_owned(),
        },
    ).attempt(ActionOf::WriteText { path: proxy_arp_path(dev), text: "1".to_owned() }).attempt(
        ActionOf::WriteText {
            path: proxy_arp_path(cable_name.as_str()),
            text: "1".to_owned(),
        },
    ).attempt(cable_up_command(name)).attempt(
        run(
            "ip",
            words().with("route").with("add").with(ip).with("dev").with(cable_name.as_str()),
        ),
    ).attempt(
        run(
            "ip",
            in_netns(name).with("ip").with("route").with("add").with(src).with("dev").with("eth0"),
        ),
    ).attempt(
        run(
            "ip",
            in_netns(name).with("ip").with("route").with("add").with("default").with("via").with(
                src,
            ),
        ),
    )
}

/// The host's address in the private subnet of that number.
pub open spec fn gateway(index: Seq<char>) -> Seq<char> {
    "10.88."@ + index + ".1"@
}

fn gateway_ip(index: &str) -> (r: String)
    ensures
        r@ == gateway(index@),
{
    "10.88.".to_owned().concat(index).concat(".1")
}

/// The private subnet of that number.
pub open spec fn subnet(index: Seq<char>) -> Seq<char> {
    "10.88."@ + index + ".0/24"@
}

fn subnet_cidr(index: &str) -> (r: String)
    ensures
        r@ == subnet(index@),
{
    "10.88.".to_owned().concat(index).concat(".0/24")
}

/// A command on the table of address translation rules.
pub open spec fn nft(verb: Seq<char>, what: Seq<char>, name: Seq<char>) -> Seq<Seq<char>> {
    no_words().push(verb).push(what).push("ip"@).push(nat_table(name))
}

fn nft_words(verb: &str, what: &str, name: &str) -> (r: Words)
    ensures
        r@ == nft(verb@, what@, name@),
{
    words().with(verb).with(what).with("ip").with(netns_name(name).as_str())
}

/// Putting the guest behind address translation, up to a fresh table.
pub open spec fn nat_steps(link: LinkView, ip: Seq<char>, index: Seq<char>) -> Seq<StepView> {
    cable_steps(link.name, "Failed to move guest veth interface to netns"@).push(
        guarded(set_mac(link.name, link.mac), "Failed to set guest MAC address"@),
    ).push(guarded(set_ip(link.name, ip), "Failed to set guest IP address"@)).push(
        guarded(set_up(link.name, "eth0"@), "Failed to bring guest interface UP"@),
    ).push(
        guarded(set_up(link.name, "lo"@), "Failed to bring loopback interface UP"@),
    ).push(
        guarded(
            command(
                "ip"@,
                inside(link.name).push("ip"@).push("route"@).push("add"@).push("default"@).push(
                    "via"@,
                ).push(gateway(index)),
            ),
            "Failed to add default route inside guest"@,
        ),
    ).push(
        guarded(
            command(
                "ip"@,
                no_words().push("addr"@).push("add"@).push(gateway(index) + "/24"@).push(
                    "dev"@,
                ).push(veth(link.name)),
            ),
            "Failed to set host IP address on veth"@,
        ),
    ).push(guarded(cable_up(link.name), "Failed to bring host veth interface UP"@)).push(
        attempt(command("sysctl"@, no_words().push("-w"@).push("net.ipv4.ip_forward=1"@))),
    ).push(
        attempt(
            command(
                "sysctl"@,
                no_words().push("-w"@).push("net.ipv4.ping_group_range=0 2147483647"@),
            ),
        ),
    ).push(attempt(command("nft"@, nft("delete"@, "table"@, link.name)))).push(
        must(command("nft"@, nft("add"@, "table"@, link.name))),
    )
}

fn translated(link: &Link, ip: &str, index: &str) -> (r: Steps)
    ensures
        r@ == nat_steps(link@, ip@, index@),
{
    let name: &str = link.name.as_str();
    let host_cidr: String = gateway_ip(index).concat("/24");
    cable(name, "Failed to move guest veth interface to netns").guarded(
        mac_command(name, link.mac.as_str()),
        "Failed to set guest MAC address",
    ).guarded(ip_command(name, ip), "Failed to set guest IP address").guarded(
        up_command(name, "eth0"),
        "Failed to bring guest interface UP",
    ).guarded(up_command(name, "lo"), "Failed to bring loopback interface UP").guarded(
        run(
            "ip",
            in_netns(name).with("ip").with("route").with("add").with("default").with("via").with(
                gateway_ip(index).as_str(),
            ),
        ),
        "Failed to add default route inside guest",
    ).guarded(
        run(
            "ip",
            words().with("addr").with("add").with(host_cidr.as_str()).with("dev").with(
                veth_host(name).as_str(),
            ),
        ),
        "Failed to set host IP address on veth",
    ).guarded(cable_up_command(name), "Failed to bring host veth interface UP").attempt(
        run("sysctl", words().with("-w").with("net.ipv4.ip_forward=1")),
    ).attempt(
        run("sysctl", words().with("-w").with("net.ipv4.ping_group_range=0 2147483647")),
    ).attempt(run("nft", nft_words("delete", "table", name))).must(
        run("nft", nft_words("add", "table", name)),
    )
}

/// Adding the chain of the table.
pub open spec fn chain_steps(name: Seq<char>) -> Seq<StepView> {
    no_steps().push(
        must(
            command(
                "nft"@,
                nft("add"@, "chain"@, name).push("nat"@).push(
                    "{ type nat hook postrouting priority 100 ; }"@,
                ),
            ),
        ),
    )
}

fn chain(name: &str) -> (r: Steps)
    ensures
        r@ == chain_steps(name@),
{
    Steps::new().must(
        run(
            "nft",
            nft_words("add", "chain", name).with("nat").with(
                "{ type nat hook postrouting priority 100 ; }",
            ),
        ),
    )
}

/// Adding the rule that hides the private subnet behind the host.
pub open spec fn masquerade_steps(name: Seq<char>, index: Seq<char>) -> Seq<StepView> {
    no_steps().push(
        must(
            command(
                "nft"@,
                nft("add"@, "rule"@, name).push("nat"@).push("ip"@).push("saddr"@).push(
                    subnet(index),
                ).push("masquerade"@),
            ),
        ),
    )
}

fn masquerade(name: &str, index: &str) -> (r: Steps)
    ensures
        r@ == masquerade_steps(name@, index@),
{
    Steps::new().must(
        run(
            "nft",
            nft_words("add", "rule", name).with("nat").with("ip").with("saddr").with(
                subnet_cidr(index).as_str(),
            ).with("masquerade"),
        ),
    )
}

/// Saying whether address translation stands.
pub open spec fn report_steps(ok: bool) -> Seq<StepView> {
    if ok {
        no_steps().push(
            attempt(line(Style::Green, "nftables NAT rules configured successfully."@)),
        )
    } else {
        no_steps().push(
            attempt(
                line(
                    Style::Yellow,
                    "Warning: nftables NAT configuration failed. Subsystem may not have internet access."@,
                ),
            ),
        )
    }
}

fn report(ok: bool) -> (r: Steps)
    ensures
        r@ == report_steps(ok),
{
    if ok {
        Steps::new().say(Style::Green, "nftables NAT rules configured successfully.".to_owned())
    } else {
        Steps::new().say(
            Style::Yellow,
            "Warning: nftables NAT configuration failed. Subsystem may not have internet access.".to_owned(),
        )
    }
}

/// Taking down all that may have been set up for a guest.
pub open spec fn cleanup_steps(name: Seq<char>) -> Seq<StepView> {
    no_steps().push(
        attempt(
            line(
                Style::Blue,
                "Cleaning up network configuration for distro '"@ + name + "'..."@,
            ),
        ),
    ).push(
        attempt(
            command("pkill"@, no_words().push("-f"@).push("dhclient.*"@ + netns(name))),
        ),
    ).push(attempt(command("nft"@, nft("delete"@, "table"@, name)))).push(
        attempt(command("ip"@, no_words().push("link"@).push("del"@).push(veth(name)))),
    ).push(only_if(netns_file(name), true, 2)).push(
        attempt(command("umount"@, no_words().push("-l"@).push(netns_file(name)))),
    ).push(attempt(ActionOf::RemoveFile { path: netns_file(name) }))
}

/// Makes the steps that take down all that may have been set up for a guest.
pub fn cleanup_network(name: &str) -> (r: Steps)
    ensures
        r@ == cleanup_steps(name@),
{
    let text: String = "Cleaning up network configuration for distro '".to_owned().concat(
        name,
    ).concat("'...");
    let pattern: String = "dhclient.*".to_owned().concat(netns_name(name).as_str());
    Steps::new().say(Style::Blue, text).attempt(
        run("pkill", words().with("-f").with(pattern.as_str())),
    ).attempt(run("nft", nft_words("delete", "table", name))).attempt(
        run("ip", words().with("link").with("del").with(veth_host(name).as_str())),
    ).only_if(netns_path(name), true, 2).attempt(
        run("umount", words().with("-l").with(netns_path(name).as_str())),
    ).attempt(ActionOf::RemoveFile { path: netns_path(name) })
}

// ------------------------------------------------------------------------- plan

/// A stage of connecting a guest.
pub enum NetStageOf<T> {
    /// The namespace is being kept.
    Prepare { link: LinkOf<T> },
    /// The interface to bridge to is being looked for.
    Table { link: LinkOf<T> },
    /// The bridge is being built.
    Bridge { link: LinkOf<T> },
    /// The bridge stands.
    Bridged,
    /// The bridge is being taken down.
    Unbridge { link: LinkOf<T> },
    /// The route out of the host is being asked for.
    Route { link: LinkOf<T> },
    /// The kernel's table is being read, for the route was incomplete.
    RouteTable { link: LinkOf<T> },
    /// An address is being tried.
    Ping { link: LinkOf<T>, dev: T, src: T, tried: usize },
    /// The guest is given an address of the host's subnet.
    Routed { name: T },
    /// The guest is put behind address translation.
    Nat { name: T, index: T },
    /// The chain is being added; `ok` tells whether all went well so far.
    NatChain { name: T, index: T, ok: bool },
    /// The rule is being added.
    NatRule { ok: bool },
    /// The outcome is being told.
    Report,
    /// What was set up is being taken down, after this fault.
    Clean { fault: FaultOf<T> },
}

pub type NetStage = NetStageOf<String>;

pub type NetStageView = NetStageOf<Seq<char>>;

impl View for NetStage {
    type V = NetStageView;

    open spec fn view(&self) -> NetStageView {
        match *self {
            NetStageOf::Prepare { link } => NetStageOf::Prepare { link: link@ },
            NetStageOf::Table { link } => NetStageOf::Table { link: link@ },
            NetStageOf::Bridge { link } => NetStageOf::Bridge { link: link@ },
            NetStageOf::Bridged => NetStageOf::Bridged,
            NetStageOf::Unbridge { link } => NetStageOf::Unbridge { link: link@ },
            NetStageOf::Route { link } => NetStageOf::Route { link: link@ },
            NetStageOf::RouteTable { link } => NetStageOf::RouteTable { link: link@ },
            NetStageOf::Ping { link, dev, src, tried } => NetStageOf::Ping {
                link: link@,
                dev: dev@,
                src: src@,
                tried,
            },
            NetStageOf::Routed { name } => NetStageOf::Routed { name: name@ },
            NetStageOf::Nat { name, index } => NetStageOf::Nat { name: name@, index: index@ },
            NetStageOf::NatChain { name, index, ok } => NetStageOf::NatChain {
                name: name@,
                index: index@,
                ok,
            },
            NetStageOf::NatRule { ok } => NetStageOf::NatRule { ok },
            NetStageOf::Report => NetStageOf::Report,
            NetStageOf::Clean { fault } => NetStageOf::Clean { fault: fault@ },
        }
    }
}

/// The turn to address translation: the third part of the guest's address
/// numbers its subnet.
pub open spec fn nat_turn(link: LinkView) -> TurnView<NetStageView> {
    let ip = if link.ip == "dhcp"@ {
        "10.88.1.2"@
    } else {
        link.ip
    };
    let parts = fields(ip, '.');
    if parts.len() != 4 {
        failing(FaultKind::InvalidInput, "Malformed IP address"@)
    } else {
        TurnOf::Go {
            stage: NetStageOf::Nat { name: link.name, index: parts[2] },
            steps: nat_steps(link, ip, parts[2]),
        }
    }
}

/// The turn once the address is known: an address of the host's subnet is
/// routed, any other is translated.
pub open spec fn decided(
    link: LinkView,
    dev: Seq<char>,
    src: Seq<char>,
    ip: Seq<char>,
) -> TurnView<NetStageView> {
    if same_subnet(ip, src) {
        TurnOf::Go {
            stage: NetStageOf::Routed { name: link.name },
            steps: routed_steps(link, dev, src, ip),
        }
    } else {
        nat_turn(link)
    }
}

/// The turn to the next address to try, of the host's subnet; without one, to the
/// spare address. The host's address must have three parts to go by.
pub open spec fn try_turn(
    link: LinkView,
    dev: Seq<char>,
    src: Seq<char>,
    k: int,
) -> TurnView<NetStageView> {
    let parts = fields(src, '.');
    if parts.len() == 4 && number(parts[3]) is Some && k < TRIES {
        let last = number(parts[3])->0;
        if last + offset(k) > u32::MAX {
            failing(FaultKind::Panic, "attempt to add with overflow"@)
        } else {
            TurnOf::Go {
                stage: NetStageOf::Ping { link, dev, src, tried: k as usize },
                steps: ping_steps(candidate(parts, last, k)),
            }
        }
    } else if parts.len() < 3 {
        failing(FaultKind::Panic, "index out of bounds"@)
    } else {
        decided(link, dev, src, spare(parts))
    }
}

/// The turn once the route out of the host is known.
pub open spec fn chosen(link: LinkView, dev: Seq<char>, src: Seq<char>) -> TurnView<NetStageView> {
    if link.ip == "dhcp"@ {
        try_turn(link, dev, src, 0)
    } else {
        decided(link, dev, src, link.ip)
    }
}

/// The interface that is assumed where the host's own is not known.
pub open spec fn assumed_interface() -> Seq<char> {
    "wlp46s0"@
}

fn take_nat(link: Link) -> (r: Turn<NetStage>)
    ensures
        turned(r) == nat_turn(link@),
{
    let ip: String = if same(link.ip.as_str(), "dhcp") {
        "10.88.1.2".to_owned()
    } else {
        link.ip.clone()
    };
    let parts: Vec<String> = split_fields(ip.as_str(), '.');
    assert(fields(ip@, '.').len() == parts@.len());
    if parts.len() != 4 {
        TurnOf::End { result: Err(fault(FaultKind::InvalidInput, "Malformed IP address")) }
    } else {
        assert(texts(parts@)[2] == parts@[2]@);
        let index: String = parts[2].clone();
        let steps: Steps = translated(&link, ip.as_str(), index.as_str());
        TurnOf::Go { stage: NetStageOf::Nat { name: link.name, index }, steps }
    }
}

fn decide(link: Link, dev: &str, src: &str, ip: &str) -> (r: Turn<NetStage>)
    ensures
        turned(r) == decided(link@, dev@, src@, ip@),
{
    if are_ips_in_same_subnet(ip, src) {
        let steps: Steps = routed(&link, dev, src, ip);
        TurnOf::Go { stage: NetStageOf::Routed { name: link.name }, steps }
    } else {
        take_nat(link)
    }
}

/// The address of a try, where there is one; `None` where none can be computed.
pub open spec fn tried_ip(src: Seq<char>, k: int) -> Option<Seq<char>> {
    let parts = fields(src, '.');
    if parts.len() == 4 && number(parts[3]) is Some && 0 <= k < TRIES && number(parts[3])->0
        + offset(k) <= u32::MAX {
        Some(candidate(parts, number(parts[3])->0, k))
    } else {
        None
    }
}

/// Computes the address of a try.
pub fn lan_candidate(host_ip: &str, k: usize) -> (r: Option<String>)
    ensures
        crate::config::opt_text(r) == tried_ip(host_ip@, k as int),
{
    let parts: Vec<String> = split_fields(host_ip, '.');
    assert(fields(host_ip@, '.').len() == parts@.len());
    if parts.len() != 4 || k >= TRIES {
        return None;
    }
    assert(texts(parts@)[3] == parts@[3]@);
    match parse_u32(parts[3].as_str()) {
        Some(last) => {
            let by: u32 = offset_of(k);
            if last > u32::MAX - by {
                return None;
            }
            let moved: u32 = (last + by) % 254;
            let octet: u32 = if moved == 0 {
                253
            } else {
                moved
            };
            Some(make_ip(&parts, format_decimal(octet).as_str()))
        },
        None => None,
    }
}

fn try_ip(link: Link, dev: String, src: String, k: usize) -> (r: Turn<NetStage>)
    ensures
        turned(r) == try_turn(link@, dev@, src@, k as int),
{
    let parts: Vec<String> = split_fields(src.as_str(), '.');
    assert(fields(src@, '.').len() == parts@.len());
    if parts.len() == 4 && k < TRIES {
        assert(texts(parts@)[3] == parts@[3]@);
        if parse_u32(parts[3].as_str()).is_some() {
            return match lan_candidate(src.as_str(), k) {
                Some(ip) => {
                    let steps: Steps = ping(ip.as_str());
                    TurnOf::Go { stage: NetStageOf::Ping { link, dev, src, tried: k }, steps }
                },
                None => TurnOf::End {
                    result: Err(fault(FaultKind::Panic, "attempt to add with overflow")),
                },
            };
        }
    }
    if parts.len() < 3 {
        TurnOf::End { result: Err(fault(FaultKind::Panic, "index out of bounds")) }
    } else {
        let ip: String = make_ip(&parts, "222");
        decide(link, dev.as_str(), src.as_str(), ip.as_str())
    }
}

fn choose_address(link: Link, dev: String, src: String) -> (r: Turn<NetStage>)
    ensures
        turned(r) == chosen(link@, dev@, src@),
{
    if same(link.ip.as_str(), "dhcp") {
        try_ip(link, dev, src, 0)
    } else {
        let ip: String = link.ip.clone();
        decide(link, dev.as_str(), src.as_str(), ip.as_str())
    }
}

impl Plan for NetStage {
    open spec fn rank(stage: NetStageView) -> nat {
        match stage {
            NetStageOf::Prepare { link } => 20,
            NetStageOf::Table { link } => 19,
            NetStageOf::Bridge { link } => 18,
            NetStageOf::Unbridge { link } => 17,
            NetStageOf::Route { link } => 16,
            NetStageOf::RouteTable { link } => 15,
            NetStageOf::Ping { link, dev, src, tried } => if tried < TRIES {
                (14 - tried) as nat
            } else {
                9
            },
            NetStageOf::Routed { name } => 8,
            NetStageOf::Nat { name, index } => 8,
            NetStageOf::NatChain { name, index, ok } => 7,
            NetStageOf::NatRule { ok } => 6,
            NetStageOf::Report => 5,
            NetStageOf::Bridged => 4,
            NetStageOf::Clean { fault } => 3,
        }
    }

    open spec fn next(stage: NetStageView, reply: ReplyView) -> TurnView<NetStageView> {
        match stage {
            NetStageOf::Prepare { link } => {
                let setup = reply != (ReplyView::Found { exists: true });
                if link.ip == "dhcp"@ && !setup {
                    TurnOf::Go { stage: NetStageOf::Table { link }, steps: table_steps() }
                } else {
                    TurnOf::Go {
                        stage: NetStageOf::Route { link },
                        steps: route_steps(setup, false),
                    }
                }
            },
            NetStageOf::Table { link } => match reply {
                ReplyOf::Text { text } if default_interface(text) is Some => TurnOf::Go {
                    stage: NetStageOf::Bridge { link },
                    steps: bridge_steps(link.name, default_interface(text)->0),
                },
                _ => TurnOf::Go {
                    stage: NetStageOf::Route { link },
                    steps: route_steps(false, true),
                },
            },
            NetStageOf::Bridge { link } => match reply {
                ReplyOf::Output { success, bytes } if holds(
                    lossy_text(bytes),
                    "inet "@,
                ) => TurnOf::Go { stage: NetStageOf::Bridged, steps: bridged_steps() },
                _ => TurnOf::Go {
                    stage: NetStageOf::Unbridge { link },
                    steps: unbridge_steps(link.name),
                },
            },
            NetStageOf::Unbridge { link } => TurnOf::Go {
                stage: NetStageOf::Route { link },
                steps: route_steps(false, true),
            },
            NetStageOf::Route { link } => match reply {
                ReplyOf::Output { success, bytes } => match route_of(lossy_text(bytes)) {
                    RouteOf::Silent => chosen(link, assumed_interface(), assumed_address()),
                    RouteOf::Partial => TurnOf::Go {
                        stage: NetStageOf::RouteTable { link },
                        steps: route_table_steps(),
                    },
                    RouteOf::Complete { dev, src, via } => chosen(link, dev, src),
                },
                _ => chosen(link, assumed_interface(), assumed_address()),
            },
            NetStageOf::RouteTable { link } => match reply {
                ReplyOf::Text { text } if default_interface(text) is Some => chosen(
                    link,
                    default_interface(text)->0,
                    assumed_address(),
                ),
                _ => chosen(link, assumed_interface(), assumed_address()),
            },
            NetStageOf::Ping { link, dev, src, tried } => {
                if reply == (ReplyView::Exit { success: false }) && tried_ip(
                    src,
                    tried as int,
                ) is Some {
                    decided(link, dev, src, tried_ip(src, tried as int)->0)
                } else {
                    try_turn(link, dev, src, tried + 1)
                }
            },
            NetStageOf::Nat { name, index } => TurnOf::Go {
                stage: NetStageOf::NatChain {
                    name,
                    index,
                    ok: reply == (ReplyView::Exit { success: true }),
                },
                steps: chain_steps(name),
            },
            NetStageOf::NatChain { name, index, ok } => TurnOf::Go {
                stage: NetStageOf::NatRule {
                    ok: ok && reply == (ReplyView::Exit { success: true }),
                },
                steps: masquerade_steps(name, index),
            },
            NetStageOf::NatRule { ok } => TurnOf::Go {
                stage: NetStageOf::Report,
                steps: report_steps(ok && reply == (ReplyView::Exit { success: true })),
            },
            NetStageOf::Clean { fault } => TurnOf::End { result: Err(fault) },
            NetStageOf::Bridged => giving(ValueOf::Nothing),
            NetStageOf::Routed { name } => giving(ValueOf::Nothing),
            NetStageOf::Report => giving(ValueOf::Nothing),
        }
    }

    open spec fn halted(
        stage: NetStageView,
        fault: FaultView,
        clean: bool,
    ) -> TurnView<NetStageView> {
        match stage {
            NetStageOf::Bridge { link } => TurnOf::Go {
                stage: NetStageOf::Unbridge { link },
                steps: unbridge_steps(link.name),
            },
            NetStageOf::Routed { name } if clean => TurnOf::Go {
                stage: NetStageOf::Clean { fault },
                steps: cleanup_steps(name),
            },
            NetStageOf::Nat { name, index } if clean => TurnOf::Go {
                stage: NetStageOf::Clean { fault },
                steps: cleanup_steps(name),
            },
            _ => TurnOf::End { result: Err(fault) },
        }
    }

    proof fn next_descends(stage: NetStageView, reply: ReplyView) {
    }

    proof fn halted_descends(stage: NetStageView, fault: FaultView, clean: bool) {
    }

    fn advance(self, reply: Reply) -> (r: Turn<Self>) {
        match self {
            NetStageOf::Prepare { link } => {
                let setup: bool = match reply {
                    ReplyOf::Found { exists } => !exists,
                    _ => true,
                };
                if same(link.ip.as_str(), "dhcp") && !setup {
                    TurnOf::Go { stage: NetStageOf::Table { link }, steps: read_table() }
                } else {
                    TurnOf::Go {
                        stage: NetStageOf::Route { link },
                        steps: ask_route(setup, false),
                    }
                }
            },
            NetStageOf::Table { link } => {
                match reply {
                    ReplyOf::Text { text } => {
                        match get_default_host_interface(text.as_str()) {
                            Ok(host) => {
                                let steps: Steps = bridge(link.name.as_str(), host.as_str());
                                return TurnOf::Go { stage: NetStageOf::Bridge { link }, steps };
                            },
                            Err(_) => {},
                        }
                    },
                    _ => {},
                }
                TurnOf::Go { stage: NetStageOf::Route { link }, steps: ask_route(false, true) }
            },
            NetStageOf::Bridge { link } => {
                match reply {
                    ReplyOf::Output { success, bytes } => {
                        let shown: String = decode_lossy(bytes.as_slice());
                        if contains(shown.as_str(), "inet ") {
                            return TurnOf::Go { stage: NetStageOf::Bridged, steps: bridged() };
                        }
                    },
                    _ => {},
                }
                let steps: Steps = unbridge(link.name.as_str());
                TurnOf::Go { stage: NetStageOf::Unbridge { link }, steps }
            },
            NetStageOf::Unbridge { link } => TurnOf::Go {
                stage: NetStageOf::Route { link },
                steps: ask_route(false, true),
            },
            NetStageOf::Route { link } => match reply {
                ReplyOf::Output { success, bytes } => {
                    let answer: String = decode_lossy(bytes.as_slice());
                    match read_route(answer.as_str()) {
                        RouteOf::Silent => choose_address(
                            link,
                            "wlp46s0".to_owned(),
                            "10.0.0.1".to_owned(),
                        ),
                        RouteOf::Partial => TurnOf::Go {
                            stage: NetStageOf::RouteTable { link },
                            steps: read_route_table(),
                        },
                        RouteOf::Complete { dev, src, via } => choose_address(link, dev, src),
                    }
                },
                _ => choose_address(link, "wlp46s0".to_owned(), "10.0.0.1".to_owned()),
            },
            NetStageOf::RouteTable { link } => {
                match reply {
                    ReplyOf::Text { text } => {
                        match get_default_host_interface(text.as_str()) {
                            Ok(dev) => {
                                return choose_address(link, dev, "10.0.0.1".to_owned());
                            },
                            Err(_) => {},
                        }
                    },
                    _ => {},
                }
                choose_address(link, "wlp46s0".to_owned(), "10.0.0.1".to_owned())
            },
            NetStageOf::Ping { link, dev, src, tried } => {
                let silent: bool = match reply {
                    ReplyOf::Exit { success } => !success,
                    _ => false,
                };
                if silent {
                    match lan_candidate(src.as_str(), tried) {
                        Some(ip) => {
                            return decide(link, dev.as_str(), src.as_str(), ip.as_str());
                        },
                        None => {},
                    }
                }
                if tried < TRIES {
                    try_ip(link, dev, src, tried + 1)
                } else {
                    try_ip(link, dev, src, TRIES)
                }
            },
            NetStageOf::Nat { name, index } => {
                let ok: bool = match reply {
                    ReplyOf::Exit { success } => success,
                    _ => false,
                };
                let steps: Steps = chain(name.as_str());
                TurnOf::Go { stage: NetStageOf::NatChain { name, index, ok }, steps }
            },
            NetStageOf::NatChain { name, index, ok } => {
                let well: bool = match reply {
                    ReplyOf::Exit { success } => success,
                    _ => false,
                };
                TurnOf::Go {
                    stage: NetStageOf::NatRule { ok: ok && well },
                    steps: masquerade(name.as_str(), index.as_str()),
                }
            },
            NetStageOf::NatRule { ok } => {
                let well: bool = match reply {
                    ReplyOf::Exit { success } => success,
                    _ => false,
                };
                TurnOf::Go { stage: NetStageOf::Report, steps: report(ok && well) }
            },
            NetStageOf::Clean { fault } => TurnOf::End { result: Err(fault) },
            NetStageOf::Bridged => TurnOf::End { result: Ok(ValueOf::Nothing) },
            NetStageOf::Routed { name } => TurnOf::End { result: Ok(ValueOf::Nothing) },
            NetStageOf::Report => TurnOf::End { result: Ok(ValueOf::Nothing) },
        }
    }

    fn halt(self, fault: Fault, clean: bool) -> (r: Turn<Self>) {
        match self {
            NetStageOf::Bridge { link } => {
                let steps: Steps = unbridge(link.name.as_str());
                TurnOf::Go { stage: NetStageOf::Unbridge { link }, steps }
            },
            NetStageOf::Routed { name } => if clean {
                TurnOf::Go {
                    stage: NetStageOf::Clean { fault },
                    steps: cleanup_network(name.as_str()),
                }
            } else {
                TurnOf::End { result: Err(fault) }
            },
            NetStageOf::Nat { name, index } => if clean {
                TurnOf::Go {
                    stage: NetStageOf::Clean { fault },
                    steps: cleanup_network(name.as_str()),
                }
            } else {
                TurnOf::End { result: Err(fault) }
            },
            _ => TurnOf::End { result: Err(fault) },
        }
    }
}

/// The task that connects a distribution to the network.
pub open spec fn network_task(
    name: Seq<char>,
    pid: u32,
    ip: Seq<char>,
    mac: Seq<char>,
) -> TaskView<NetStageView> {
    started(
        NetStageOf::Prepare { link: LinkOf { name, pid, ip, mac } },
        prepare_steps(name, pid),
    )
}

/// Starts to connect a guest.
pub fn setup_network(name: &str, init_pid: u32, ip_address: &str, mac_address: &str) -> (r: Task<
    NetStage,
>)
    ensures
        r@ == network_task(name@, init_pid, ip_address@, mac_address@),
{
    let link: Link = LinkOf {
        name: name.to_owned(),
        pid: init_pid,
        ip: ip_address.to_owned(),
        mac: mac_address.to_owned(),
    };
    Task::start(NetStageOf::Prepare { link }, prepare(name, init_pid))
}

// ------------------------------------------------------------------------- laws

/// A guest is connected in one of three ways: bridged, routed or translated.
pub proof fn law_three_ways(stage: NetStageView, reply: ReplyView)
    ensures
        NetStage::next(stage, reply) matches TurnOf::End { result: Ok(value) } ==> (stage is Bridged
            || stage is Routed || stage is Report) && value is Nothing,
{
}

/// Asking whether the account of a guest was set up.
pub open spec fn asks_for_setup(name: Seq<char>) -> ActionView {
    ActionOf::Exists { path: setup_flag(name) }
}

/// Reading the kernel's table of routes.
pub open spec fn reads_routes() -> ActionView {
    ActionOf::ReadText { path: "/proc/net/route"@ }
}

/// The task of connecting a guest.
pub open spec fn link_task(link: LinkView) -> TaskView<NetStageView> {
    network_task(link.name, link.pid, link.ip, link.mac)
}

/// The kernel's table is among the first `n` actions.
pub open spec fn has_read(link: LinkView, replies: spec_fn(nat) -> ReplyView, n: nat) -> bool {
    exists|k: nat|
        k < n && pending(#[trigger] after_replies::<NetStage>(link_task(link), replies, k)) == Some(
            reads_routes(),
        )
}

/// The `k`-th action reads the kernel's table for the first time, and what is read
/// names the host's interface.
pub open spec fn names_interface(
    link: LinkView,
    replies: spec_fn(nat) -> ReplyView,
    k: nat,
    host: Seq<char>,
) -> bool {
    &&& pending(after_replies::<NetStage>(link_task(link), replies, k)) == Some(reads_routes())
    &&& !has_read(link, replies, k)
    &&& replies(k) matches ReplyOf::Text { text } && default_interface(text) == Some(host)
}

/// The kernel's table, when first read among the first `n` actions, named the host's
/// interface.
pub open spec fn interface_named(
    link: LinkView,
    replies: spec_fn(nat) -> ReplyView,
    n: nat,
    host: Seq<char>,
) -> bool {
    exists|k: nat| k < n && #[trigger] names_interface(link, replies, k, host)
}

/// The guest's account was found set up within the first `n` replies.
pub open spec fn setup_found(link: LinkView, replies: spec_fn(nat) -> ReplyView, n: nat) -> bool {
    heard::<NetStage>(
        link_task(link),
        replies,
        n,
        asks_for_setup(link.name),
        ReplyOf::Found { exists: true },
    )
}

/// After `k` replies a bridge to an interface of the host is begun.
pub open spec fn begins_bridge(
    link: LinkView,
    replies: spec_fn(nat) -> ReplyView,
    k: nat,
    host: Seq<char>,
) -> bool {
    after_replies::<NetStage>(link_task(link), replies, k) == started(
        NetStageView::Bridge { link },
        bridge_steps(link.name, host),
    )
}

/// A bridge to an interface of the host was begun within the first `n` replies.
pub open spec fn bridging(
    link: LinkView,
    replies: spec_fn(nat) -> ReplyView,
    n: nat,
    host: Seq<char>,
) -> bool {
    exists|k: nat| k <= n && #[trigger] begins_bridge(link, replies, k, host)
}

/// What decides whether a guest is bridged: it takes any address, its account is set
/// up, and the host has an interface of its own.
pub open spec fn bridge_wanted(
    link: LinkView,
    replies: spec_fn(nat) -> ReplyView,
    n: nat,
    host: Seq<char>,
) -> bool {
    &&& link.ip == "dhcp"@
    &&& setup_found(link, replies, n)
    &&& interface_named(link, replies, n, host)
}

/// The guest that a stage is about.
spec fn guest_of(stage: NetStageView) -> Option<Seq<char>> {
    match stage {
        NetStageOf::Routed { name } => Some(name),
        NetStageOf::Nat { name, index } => Some(name),
        NetStageOf::NatChain { name, index, ok } => Some(name),
        _ => match link_of(stage) {
            Some(link) => Some(link.name),
            None => None,
        },
    }
}

/// The connection that a stage is about.
spec fn link_of(stage: NetStageView) -> Option<LinkView> {
    match stage {
        NetStageOf::Prepare { link } => Some(link),
        NetStageOf::Table { link } => Some(link),
        NetStageOf::Bridge { link } => Some(link),
        NetStageOf::Unbridge { link } => Some(link),
        NetStageOf::Route { link } => Some(link),
        NetStageOf::RouteTable { link } => Some(link),
        NetStageOf::Ping { link, dev, src, tried } => Some(link),
        _ => None,
    }
}

/// Steps that do not ask whether the account was set up.
#[verifier::opaque]
spec fn never_asks(steps: Seq<StepView>, name: Seq<char>) -> bool {
    forall|i: int| 0 <= i < steps.len() ==> (#[trigger] steps[i]).action != asks_for_setup(name)
}

/// What holds after any number of replies.
spec fn bridges_so_far(link: LinkView, replies: spec_fn(nat) -> ReplyView, n: nat) -> bool {
    let settled = {
        &&& link.ip == "dhcp"@ && setup_found(link, replies, n) ==> has_read(link, replies, n)
        &&& forall|host: Seq<char>|
            #[trigger] bridging(link, replies, n, host) <==> bridge_wanted(link, replies, n, host)
    };
    match after_replies::<NetStage>(link_task(link), replies, n) {
        TaskOf::Over { result } => settled,
        TaskOf::Active { stage, steps, at } => {
            &&& 0 <= at < steps.len()
            &&& link_of(stage) matches Some(l) ==> l == link
            &&& guest_of(stage) matches Some(name) ==> name == link.name
            &&& match stage {
                NetStageOf::Prepare { link: l } => {
                    &&& steps == prepare_steps(link.name, link.pid)
                    &&& !setup_found(link, replies, n)
                    &&& !has_read(link, replies, n)
                    &&& forall|host: Seq<char>| !#[trigger] bridging(link, replies, n, host)
                },
                NetStageOf::Table { link: l } => {
                    &&& steps == table_steps()
                    &&& link.ip == "dhcp"@
                    &&& setup_found(link, replies, n)
                    &&& !has_read(link, replies, n)
                    &&& forall|host: Seq<char>| !#[trigger] bridging(link, replies, n, host)
                },
                _ => settled && never_asks(steps, link.name),
            }
        },
    }
}

/// The flag of a set-up account is not the file of the namespace.
proof fn lemma_flag_is_its_own(name: Seq<char>)
    ensures
        setup_flag(name) != netns_file(name),
{
    reveal_strlit("/var/run/netns/");
    reveal_strlit("lsl-");
    reveal_strlit("merged");
    reveal_strlit("etc/lsl_setup_completed");
    assert(setup_flag(name).len() > name.len() + 25);
    assert(netns_file(name).len() == name.len() + 19);
}

proof fn lemma_bridge_never_asks(name: Seq<char>, host: Seq<char>)
    ensures
        never_asks(bridge_steps(name, host), name),
        bridge_steps(name, host).len() > 0,
        never_asks(unbridge_steps(name), name),
        unbridge_steps(name).len() > 0,
        never_asks(bridged_steps(), name),
        bridged_steps().len() > 0,
{
    reveal(never_asks);
}

proof fn lemma_route_never_asks(name: Seq<char>, setup: bool, fallback: bool, ip: Seq<char>)
    ensures
        never_asks(route_steps(setup, fallback), name),
        route_steps(setup, fallback).len() > 0,
        never_asks(route_table_steps(), name),
        route_table_steps().len() > 0,
        never_asks(ping_steps(ip), name),
        ping_steps(ip).len() > 0,
{
    reveal(never_asks);
}

proof fn lemma_routed_never_asks(
    link: LinkView,
    dev: Seq<char>,
    src: Seq<char>,
    ip: Seq<char>,
    name: Seq<char>,
)
    ensures
        never_asks(routed_steps(link, dev, src, ip), name),
        routed_steps(link, dev, src, ip).len() > 0,
{
    reveal(never_asks);
}

proof fn lemma_nat_never_asks(link: LinkView, ip: Seq<char>, index: Seq<char>, name: Seq<char>)
    ensures
        never_asks(nat_steps(link, ip, index), name),
        nat_steps(link, ip, index).len() > 0,
{
    reveal(never_asks);
}

proof fn lemma_rules_never_ask(guest: Seq<char>, index: Seq<char>, ok: bool, name: Seq<char>)
    ensures
        never_asks(chain_steps(guest), name),
        chain_steps(guest).len() > 0,
        never_asks(masquerade_steps(guest, index), name),
        masquerade_steps(guest, index).len() > 0,
        never_asks(report_steps(ok), name),
        report_steps(ok).len() > 0,
{
    reveal(never_asks);
}

proof fn lemma_cleanup_never_asks(name: Seq<char>)
    ensures
        never_asks(cleanup_steps(name), name),
        cleanup_steps(name).len() > 0,
{
    reveal(never_asks);
    lemma_flag_is_its_own(name);
}

/// The turn by an address asks no more.
proof fn lemma_decided(link: LinkView, dev: Seq<char>, src: Seq<char>, ip: Seq<char>)
    ensures
        decided(link, dev, src, ip) matches TurnOf::Go { stage, steps } ==> (stage is Routed
            || stage is Nat) && guest_of(stage) == Some(link.name) && steps.len() > 0 && never_asks(
            steps,
            link.name,
        ),
{
    let given = if link.ip == "dhcp"@ {
        "10.88.1.2"@
    } else {
        link.ip
    };
    lemma_routed_never_asks(link, dev, src, ip, link.name);
    lemma_nat_never_asks(link, given, fields(given, '.')[2], link.name);
}

/// The turn to an address asks no more.
proof fn lemma_tried(link: LinkView, dev: Seq<char>, src: Seq<char>, k: int)
    ensures
        try_turn(link, dev, src, k) matches TurnOf::Go { stage, steps } ==> (stage is Ping || stage
            is Routed || stage is Nat) && (stage is Ping ==> link_of(stage) == Some(link))
            && guest_of(stage) == Some(link.name) && steps.len() > 0 && never_asks(
            steps,
            link.name,
        ),
{
    let parts = fields(src, '.');
    lemma_decided(link, dev, src, spare(parts));
    lemma_route_never_asks(link.name, false, false, candidate(parts, number(parts[3])->0, k));
}

/// The turn by a route asks no more.
proof fn lemma_chosen(link: LinkView, dev: Seq<char>, src: Seq<char>)
    ensures
        chosen(link, dev, src) matches TurnOf::Go { stage, steps } ==> (stage is Ping || stage
            is Routed || stage is Nat) && (stage is Ping ==> link_of(stage) == Some(link))
            && guest_of(stage) == Some(link.name) && steps.len() > 0 && never_asks(
            steps,
            link.name,
        ),
{
    lemma_tried(link, dev, src, 0);
    lemma_decided(link, dev, src, link.ip);
}

/// What a turn passes on.
proof fn lemma_turns_of_links(stage: NetStageView, reply: ReplyView, name: Seq<char>)
    requires
        guest_of(stage) matches Some(guest) ==> guest == name,
    ensures
        NetStage::next(stage, reply) matches TurnOf::Go { stage: s, steps } ==> {
            &&& steps.len() > 0
            &&& link_of(s) is Some ==> link_of(s) == link_of(stage)
            &&& guest_of(s) is Some ==> guest_of(s) == guest_of(stage)
            &&& !(s is Prepare)
            &&& s is Table <==> stage is Prepare && stage->Prepare_link.ip == "dhcp"@ && reply == (
            ReplyView::Found { exists: true })
            &&& s is Bridge ==> stage is Table
            &&& !(s is Table) ==> never_asks(steps, name)
        },
{
    match stage {
        NetStageOf::Prepare { link } => {
            lemma_route_never_asks(name, reply != (ReplyView::Found { exists: true }), false, name);
        },
        NetStageOf::Table { link } => {
            lemma_route_never_asks(name, false, true, name);
            if let ReplyOf::Text { text } = reply {
                lemma_bridge_never_asks(name, default_interface(text)->0);
            }
        },
        NetStageOf::Bridge { link } => {
            lemma_bridge_never_asks(name, name);
        },
        NetStageOf::Unbridge { link } => {
            lemma_route_never_asks(name, false, true, name);
        },
        NetStageOf::Route { link } => {
            lemma_route_never_asks(name, false, false, name);
            lemma_chosen(link, assumed_interface(), assumed_address());
            if let ReplyOf::Output { success, bytes } = reply {
                if let RouteOf::Complete { dev, src, via } = route_of(lossy_text(bytes)) {
                    lemma_chosen(link, dev, src);
                }
            }
        },
        NetStageOf::RouteTable { link } => {
            lemma_chosen(link, assumed_interface(), assumed_address());
            if let ReplyOf::Text { text } = reply {
                lemma_chosen(link, default_interface(text)->0, assumed_address());
            }
        },
        NetStageOf::Ping { link, dev, src, tried } => {
            lemma_decided(link, dev, src, tried_ip(src, tried as int)->0);
            lemma_tried(link, dev, src, tried + 1);
        },
        NetStageOf::Nat { name: guest, index } => {
            lemma_rules_never_ask(guest, index, false, name);
        },
        NetStageOf::NatChain { name: guest, index, ok } => {
            lemma_rules_never_ask(guest, index, ok, name);
        },
        NetStageOf::NatRule { ok } => {
            lemma_rules_never_ask(name, name, true, name);
            lemma_rules_never_ask(name, name, false, name);
        },
        _ => {},
    }
}

/// What a halt passes on.
proof fn lemma_halts_of_links(stage: NetStageView, fault: FaultView, clean: bool, name: Seq<char>)
    requires
        guest_of(stage) matches Some(guest) ==> guest == name,
    ensures
        NetStage::halted(stage, fault, clean) matches TurnOf::Go { stage: s, steps } ==> {
            &&& steps.len() > 0
            &&& link_of(s) is Some ==> link_of(s) == link_of(stage)
            &&& guest_of(s) is Some ==> guest_of(s) == guest_of(stage)
            &&& !(s is Prepare) && !(s is Table) && !(s is Bridge)
            &&& !(stage is Prepare) && !(stage is Table)
            &&& never_asks(steps, name)
        },
{
    lemma_bridge_never_asks(name, name);
    lemma_cleanup_never_asks(name);
}

/// How what was seen grows by one reply.
proof fn lemma_seen_grows(link: LinkView, replies: spec_fn(nat) -> ReplyView, n: nat)
    ensures
        ({
            let now = pending(after_replies::<NetStage>(link_task(link), replies, n));
            &&& setup_found(link, replies, n + 1) <==> setup_found(link, replies, n) || now == Some(
                asks_for_setup(link.name),
            ) && replies(n) == (ReplyView::Found { exists: true })
            &&& has_read(link, replies, n + 1) <==> has_read(link, replies, n) || now == Some(
                reads_routes(),
            )
            &&& forall|host: Seq<char>|
                #[trigger] interface_named(link, replies, n + 1, host) <==> interface_named(
                    link,
                    replies,
                    n,
                    host,
                ) || names_interface(link, replies, n, host)
            &&& forall|host: Seq<char>|
                #[trigger] bridging(link, replies, n + 1, host) <==> bridging(
                    link,
                    replies,
                    n,
                    host,
                ) || begins_bridge(link, replies, n + 1, host)
        }),
{
    let t = link_task(link);
    lemma_heard_grows::<NetStage>(
        t,
        replies,
        n,
        asks_for_setup(link.name),
        ReplyOf::Found { exists: true },
    );
    if has_read(link, replies, n) {
        let k = choose|k: nat|
            k < n && pending(#[trigger] after_replies::<NetStage>(t, replies, k)) == Some(
                reads_routes(),
            );
        assert(k < n + 1 && pending(after_replies::<NetStage>(t, replies, k)) == Some(
            reads_routes(),
        ));
    }
    assert forall|host: Seq<char>| interface_named(link, replies, n, host) implies #[trigger]
    interface_named(link, replies, n + 1, host) by {
        let k = choose|k: nat| k < n && #[trigger] names_interface(link, replies, k, host);
        assert(k < n + 1 && names_interface(link, replies, k, host));
    }
    assert forall|host: Seq<char>| bridging(link, replies, n, host) implies #[trigger] bridging(
        link,
        replies,
        n + 1,
        host,
    ) by {
        let k = choose|k: nat| k <= n && #[trigger] begins_bridge(link, replies, k, host);
        assert(k <= n + 1 && begins_bridge(link, replies, k, host));
    }
}

/// A bridge tells its interface.
proof fn lemma_bridges_differ(name: Seq<char>, a: Seq<char>, b: Seq<char>)
    requires
        bridge_steps(name, a) == bridge_steps(name, b),
    ensures
        a == b,
{
    let lead = "[LSL] Bridging to host default interface: "@;
    assert(bridge_steps(name, a)[0] == attempt(line(Style::Cyan, lead + a)));
    assert(bridge_steps(name, b)[0] == attempt(line(Style::Cyan, lead + b)));
    if a != b {
        lemma_prefix_injective(lead, a, b);
    }
}

/// One reply more keeps what holds.
proof fn lemma_bridges_further(link: LinkView, replies: spec_fn(nat) -> ReplyView, n: nat)
    requires
        bridges_so_far(link, replies, n),
    ensures
        bridges_so_far(link, replies, n + 1),
{
    let t = link_task(link);
    let now = after_replies::<NetStage>(t, replies, n);
    let reply = replies(n);
    let then = after_replies::<NetStage>(t, replies, n + 1);
    assert(then == resumed::<NetStage>(now, reply));
    lemma_seen_grows(link, replies, n);
    lemma_flag_is_its_own(link.name);
    if let TaskOf::Active { stage, steps, at } = now {
        lemma_turns_of_links(stage, reply, link.name);
        if let FlowOf::Halt { fault, clean } = led_by(steps[at].rule, reply) {
            lemma_halts_of_links(stage, fault, clean, link.name);
        }
        match stage {
            NetStageOf::Prepare { link: l } => {
                assert(steps.len() == 6);
                assert(steps[5] == attempt(asks_for_setup(link.name)));
                assert(forall|i: int|
                    0 <= i < 5 ==> (#[trigger] steps[i]).action != asks_for_setup(link.name));
                assert(forall|i: int|
                    0 <= i < 6 ==> (#[trigger] steps[i]).action != reads_routes());
            },
            NetStageOf::Table { link: l } => {
                assert(steps.len() == 2);
                assert(steps[1] == attempt(reads_routes()));
                if at == 1 {
                    if let ReplyOf::Text { text } = reply {
                        if let Some(host) = default_interface(text) {
                            assert(names_interface(link, replies, n, host));
                            assert(begins_bridge(link, replies, n + 1, host));
                            assert forall|other: Seq<char>|
                                #[trigger] begins_bridge(
                                    link,
                                    replies,
                                    n + 1,
                                    other,
                                ) implies other == host by {
                                lemma_bridges_differ(link.name, host, other);
                            }
                        }
                    }
                }
            },
            _ => {
                reveal(never_asks);
                assert(steps[at].action != asks_for_setup(link.name));
            },
        }
    }
}

proof fn lemma_bridges_always(link: LinkView, replies: spec_fn(nat) -> ReplyView, n: nat)
    ensures
        bridges_so_far(link, replies, n),
    decreases n,
{
    if n > 0 {
        lemma_bridges_always(link, replies, (n - 1) as nat);
        lemma_bridges_further(link, replies, (n - 1) as nat);
    }
}

/// Whatever the host replies, a bridge is begun exactly for a guest that takes any
/// address, once its account was found set up and the kernel's table, when first read,
/// named an interface of the host; and it is a bridge to that interface.
pub proof fn law_bridged_exactly_when_wanted(
    link: LinkView,
    replies: spec_fn(nat) -> ReplyView,
    n: nat,
    host: Seq<char>,
)
    ensures
        bridging(link, replies, n, host) <==> bridge_wanted(link, replies, n, host),
{
    lemma_bridges_always(link, replies, n);
}

/// To be in one subnet is mutual, and what two addresses share with a third they
/// share with each other.
pub proof fn law_subnets_are_classes(a: Seq<char>, b: Seq<char>, c: Seq<char>)
    ensures
        same_subnet(a, a) <==> fields(a, '.').len() == 4,
        same_subnet(a, b) ==> same_subnet(b, a),
        same_subnet(a, b) && same_subnet(b, c) ==> same_subnet(a, c),
{
}

/// An address that is tried ends in a number from 1 to 253.
pub proof fn law_octet_range(last: u32, k: int)
    ensures
        1 <= octet(last, k) <= 253,
{
}

/// An address that is put together from the parts of the host's address, and
/// ends in something without a dot, is in the host's subnet.
pub proof fn lemma_in_subnet(src: Seq<char>, last: Seq<char>)
    requires
        fields(src, '.').len() == 4,
        !last.contains('.'),
    ensures
        same_subnet(in_subnet(fields(src, '.'), last), src),
{
    reveal_strlit(".");
    let parts = fields(src, '.');
    law_fields_join(src, '.');
    let mine = parts.take(3).push(last);
    assert forall|i: int| 0 <= i < mine.len() implies !(#[trigger] mine[i]).contains('.') by {
        if i < 3 {
            assert(!parts[i].contains('.'));
        }
    }
    law_join_fields(mine, '.');
    let ip = in_subnet(parts, last);
    let dot = "."@;
    assert(dot =~= Seq::empty().push('.'));
    reveal_with_fuel(joined, 5);
    assert(mine.drop_last() =~= parts.take(3));
    assert(mine.drop_last().drop_last() =~= parts.take(2));
    assert(mine.drop_last().drop_last().drop_last() =~= parts.take(1));
    assert(joined(mine, '.') =~= ip);
    assert(fields(ip, '.').take(3) =~= parts.take(3));
}

/// Every address that is tried, and the spare one, is in the subnet of the host,
/// provided that the host's address has four parts.
pub proof fn law_candidates_in_subnet(src: Seq<char>, k: int)
    requires
        fields(src, '.').len() == 4,
    ensures
        same_subnet(spare(fields(src, '.')), src),
        tried_ip(src, k) matches Some(ip) ==> same_subnet(ip, src),
{
    reveal_strlit("222");
    assert(!"222"@.contains('.'));
    lemma_in_subnet(src, "222"@);
    if tried_ip(src, k) is Some {
        let parts = fields(src, '.');
        let last = number(parts[3])->0;
        let d = decimal(octet(last, k));
        lemma_decimal(octet(last, k));
        assert(!d.contains('.')) by {
            if d.contains('.') {
                let i = choose|i: int| 0 <= i < d.len() && d[i] == '.';
                assert(is_digit(d[i]));
            }
        }
        lemma_in_subnet(src, d);
    }
}

/// A turn that tries an address, routes the guest, or gives up on an address that
/// cannot be computed.
pub open spec fn stays_on_the_lan(t: TurnView<NetStageView>) -> bool {
    match t {
        TurnOf::Go { stage, steps } => stage is Ping || stage is Routed,
        TurnOf::End { result } => result matches Err(f) && f.kind == FaultKind::Panic,
    }
}

/// A guest that asks for DHCP on a host whose address has four parts is never put
/// behind address translation: it gets an address of the host's subnet.
pub proof fn law_dhcp_stays_on_the_lan(
    link: LinkView,
    dev: Seq<char>,
    src: Seq<char>,
    tried: usize,
    reply: ReplyView,
)
    requires
        link.ip == "dhcp"@,
        fields(src, '.').len() == 4,
    ensures
        stays_on_the_lan(chosen(link, dev, src)),
        stays_on_the_lan(NetStage::next(NetStageOf::Ping { link, dev, src, tried }, reply)),
{
    law_candidates_in_subnet(src, 0);
    law_candidates_in_subnet(src, tried as int);
    law_candidates_in_subnet(src, tried + 1);
}

/// A guest with an address of its own is routed if and only if that address is in
/// the host's subnet.
pub proof fn law_fixed_address_decides(link: LinkView, dev: Seq<char>, src: Seq<char>)
    requires
        link.ip != "dhcp"@,
        fields(link.ip, '.').len() == 4,
    ensures
        chosen(link, dev, src) matches TurnOf::Go { stage, steps } && (if same_subnet(
            link.ip,
            src,
        ) {
            stage == (NetStageView::Routed { name: link.name }) && steps == routed_steps(
                link,
                dev,
                src,
                link.ip,
            )
        } else {
            stage is Nat && steps == nat_steps(link, link.ip, fields(link.ip, '.')[2])
        }),
{
}

/// The two stages that find the route out of the host come to what
/// `route_details` says, or to the assumed interface and address where that is an
/// error.
pub proof fn law_route_stages(link: LinkView, success: bool, bytes: Seq<u8>, table: Seq<char>)
    ensures
        ({
            let first = NetStage::next(
                NetStageOf::Route { link },
                ReplyOf::Output { success, bytes },
            );
            let second = NetStage::next(
                NetStageOf::RouteTable { link },
                ReplyOf::Text { text: table },
            );
            let settled = if route_of(lossy_text(bytes)) is Partial {
                second
            } else {
                first
            };
            settled == match route_details(lossy_text(bytes), Some(table)) {
                Ok(route) => chosen(link, route.0, route.1),
                Err(f) => chosen(link, assumed_interface(), assumed_address()),
            }
        }),
{
}

/// When a command that sets up a guest's link fails, all that may have been set
/// up is taken down before the fault is handed on: the task goes through
/// `cleanup_steps`, which nothing can stop, and then ends in that very fault.
pub proof fn law_failed_link_is_cleaned_up(
    stage: NetStageView,
    fault: FaultView,
    replies: spec_fn(nat) -> ReplyView,
) -> (n: nat)
    requires
        stage is Routed || stage is Nat,
    ensures
        ({
            let name = match stage {
                NetStageOf::Routed { name } => name,
                NetStageOf::Nat { name, index } => name,
                _ => arbitrary(),
            };
            let cleaning = entered(NetStage::halted(stage, fault, true));
            &&& cleaning == started(NetStageView::Clean { fault }, cleanup_steps(name))
            &&& n <= cleanup_steps(name).len()
            &&& after_replies::<NetStage>(cleaning, replies, n) == TaskView::<
                NetStageView,
            >::Over { result: Err(fault) }
        }),
{
    let name = match stage {
        NetStageOf::Routed { name } => name,
        NetStageOf::Nat { name, index } => name,
        _ => arbitrary(),
    };
    let steps = cleanup_steps(name);
    assert(heedless(steps));
    law_heedless_stage_ends::<NetStage>(
        NetStageOf::Clean { fault },
        steps,
        Err(fault),
        replies,
    )
}

/// Every command that lays the cable or sets up translation asks for cleaning up
/// when it fails, and starts a stage that does clean up.
pub proof fn law_links_ask_for_cleaning(
    link: LinkView,
    dev: Seq<char>,
    src: Seq<char>,
    ip: Seq<char>,
    index: Seq<char>,
)
    ensures
        forall|i: int|
            0 <= i < 9 ==> asks_for_cleaning(#[trigger] nat_steps(link, ip, index)[i]),
        forall|i: int|
            1 <= i < 3 ==> asks_for_cleaning(#[trigger] routed_steps(link, dev, src, ip)[i]),
{
}

/// A step that has all cleaned up when its program fails.
pub open spec fn asks_for_cleaning(step: StepView) -> bool {
    step.rule matches RuleOf::Act { on_error, on_refusal } && on_refusal is CleanUp
}

/// What is taken down is what was put up: the cable, the table of translation
/// rules and the file of the namespace bear the same names in both.
pub proof fn law_cleanup_undoes_setup(
    link: LinkView,
    ip: Seq<char>,
    index: Seq<char>,
    moving: Seq<char>,
)
    ensures
        cable_steps(link.name, moving)[0].action == command(
            "ip"@,
            no_words().push("link"@).push("add"@).push(veth(link.name)).push("type"@).push(
                "veth"@,
            ).push("peer"@).push("name"@).push("eth0"@),
        ),
        cleanup_steps(link.name)[3].action == command(
            "ip"@,
            no_words().push("link"@).push("del"@).push(veth(link.name)),
        ),
        nat_steps(link, ip, index).last().action == command(
            "nft"@,
            nft("add"@, "table"@, link.name),
        ),
        cleanup_steps(link.name)[2].action == command(
            "nft"@,
            nft("delete"@, "table"@, link.name),
        ),
        prepare_steps(link.name, link.pid)[3].action == (ActionView::CreateFile {
            path: netns_file(link.name),
        }),
        cleanup_steps(link.name)[6].action == (ActionView::RemoveFile {
            path: netns_file(link.name),
        }),
{
}

/// Guests with different names use different namespaces, cables and tables.
pub proof fn law_names_do_not_clash(a: Seq<char>, b: Seq<char>)
    requires
        a != b,
    ensures
        netns(a) != netns(b),
        netns_file(a) != netns_file(b),
        veth(a) != veth(b),
        ipvlan(a) != ipvlan(b),
        nat_table(a) != nat_table(b),
{
    lemma_prefix_injective("lsl-"@, a, b);
    lemma_prefix_injective("/var/run/netns/"@, netns(a), netns(b));
    lemma_prefix_injective("lsl-ipvl-"@, a, b);
    lemma_prefix_injective("lsl-v-"@, a, b);
    lemma_suffix_injective("lsl-v-"@ + a, "lsl-v-"@ + b, "-0"@);
}

/// Two addresses are in one subnet if and only if both have four parts and each of the
/// first three parts of one is that part of the other.
pub proof fn law_subnet_is_three_parts(a: Seq<char>, b: Seq<char>)
    ensures
        ({
            let x = fields(a, '.');
            let y = fields(b, '.');
            same_subnet(a, b) <==> x.len() == 4 && y.len() == 4 && x[0] == y[0] && x[1] == y[1]
                && x[2] == y[2]
        }),
{
    let x = fields(a, '.');
    let y = fields(b, '.');
    if x.len() == 4 && y.len() == 4 {
        if x.take(3) == y.take(3) {
            assert(x.take(3)[0] == y.take(3)[0]);
            assert(x.take(3)[1] == y.take(3)[1]);
            assert(x.take(3)[2] == y.take(3)[2]);
        }
        if x[0] == y[0] && x[1] == y[1] && x[2] == y[2] {
            assert(x.take(3) =~= y.take(3));
        }
    }
}

/// A guest with an address of its own is routed, by the host's interface and address, if
/// each of the first three parts of its address is that of the host's. If any of them
/// differs, or the host's address has not four parts, it is put behind address
/// translation, in the subnet that the third part numbers. An address that has not four
/// parts is refused.
pub proof fn law_any_other_part_means_translation(link: LinkView, dev: Seq<char>, src: Seq<char>)
    requires
        link.ip != "dhcp"@,
    ensures
        ({
            let mine = fields(link.ip, '.');
            let hosts = fields(src, '.');
            let near = mine.len() == 4 && hosts.len() == 4 && mine[0] == hosts[0] && mine[1]
                == hosts[1] && mine[2] == hosts[2];
            &&& near ==> chosen(link, dev, src) == (TurnView::<NetStageView>::Go {
                stage: NetStageOf::Routed { name: link.name },
                steps: routed_steps(link, dev, src, link.ip),
            })
            &&& !near && mine.len() == 4 ==> chosen(link, dev, src) == (TurnView::<
                NetStageView,
            >::Go {
                stage: NetStageOf::Nat { name: link.name, index: mine[2] },
                steps: nat_steps(link, link.ip, mine[2]),
            })
            &&& mine.len() != 4 ==> chosen(link, dev, src) == failing::<NetStageView>(
                FaultKind::InvalidInput,
                "Malformed IP address"@,
            )
        }),
{
    law_subnet_is_three_parts(link.ip, src);
}

/// A command that is run in the network namespace of a guest.
pub open spec fn runs_inside(action: ActionView, name: Seq<char>, words: Seq<Seq<char>>) -> bool {
    action matches ActionOf::Run { program, args } && program == "ip"@ && args == no_words().push(
        "netns"@,
    ).push("exec"@).push("lsl-"@ + name) + words
}

/// A routed guest gets its own hardware address and the address that was chosen, of a
/// subnet of 24 bits; the host sends what is meant for that address through the cable to
/// the guest, and answers for it on its own interface; the guest sends everything to the
/// host's address.
pub proof fn law_routed_guest_is_reached(
    link: LinkView,
    dev: Seq<char>,
    src: Seq<char>,
    ip: Seq<char>,
)
    ensures
        ({
            let steps = routed_steps(link, dev, src, ip);
            let cable = "lsl-v-"@ + link.name + "-0"@;
            &&& steps.len() == 15
            &&& steps[1].action == command(
                "ip"@,
                no_words().push("link"@).push("add"@).push(cable).push("type"@).push("veth"@).push(
                    "peer"@,
                ).push("name"@).push("eth0"@),
            )
            &&& steps[2].action == command(
                "ip"@,
                no_words().push("link"@).push("set"@).push("eth0"@).push("netns"@).push(
                    "lsl-"@ + link.name,
                ),
            )
            &&& runs_inside(
                steps[3].action,
                link.name,
                no_words().push("ip"@).push("link"@).push("set"@).push("dev"@).push("eth0"@).push(
                    "address"@,
                ).push(link.mac),
            )
            &&& runs_inside(
                steps[4].action,
                link.name,
                no_words().push("ip"@).push("addr"@).push("add"@).push(ip + "/24"@).push("dev"@).push(
                    "eth0"@,
                ),
            )
            &&& runs_inside(
                steps[5].action,
                link.name,
                no_words().push("ip"@).push("link"@).push("set"@).push("dev"@).push("eth0"@).push(
                    "up"@,
                ),
            )
            &&& runs_inside(
                steps[6].action,
                link.name,
                no_words().push("ip"@).push("link"@).push("set"@).push("dev"@).push("lo"@).push(
                    "up"@,
                ),
            )
            &&& steps[7].action == (ActionView::WriteText {
                path: "/proc/sys/net/ipv4/ip_forward"@,
                text: "1"@,
            })
            &&& steps[9].action == (ActionView::WriteText {
                path: "/proc/sys/net/ipv4/conf/"@ + dev + "/proxy_arp"@,
                text: "1"@,
            })
            &&& steps[10].action == (ActionView::WriteText {
                path: "/proc/sys/net/ipv4/conf/"@ + cable + "/proxy_arp"@,
                text: "1"@,
            })
            &&& steps[11].action == command(
                "ip"@,
                no_words().push("link"@).push("set"@).push("dev"@).push(cable).push("up"@),
            )
            &&& steps[12].action == command(
                "ip"@,
                no_words().push("route"@).push("add"@).push(ip).push("dev"@).push(cable),
            )
            &&& runs_inside(
                steps[13].action,
                link.name,
                no_words().push("ip"@).push("route"@).push("add"@).push(src).push("dev"@).push(
                    "eth0"@,
                ),
            )
            &&& runs_inside(
                steps[14].action,
                link.name,
                no_words().push("ip"@).push("route"@).push("add"@).push("default"@).push("via"@).push(
                    src,
                ),
            )
        }),
{
    let front = no_words().push("netns"@).push("exec"@).push("lsl-"@ + link.name);
    let set = no_words().push("ip"@).push("link"@).push("set"@).push("dev"@);
    assert(front + set.push("eth0"@).push("address"@).push(link.mac) =~= front.push("ip"@).push(
        "link"@,
    ).push("set"@).push("dev"@).push("eth0"@).push("address"@).push(link.mac));
    lemma_inside_words(link.name, ip + "/24"@, src);
}

/// The words of the commands that are run in a guest's namespace.
proof fn lemma_inside_words(name: Seq<char>, address: Seq<char>, via: Seq<char>)
    ensures
        ({
            let front = no_words().push("netns"@).push("exec"@).push("lsl-"@ + name);
            let link = no_words().push("ip"@).push("link"@).push("set"@).push("dev"@);
            let route = no_words().push("ip"@).push("route"@).push("add"@);
            &&& inside(name) == front
            &&& front + link.push("eth0"@).push("up"@) == front.push("ip"@).push("link"@).push(
                "set"@,
            ).push("dev"@).push("eth0"@).push("up"@)
            &&& front + link.push("lo"@).push("up"@) == front.push("ip"@).push("link"@).push(
                "set"@,
            ).push("dev"@).push("lo"@).push("up"@)
            &&& front + no_words().push("ip"@).push("addr"@).push("add"@).push(address).push(
                "dev"@,
            ).push("eth0"@) == front.push("ip"@).push("addr"@).push("add"@).push(address).push(
                "dev"@,
            ).push("eth0"@)
            &&& front + route.push(via).push("dev"@).push("eth0"@) == front.push("ip"@).push(
                "route"@,
            ).push("add"@).push(via).push("dev"@).push("eth0"@)
            &&& front + route.push("default"@).push("via"@).push(via) == front.push("ip"@).push(
                "route"@,
            ).push("add"@).push("default"@).push("via"@).push(via)
        }),
{
    let front = no_words().push("netns"@).push("exec"@).push("lsl-"@ + name);
    let link = no_words().push("ip"@).push("link"@).push("set"@).push("dev"@);
    let route = no_words().push("ip"@).push("route"@).push("add"@);
    assert(front + link.push("eth0"@).push("up"@) =~= front.push("ip"@).push("link"@).push(
        "set"@,
    ).push("dev"@).push("eth0"@).push("up"@));
    assert(front + link.push("lo"@).push("up"@) =~= front.push("ip"@).push("link"@).push("set"@).push(
        "dev"@,
    ).push("lo"@).push("up"@));
    assert(front + no_words().push("ip"@).push("addr"@).push("add"@).push(address).push("dev"@).push(
        "eth0"@,
    ) =~= front.push("ip"@).push("addr"@).push("add"@).push(address).push("dev"@).push("eth0"@));
    assert(front + route.push(via).push("dev"@).push("eth0"@) =~= front.push("ip"@).push(
        "route"@,
    ).push("add"@).push(via).push("dev"@).push("eth0"@));
    assert(front + route.push("default"@).push("via"@).push(via) =~= front.push("ip"@).push(
        "route"@,
    ).push("add"@).push("default"@).push("via"@).push(via));
}

/// A translated guest gets its own hardware address and its own address; its gateway is
/// the first address of the private subnet of its number, which the host's end of the
/// cable has; and what comes from that subnet leaves under the host's address, by rules
/// in a table of the guest's own.
pub proof fn law_translated_guest_is_reached(link: LinkView, ip: Seq<char>, index: Seq<char>)
    ensures
        ({
            let steps = nat_steps(link, ip, index);
            let cable = "lsl-v-"@ + link.name + "-0"@;
            let table = "lsl-"@ + link.name;
            let host = "10.88."@ + index + ".1"@;
            &&& steps.len() == 13
            &&& steps[0].action == command(
                "ip"@,
                no_words().push("link"@).push("add"@).push(cable).push("type"@).push("veth"@).push(
                    "peer"@,
                ).push("name"@).push("eth0"@),
            )
            &&& steps[1].action == command(
                "ip"@,
                no_words().push("link"@).push("set"@).push("eth0"@).push("netns"@).push(
                    "lsl-"@ + link.name,
                ),
            )
            &&& runs_inside(
                steps[2].action,
                link.name,
                no_words().push("ip"@).push("link"@).push("set"@).push("dev"@).push("eth0"@).push(
                    "address"@,
                ).push(link.mac),
            )
            &&& runs_inside(
                steps[3].action,
                link.name,
                no_words().push("ip"@).push("addr"@).push("add"@).push(ip + "/24"@).push("dev"@).push(
                    "eth0"@,
                ),
            )
            &&& runs_inside(
                steps[4].action,
                link.name,
                no_words().push("ip"@).push("link"@).push("set"@).push("dev"@).push("eth0"@).push(
                    "up"@,
                ),
            )
            &&& runs_inside(
                steps[5].action,
                link.name,
                no_words().push("ip"@).push("link"@).push("set"@).push("dev"@).push("lo"@).push(
                    "up"@,
                ),
            )
            &&& runs_inside(
                steps[6].action,
                link.name,
                no_words().push("ip"@).push("route"@).push("add"@).push("default"@).push("via"@).push(
                    host,
                ),
            )
            &&& steps[7].action == command(
                "ip"@,
                no_words().push("addr"@).push("add"@).push(host + "/24"@).push("dev"@).push(cable),
            )
            &&& steps[8].action == command(
                "ip"@,
                no_words().push("link"@).push("set"@).push("dev"@).push(cable).push("up"@),
            )
            &&& steps[9].action == command(
                "sysctl"@,
                no_words().push("-w"@).push("net.ipv4.ip_forward=1"@),
            )
            &&& steps[12].action == command(
                "nft"@,
                no_words().push("add"@).push("table"@).push("ip"@).push(table),
            )
            &&& chain_steps(link.name).len() == 1 && chain_steps(link.name)[0].action == command(
                "nft"@,
                no_words().push("add"@).push("chain"@).push("ip"@).push(table).push("nat"@).push(
                    "{ type nat hook postrouting priority 100 ; }"@,
                ),
            )
            &&& masquerade_steps(link.name, index).len() == 1 && masquerade_steps(
                link.name,
                index,
            )[0].action == command(
                "nft"@,
                no_words().push("add"@).push("rule"@).push("ip"@).push(table).push("nat"@).push(
                    "ip"@,
                ).push("saddr"@).push("10.88."@ + index + ".0/24"@).push("masquerade"@),
            )
        }),
{
    let front = no_words().push("netns"@).push("exec"@).push("lsl-"@ + link.name);
    let set = no_words().push("ip"@).push("link"@).push("set"@).push("dev"@);
    assert(front + set.push("eth0"@).push("address"@).push(link.mac) =~= front.push("ip"@).push(
        "link"@,
    ).push("set"@).push("dev"@).push("eth0"@).push("address"@).push(link.mac));
    lemma_inside_words(link.name, ip + "/24"@, "10.88."@ + index + ".1"@);
}

/// After its address was set, a translated guest is given its chain and its rule, whether
/// or not the one before could be added; that all went well is said exactly if the table,
/// the chain and the rule were added.
pub proof fn law_translation_is_complete(
    name: Seq<char>,
    index: Seq<char>,
    table: bool,
    chain: bool,
    rule: bool,
)
    ensures
        NetStage::next(NetStageOf::Nat { name, index }, ReplyOf::Exit { success: table }) == (
        TurnView::<NetStageView>::Go {
            stage: NetStageOf::NatChain { name, index, ok: table },
            steps: chain_steps(name),
        }),
        NetStage::next(
            NetStageOf::NatChain { name, index, ok: table },
            ReplyOf::Exit { success: chain },
        ) == (TurnView::<NetStageView>::Go {
            stage: NetStageOf::NatRule { ok: table && chain },
            steps: masquerade_steps(name, index),
        }),
        NetStage::next(NetStageOf::NatRule { ok: table && chain }, ReplyOf::Exit { success: rule })
            matches TurnOf::Go { stage, steps } && stage is Report && steps.len() == 1
            && steps[0].action == if table && chain && rule {
            line(Style::Green, "nftables NAT rules configured successfully."@)
        } else {
            line(
                Style::Yellow,
                "Warning: nftables NAT configuration failed. Subsystem may not have internet access."@,
            )
        },
{
}

/// A line of the kernel's table, other than its heading, that tells of the default route.
pub open spec fn tells_default(ls: Seq<Seq<char>>, i: int) -> bool {
    &&& 1 <= i < ls.len()
    &&& crate::text::words(ls[i]).len() >= 2
    &&& crate::text::words(ls[i])[1] == "00000000"@
}

/// The host's interface is the first word of the first line of the table, other than its
/// heading, whose second word is the destination of the default route; without such a
/// line there is none.
pub proof fn law_interface_is_that_of_the_default_route(table: Seq<char>)
    ensures
        forall|i: int| #[trigger]
            tells_default(lines(table), i) && (forall|j: int|
                j < i ==> !#[trigger] tells_default(lines(table), j)) ==> default_interface(table)
                == Some(crate::text::words(lines(table)[i])[0]),
        (forall|i: int| !#[trigger] tells_default(lines(table), i)) <==> default_interface(
            table,
        ) is None,
{
    let ls = lines(table);
    let k = lemma_interface_from(ls, 1);
    assert forall|i: int| #[trigger]
        tells_default(ls, i) && (forall|j: int|
            j < i ==> !#[trigger] tells_default(ls, j)) implies i == k by {
        if k < i && k < ls.len() {
            assert(tells_default(ls, k));
        }
    }
    if k < ls.len() {
        assert(tells_default(ls, k));
    }
}

/// Where a search for the default route stops.
proof fn lemma_interface_from(ls: Seq<Seq<char>>, i: int) -> (k: int)
    requires
        1 <= i,
    ensures
        i <= k,
        forall|j: int| i <= j < k ==> !#[trigger] tells_default(ls, j),
        k < ls.len() ==> tells_default(ls, k),
        k < ls.len() ==> interface_from(ls, i) == Some(crate::text::words(ls[k])[0]),
        k >= ls.len() ==> interface_from(ls, i) is None,
    decreases ls.len() - i,
{
    if i < ls.len() && !tells_default(ls, i) {
        lemma_interface_from(ls, i + 1)
    } else {
        i
    }
}

/// `w` is the word behind the last occurrence of `key` that has one, and empty if there is
/// no such occurrence.
pub open spec fn follows_last(ws: Seq<Seq<char>>, key: Seq<char>, w: Seq<char>) -> bool {
    ||| exists|i: int|
        0 <= i < ws.len() - 1 && #[trigger] ws[i] == key && ws[i + 1] == w && forall|j: int|
            i < j < ws.len() - 1 ==> #[trigger] ws[j] != key
    ||| w.len() == 0 && forall|i: int| 0 <= i < ws.len() - 1 ==> #[trigger] ws[i] != key
}

proof fn lemma_value_after(ws: Seq<Seq<char>>, key: Seq<char>)
    ensures
        follows_last(ws, key, value_after(ws, key)),
    decreases ws.len(),
{
    if ws.len() >= 2 {
        if ws[ws.len() - 2] != key {
            let less = ws.drop_last();
            lemma_value_after(less, key);
            let w = value_after(ws, key);
            if exists|i: int|
                0 <= i < less.len() - 1 && #[trigger] less[i] == key && less[i + 1] == w
                    && forall|j: int| i < j < less.len() - 1 ==> #[trigger] less[j] != key {
                let i = choose|i: int|
                    0 <= i < less.len() - 1 && #[trigger] less[i] == key && less[i + 1] == w
                        && forall|j: int| i < j < less.len() - 1 ==> #[trigger] less[j] != key;
                assert(ws[i] == key && ws[i + 1] == w);
                assert forall|j: int| i < j < ws.len() - 1 implies #[trigger] ws[j] != key by {
                    if j < less.len() - 1 {
                        assert(less[j] != key);
                    }
                }
            } else {
                assert forall|i: int| 0 <= i < ws.len() - 1 implies #[trigger] ws[i] != key by {
                    if i < less.len() - 1 {
                        assert(less[i] != key);
                    }
                }
            }
        } else {
            assert(ws[ws.len() - 2] == key);
        }
    }
}

/// The route out of the host is read from the first line of the tool's answer: the
/// interface is the word behind the last `dev`, the host's address the word behind the
/// last `src`, and the next hop the word behind the last `via`. Where the interface or the
/// address is missing, the interface is that of the kernel's table, if that tells one, and
/// the address is assumed.
pub proof fn law_route_is_read_off(answer: Seq<char>, table: Option<Seq<char>>)
    ensures
        ({
            let ls = lines(answer);
            let r = route_details(answer, table);
            &&& ls.len() == 0 ==> r is Err
            &&& ls.len() > 0 ==> exists|dev: Seq<char>, src: Seq<char>, via: Seq<char>| #[trigger]
                reads_as(ls[0], dev, src, via) && {
                    &&& dev.len() > 0 && src.len() > 0 ==> r == Ok::<
                        (Seq<char>, Seq<char>, Seq<char>),
                        FaultView,
                    >((dev, src, via))
                    &&& dev.len() == 0 || src.len() == 0 ==> match table {
                        Some(t) => match default_interface(t) {
                            Some(d) => r == Ok::<(Seq<char>, Seq<char>, Seq<char>), FaultView>(
                                (d, "10.0.0.1"@, "10.0.0.1"@),
                            ),
                            None => r is Err,
                        },
                        None => r is Err,
                    }
                }
        }),
{
    let ls = lines(answer);
    if ls.len() > 0 {
        let ws = crate::text::words(ls[0]);
        lemma_value_after(ws, "dev"@);
        lemma_value_after(ws, "src"@);
        lemma_value_after(ws, "via"@);
        assert(reads_as(
            ls[0],
            value_after(ws, "dev"@),
            value_after(ws, "src"@),
            value_after(ws, "via"@),
        ));
    }
}

/// A line of the routing tool tells this interface, address and next hop.
pub open spec fn reads_as(line: Seq<char>, dev: Seq<char>, src: Seq<char>, via: Seq<char>) -> bool {
    let ws = crate::text::words(line);
    follows_last(ws, "dev"@, dev) && follows_last(ws, "src"@, src) && follows_last(ws, "via"@, via)
}

/// The last part of the address of a try is the host's, moved by 100, 150, 200, 50 or 80
/// and taken modulo 254, where 253 stands in for zero.
pub proof fn law_octet_is_moved(last: u32, k: int)
    requires
        0 <= k < 5,
    ensures
        ({
            let by: int = if k == 0 {
                100
            } else if k == 1 {
                150
            } else if k == 2 {
                200
            } else if k == 3 {
                50
            } else {
                80
            };
            &&& (last + by) % 254 != 0 ==> octet(last, k) == (last + by) % 254
            &&& (last + by) % 254 == 0 ==> octet(last, k) == 253
        }),
{
}

/// The addresses that are tried have the first three parts of the host's address; the last
/// one is the moved one, in decimal, and for the spare address 222.
pub proof fn law_tried_addresses_are_near(src: Seq<char>, k: int)
    requires
        fields(src, '.').len() == 4,
    ensures
        ({
            let parts = fields(src, '.');
            let start = parts[0] + "."@ + parts[1] + "."@ + parts[2] + "."@;
            &&& spare(parts) == start + "222"@
            &&& tried_ip(src, k) matches Some(ip) ==> (number(parts[3]) matches Some(last) && ip
                == start + decimal(octet(last, k)))
            &&& 0 <= k < 5 && (number(parts[3]) matches Some(last) && last + 200 <= u32::MAX)
                ==> tried_ip(src, k) is Some
        }),
{
}

/// The address that a guest without one of its own gets is the first that was tried and
/// did not answer, and the spare one if all answered: a try pings its address; if the
/// ping fails the guest is routed under that very address, else the next one is tried.
pub proof fn law_first_free_address_is_taken(
    link: LinkView,
    dev: Seq<char>,
    src: Seq<char>,
    k: usize,
    reply: ReplyView,
)
    requires
        link.ip == "dhcp"@,
        fields(src, '.').len() == 4,
        number(fields(src, '.')[3]) matches Some(last) && last + 200 <= u32::MAX,
        k < 5,
    ensures
        ({
            let now = NetStage::next(NetStageOf::Ping { link, dev, src, tried: k }, reply);
            let tries = |i: int, ip: Seq<char>| TurnView::<NetStageView>::Go {
                stage: NetStageOf::Ping { link, dev, src, tried: i as usize },
                steps: no_steps().push(
                    attempt(
                        command(
                            "ping"@,
                            no_words().push("-c"@).push("1"@).push("-W"@).push("1"@).push(ip),
                        ),
                    ),
                ),
            };
            let takes = |ip: Seq<char>| TurnView::<NetStageView>::Go {
                stage: NetStageOf::Routed { name: link.name },
                steps: routed_steps(link, dev, src, ip),
            };
            &&& chosen(link, dev, src) == tries(0, tried_ip(src, 0)->0)
            &&& reply == (ReplyView::Exit { success: false }) ==> now == takes(
                tried_ip(src, k as int)->0,
            )
            &&& reply != (ReplyView::Exit { success: false }) && k < 4 ==> now == tries(
                k + 1,
                tried_ip(src, k + 1)->0,
            )
            &&& reply != (ReplyView::Exit { success: false }) && k == 4 ==> now == takes(
                spare(fields(src, '.')),
            )
        }),
{
    law_candidates_in_subnet(src, k as int);
}

/// A bridged guest has an interface of its own on the host's interface, which is moved
/// into the guest's namespace and asks the network for an address there; that one came is
/// told by the guest's interface. What fails in between takes the bridge down again.
pub proof fn law_bridge_is_to_the_host(name: Seq<char>, host: Seq<char>, link: LinkView)
    ensures
        ({
            let steps = bridge_steps(name, host);
            &&& steps.len() == 8
            &&& steps[1].action == command(
                "ip"@,
                no_words().push("link"@).push("add"@).push("lsl-ipvl-"@ + name).push("link"@).push(
                    host,
                ).push("type"@).push("ipvlan"@).push("mode"@).push("l2"@),
            )
            &&& steps[2].action == command(
                "ip"@,
                no_words().push("link"@).push("set"@).push("lsl-ipvl-"@ + name).push("netns"@).push(
                    "lsl-"@ + name,
                ).push("name"@).push("eth0"@),
            )
            &&& runs_inside(
                steps[3].action,
                name,
                no_words().push("ip"@).push("link"@).push("set"@).push("dev"@).push("eth0"@).push(
                    "up"@,
                ),
            )
            &&& runs_inside(
                steps[6].action,
                name,
                no_words().push("dhclient"@).push("-1"@).push("-timeout"@).push("5"@).push(
                    "eth0"@,
                ),
            )
            &&& steps[7].action is Capture
            &&& forall|i: int| i == 1 || i == 2 || i == 6 || i == 7 ==> !goes_on(#[trigger] steps[i])
        }),
        forall|bytes: Seq<u8>, success: bool|
            ({
                let turn = #[trigger] NetStage::next(
                    NetStageOf::Bridge { link },
                    ReplyOf::Output { success, bytes },
                );
                turn matches TurnOf::Go { stage, steps } && (if holds(
                    lossy_text(bytes),
                    "inet "@,
                ) {
                    stage is Bridged
                } else {
                    stage == (NetStageView::Unbridge { link })
                })
            }),
        unbridge_steps(name).len() == 3,
        unbridge_steps(name)[1].action == command(
            "ip"@,
            no_words().push("link"@).push("del"@).push("lsl-ipvl-"@ + name),
        ),
{
    let front = no_words().push("netns"@).push("exec"@).push("lsl-"@ + name);
    lemma_inside_words(name, name, name);
    assert(front + no_words().push("dhclient"@).push("-1"@).push("-timeout"@).push("5"@).push(
        "eth0"@,
    ) =~= front.push("dhclient"@).push("-1"@).push("-timeout"@).push("5"@).push("eth0"@));
}

/// The namespace that is kept under a guest's name is that of its init process, and what
/// tells whether its account was set up is a file of that guest.
pub proof fn law_namespace_is_that_of_the_guest(name: Seq<char>, pid: u32)
    ensures
        ({
            let steps = prepare_steps(name, pid);
            let file = "/var/run/netns/"@ + ("lsl-"@ + name);
            &&& steps.len() == 6
            &&& steps[2].action == (ActionView::Exists { path: file })
            &&& steps[3].action == (ActionView::CreateFile { path: file })
            &&& steps[4].action == command(
                "mount"@,
                no_words().push("--bind"@).push(
                    "/proc/"@ + decimal(pid as nat) + "/ns/"@ + "net"@,
                ).push(file),
            )
            &&& steps[5].action == (ActionView::Exists {
                path: merged_path(name, "etc/lsl_setup_completed"@),
            })
        }),
{
}

/// Taking a guest's network down kills what asked for its address, deletes its table and
/// its cable, and lets go of its namespace.
pub proof fn law_network_is_taken_down(name: Seq<char>)
    ensures
        ({
            let steps = cleanup_steps(name);
            let file = "/var/run/netns/"@ + ("lsl-"@ + name);
            &&& steps.len() == 7
            &&& steps[1].action == command(
                "pkill"@,
                no_words().push("-f"@).push("dhclient.*"@ + ("lsl-"@ + name)),
            )
            &&& steps[2].action == command(
                "nft"@,
                no_words().push("delete"@).push("table"@).push("ip"@).push("lsl-"@ + name),
            )
            &&& steps[3].action == command(
                "ip"@,
                no_words().push("link"@).push("del"@).push("lsl-v-"@ + name + "-0"@),
            )
            &&& steps[4] == only_if(file, true, 2)
            &&& steps[5].action == command("umount"@, no_words().push("-l"@).push(file))
            &&& steps[6].action == (ActionView::RemoveFile { path: file })
        }),
{
}

/// The route out of the host is asked for by where a well-known address would be sent; a
/// host that tells nothing is taken to have a usual interface and address, and one that
/// tells a part of it is asked for its table.
pub proof fn law_route_is_asked_for(link: LinkView, setup: bool, fallback: bool, reply: ReplyView)
    ensures
        route_steps(setup, fallback).last().action == query(
            "ip"@,
            no_words().push("route"@).push("get"@).push("1.1.1.1"@),
        ),
        route_steps(setup, fallback).len() == if setup || fallback {
            2nat
        } else {
            1nat
        },
        !(reply is Output) ==> NetStage::next(NetStageOf::Route { link }, reply) == chosen(
            link,
            "wlp46s0"@,
            "10.0.0.1"@,
        ),
        !(reply is Text) ==> NetStage::next(NetStageOf::RouteTable { link }, reply) == chosen(
            link,
            "wlp46s0"@,
            "10.0.0.1"@,
        ),
        route_table_steps() == no_steps().push(
            attempt(ActionOf::ReadText { path: "/proc/net/route"@ }),
        ),
        link.ip != "dhcp"@ ==> (NetStage::next(NetStageOf::Prepare { link }, reply) matches
            TurnOf::Go { stage, steps } && stage == (NetStageView::Route { link })),
        NetStage::next(NetStageOf::Unbridge { link }, reply) matches TurnOf::Go { stage, steps }
            && stage == (NetStageView::Route { link }),
{
}

/// Everything that belongs to a guest on the host bears the guest's name.
pub proof fn law_names_are_spelled(name: Seq<char>, pid: u32, kind: Seq<char>)
    ensures
        netns(name) == "lsl-"@ + name,
        netns_file(name) == "/var/run/netns/"@ + ("lsl-"@ + name),
        veth(name) == "lsl-v-"@ + name + "-0"@,
        ipvlan(name) == "lsl-ipvl-"@ + name,
        nat_table(name) == "lsl-"@ + name,
        proc_ns(pid, kind) == "/proc/"@ + decimal(pid as nat) + "/ns/"@ + kind,
        setup_flag(name) == merged_path(name, "etc/lsl_setup_completed"@),
{
}

/// A guest without an address of its own, on a host whose address has not four parts, is put
/// behind address translation under a usual address; on a host whose address ends in no
/// number it takes the spare address; and an address of too few parts is beyond help.
pub proof fn law_odd_addresses(link: LinkView, dev: Seq<char>, src: Seq<char>)
    requires
        link.ip == "dhcp"@,
    ensures
        ({
            let parts = fields(src, '.');
            &&& parts.len() >= 3 && parts.len() != 4 ==> chosen(link, dev, src) == (TurnView::<
                NetStageView,
            >::Go {
                stage: NetStageOf::Nat { name: link.name, index: "1"@ },
                steps: nat_steps(link, "10.88.1.2"@, "1"@),
            })
            &&& parts.len() == 4 && number(parts[3]) is None ==> chosen(link, dev, src) == (
            TurnView::<NetStageView>::Go {
                stage: NetStageOf::Routed { name: link.name },
                steps: routed_steps(
                    link,
                    dev,
                    src,
                    parts[0] + "."@ + parts[1] + "."@ + parts[2] + "."@ + "222"@,
                ),
            })
            &&& parts.len() < 3 ==> (chosen(link, dev, src) matches TurnOf::End { result: Err(f) }
                && f.kind == FaultKind::Panic)
        }),
{
    let parts = fields(src, '.');
    if parts.len() == 4 {
        law_candidates_in_subnet(src, 0);
    }
    lemma_usual_address();
}

/// The parts of the usual address.
proof fn lemma_usual_address()
    ensures
        fields("10.88.1.2"@, '.').len() == 4,
        fields("10.88.1.2"@, '.')[2] == "1"@,
{
    reveal_strlit("10.88.1.2");
    reveal_strlit("10");
    reveal_strlit("88");
    reveal_strlit("1");
    reveal_strlit("2");
    let a = no_words().push("10"@);
    let b = a.push("88"@);
    let c = b.push("1"@);
    let d = c.push("2"@);
    assert(d.drop_last() =~= c && c.drop_last() =~= b && b.drop_last() =~= a);
    assert(joined(a, '.') == "10"@);
    assert(joined(b, '.') == "10"@.push('.') + "88"@);
    assert(joined(c, '.') == ("10"@.push('.') + "88"@).push('.') + "1"@);
    assert(joined(d, '.') =~= "10.88.1.2"@);
    assert(!"10"@.contains('.') && !"88"@.contains('.') && !"1"@.contains('.')
        && !"2"@.contains('.'));
    law_join_fields(d, '.');
}

/// Connecting a guest starts with its namespace, and ends well once it is bridged, routed or
/// translated; without an interface to bridge to it is routed. Where something that must be
/// done cannot be done, and nothing is to be cleaned up, it ends with that fault.
pub proof fn law_connecting_goes_on(
    link: LinkView,
    reply: ReplyView,
    fault: FaultView,
    dev: Seq<char>,
)
    ensures
        network_task(link.name, link.pid, link.ip, link.mac) == started(
            NetStageView::Prepare { link },
            prepare_steps(link.name, link.pid),
        ),
        NetStage::next(NetStageOf::Bridged, reply) == giving::<NetStageView>(ValueOf::Nothing),
        NetStage::next(NetStageOf::Routed { name: link.name }, reply) == giving::<NetStageView>(
            ValueOf::Nothing,
        ),
        NetStage::next(NetStageOf::Report, reply) == giving::<NetStageView>(ValueOf::Nothing),
        !(reply is Text) ==> (NetStage::next(NetStageOf::Table { link }, reply) matches TurnOf::Go {
            stage,
            steps,
        } && stage == (NetStageView::Route { link })),
        NetStage::halted(NetStageOf::Prepare { link }, fault, false) == (TurnView::<
            NetStageView,
        >::End { result: Err(fault) }),
        NetStage::halted(NetStageOf::Nat { name: link.name, index: dev }, fault, false) == (
        TurnView::<NetStageView>::End { result: Err(fault) }),
        NetStage::halted(NetStageOf::Bridge { link }, fault, false) matches TurnOf::Go {
            stage,
            steps,
        } && stage == (NetStageView::Unbridge { link }) && steps == unbridge_steps(link.name),
{
}

} // verus!
