use lsl::action::{Action, ActionOf, Fault, FaultKind, Reply, ReplyOf, Value, ValueOf};
use lsl::network::{
    are_ips_in_same_subnet, cleanup_network, get_default_host_interface,
    get_default_route_details, ipvlan_interface, lan_candidate, namespace_path, netns_name,
    netns_path, read_route, setup_flag_path, setup_network, veth_host, RouteOf, TRIES,
};
use lsl::task::{Plan, Task, TaskOf};

/// Runs a task against a host and tells what was asked of it and how it ended.
fn play<P: Plan>(
    task: Task<P>,
    mut host: impl FnMut(&Action) -> Reply,
) -> (Vec<String>, Result<Value, Fault>) {
    let mut task = task;
    let mut seen = Vec::new();
    loop {
        let reply = match task.pending() {
            Some(action) => {
                seen.push(brief(action));
                host(action)
            }
            None => break,
        };
        task = task.resume(reply);
    }
    match task {
        TaskOf::Over { result } => (seen, result),
        TaskOf::Active { .. } => panic!("the task waits for nothing"),
    }
}

/// An error of the host.
fn failed(text: &str) -> Reply {
    ReplyOf::Failed { kind: FaultKind::Host { code: 5 }, error: text.to_string() }
}

/// An action in short.
fn brief(action: &Action) -> String {
    match action {
        ActionOf::Say { lead, text, tail, .. } => format!("say {}{}{}", lead, text, tail),
        ActionOf::Warn { lead, text, tail, .. } => format!("warn {}{}{}", lead, text, tail),
        ActionOf::Run { program, args } => format!("{} {}", program, args.join(" ")),
        ActionOf::Capture { program, args } => format!("{} {}", program, args.join(" ")),
        ActionOf::Exists { path } => format!("exists {}", path),
        ActionOf::ReadText { path } => format!("read {}", path),
        ActionOf::ReadBytes { path } => format!("read {}", path),
        ActionOf::WriteText { path, text } => format!("write {} {:?}", path, text),
        ActionOf::AppendText { path, text } => format!("append {} {:?}", path, text),
        ActionOf::InGuest { pid, args } => format!("in {}: {}", pid, args.join(" ")),
        _ => format!("{:?}", action),
    }
}

const TABLE: &str = "Iface\tDestination\tGateway\nlo\t0000007F\t00000000\nwlan0\t00000000\t0100A8C0\n";

const ROUTE: &[u8] = b"1.1.1.1 via 192.168.1.1 dev wlan0 src 192.168.1.7 uid 0\n    cache\n";

/// A host on which every program succeeds, the account is set up as told, and no
/// address of the network answers.
fn smooth(set_up: bool) -> impl FnMut(&Action) -> Reply {
    move |action: &Action| match action {
        ActionOf::Exists { path } => ReplyOf::Found {
            exists: path.ends_with("lsl_setup_completed") && set_up,
        },
        ActionOf::ReadText { .. } => ReplyOf::Text { text: TABLE.to_string() },
        ActionOf::Capture { args, .. } => ReplyOf::Output {
            success: true,
            bytes: if args[0] == "route" {
                ROUTE.to_vec()
            } else {
                b"2: eth0\n    inet 192.168.1.50/24 scope global eth0\n".to_vec()
            },
        },
        ActionOf::Run { program, .. } => ReplyOf::Exit { success: program != "ping" },
        _ => ReplyOf::Done,
    }
}

#[test]
fn names_bear_the_name_of_the_guest() {
    assert_eq!(netns_name("kali"), "lsl-kali");
    assert_eq!(netns_path("kali"), "/var/run/netns/lsl-kali");
    assert_eq!(veth_host("kali"), "lsl-v-kali-0");
    assert_eq!(ipvlan_interface("kali"), "lsl-ipvl-kali");
    assert_eq!(namespace_path(42, "net"), "/proc/42/ns/net");
    assert_eq!(
        setup_flag_path("kali"),
        "/var/lib/lsl/distros/kali/merged/etc/lsl_setup_completed"
    );
}

#[test]
fn names_of_two_guests_differ() {
    assert_ne!(netns_name("a"), netns_name("b"));
    assert_ne!(netns_path("a"), netns_path("b"));
    assert_ne!(veth_host("a"), veth_host("b"));
    assert_ne!(ipvlan_interface("a"), ipvlan_interface("b"));
}

#[test]
fn subnets_are_three_equal_parts() {
    assert!(are_ips_in_same_subnet("192.168.1.7", "192.168.1.200"));
    assert!(!are_ips_in_same_subnet("192.168.1.7", "192.168.2.7"));
    assert!(!are_ips_in_same_subnet("192.168.1", "192.168.1"));
    assert!(!are_ips_in_same_subnet("dhcp", "192.168.1.7"));
    assert!(are_ips_in_same_subnet("a.b.c.d", "a.b.c.e"));
    assert!(are_ips_in_same_subnet("1.2.3.4", "1.2.3.4"));
    assert!(are_ips_in_same_subnet("1.2.3.5", "1.2.3.4"));
}

#[test]
fn candidates_are_moved_by_fixed_steps() {
    let tried: Vec<_> = (0..TRIES).map(|k| lan_candidate("192.168.1.7", k).unwrap()).collect();
    assert_eq!(
        tried,
        ["192.168.1.107", "192.168.1.157", "192.168.1.207", "192.168.1.57", "192.168.1.87"]
    );
    assert_eq!(lan_candidate("192.168.1.7", TRIES), None);
    assert_eq!(lan_candidate("192.168.1", 0), None);
    assert_eq!(lan_candidate("192.168.1.x", 0), None);
    assert_eq!(lan_candidate("192.168.1.4294967295", 0), None);
}

#[test]
fn candidates_stay_in_the_subnet_and_in_range() {
    assert_eq!(lan_candidate("10.0.0.154", 0), Some("10.0.0.253".to_string()));
    assert_eq!(lan_candidate("10.0.0.254", 0), Some("10.0.0.100".to_string()));
    assert_eq!(lan_candidate("10.0.0.253", 0), Some("10.0.0.99".to_string()));
    for last in 0..=255 {
        let host = format!("10.0.0.{}", last);
        for k in 0..TRIES {
            let ip = lan_candidate(&host, k).unwrap();
            assert!(are_ips_in_same_subnet(&ip, &host));
            let octet: u32 = ip.rsplit('.').next().unwrap().parse().unwrap();
            assert!(1 <= octet && octet <= 253);
        }
    }
}

#[test]
fn the_default_interface_is_in_the_table() {
    assert_eq!(get_default_host_interface(TABLE), Ok("wlan0".to_string()));
    let heading_only = "wlan0 00000000\n";
    let fault = get_default_host_interface(heading_only).unwrap_err();
    assert_eq!(fault.kind, FaultKind::NotFound);
    assert_eq!(fault.message, "No default host network interface found");
}

#[test]
fn routes_are_read_from_the_first_line() {
    match read_route("1.1.1.1 via 192.168.1.1 dev wlan0 src 192.168.1.7\nnext dev lo\n") {
        RouteOf::Complete { dev, src, via } => {
            assert_eq!((dev.as_str(), src.as_str(), via.as_str()), ("wlan0", "192.168.1.7", "192.168.1.1"));
        }
        _ => panic!("the route is complete"),
    }
    assert!(matches!(read_route(""), RouteOf::Silent));
    assert!(matches!(read_route("unreachable"), RouteOf::Partial));
    assert!(matches!(read_route("1.1.1.1 dev wlan0 src"), RouteOf::Partial));
    match read_route("x dev a dev b src c") {
        RouteOf::Complete { dev, via, .. } => assert_eq!((dev.as_str(), via.as_str()), ("b", "")),
        _ => panic!("the route is complete"),
    }
}

#[test]
fn route_details_fall_back_to_the_table() {
    let triple = |a: &str, b: &str, c: &str| Ok((a.to_string(), b.to_string(), c.to_string()));
    assert_eq!(
        get_default_route_details(ROUTE, None),
        triple("wlan0", "192.168.1.7", "192.168.1.1")
    );
    assert_eq!(
        get_default_route_details(b"unreachable\n", Some(TABLE)),
        triple("wlan0", "10.0.0.1", "10.0.0.1")
    );
    let silent = get_default_route_details(b"", Some(TABLE)).unwrap_err();
    assert_eq!(silent.message, "Failed to get default route");
    let partial = get_default_route_details(b"unreachable\n", Some("")).unwrap_err();
    assert_eq!((partial.kind, partial.message.as_str()), (FaultKind::Other, "Failed to parse default route details"));
    assert!(get_default_route_details(b"unreachable\n", None).is_err());
}

#[test]
fn routes_may_hold_bytes_that_are_no_text() {
    let details = get_default_route_details(b"\xff dev wlan0 src 10.0.0.5\n", None).unwrap();
    assert_eq!(details.0, "wlan0");
    let odd = get_default_route_details(b"x dev w\xff src 10.0.0.5\n", None).unwrap();
    assert_eq!(odd.0, "w\u{fffd}");
}

#[test]
fn a_guest_that_asks_for_dhcp_is_bridged() {
    let (seen, result) = play(setup_network("kali", 42, "dhcp", "02:42:0a:58:00:01"), smooth(true));
    assert_eq!(result, Ok(ValueOf::Nothing));
    assert_eq!(
        seen,
        [
            "say Configuring network for distro 'kali' (PID: 42)...",
            "CreateDirs { path: \"/var/run/netns\" }",
            "exists /var/run/netns/lsl-kali",
            "CreateFile { path: \"/var/run/netns/lsl-kali\" }",
            "mount --bind /proc/42/ns/net /var/run/netns/lsl-kali",
            "exists /var/lib/lsl/distros/kali/merged/etc/lsl_setup_completed",
            "say [LSL] Network mode: Bridging to host network (DHCP via ipvlan)...",
            "read /proc/net/route",
            "say [LSL] Bridging to host default interface: wlan0",
            "ip link add lsl-ipvl-kali link wlan0 type ipvlan mode l2",
            "ip link set lsl-ipvl-kali netns lsl-kali name eth0",
            "ip netns exec lsl-kali ip link set dev eth0 up",
            "ip netns exec lsl-kali ip link set dev lo up",
            "say [LSL] Requesting IP from DHCP server...",
            "ip netns exec lsl-kali dhclient -1 -timeout 5 eth0",
            "ip netns exec lsl-kali ip -4 addr show dev eth0",
            "say [LSL] Bridged DHCP setup succeeded.",
        ]
    );
}

#[test]
fn a_bridge_needs_an_open_address_an_account_and_an_interface() {
    for ip in ["dhcp", "10.88.3.2"] {
        for set_up in [true, false] {
            for table in [TABLE, "Iface\tDestination\tGateway\nlo\t0000007F\t00000000\n"] {
                let mut host = smooth(set_up);
                let (seen, _) = play(setup_network("kali", 42, ip, "m"), |action| match action {
                    ActionOf::ReadText { .. } => ReplyOf::Text { text: table.to_string() },
                    _ => host(action),
                });
                let bridged = seen.iter().any(|a| a.starts_with("ip link add lsl-ipvl-kali"));
                assert_eq!(bridged, ip == "dhcp" && set_up && table == TABLE);
            }
        }
    }
}

#[test]
fn without_a_lease_the_guest_is_routed() {
    let mut host = smooth(true);
    let (seen, result) = play(setup_network("kali", 42, "dhcp", "m"), |action| match action {
        ActionOf::Run { args, .. } if args.contains(&"dhclient".to_string()) => {
            ReplyOf::Exit { success: false }
        }
        _ => host(action),
    });
    assert_eq!(result, Ok(ValueOf::Nothing));
    let tail = &seen[15..];
    assert_eq!(
        tail,
        [
            "say Warning: Bridged DHCP failed (common on wireless/Wi-Fi adapters or if dhclient is missing).",
            "ip link del lsl-ipvl-kali",
            "ip netns exec lsl-kali ip link del eth0",
            "say [LSL] Falling back to Routed Proxy ARP mode...",
            "ip route get 1.1.1.1",
            "ping -c 1 -W 1 192.168.1.107",
            "say [LSL] Network mode: Routed Proxy ARP (Assigned LAN IP: 192.168.1.107)",
            "ip link add lsl-v-kali-0 type veth peer name eth0",
            "ip link set eth0 netns lsl-kali",
            "ip netns exec lsl-kali ip link set dev eth0 address m",
            "ip netns exec lsl-kali ip addr add 192.168.1.107/24 dev eth0",
            "ip netns exec lsl-kali ip link set dev eth0 up",
            "ip netns exec lsl-kali ip link set dev lo up",
            "write /proc/sys/net/ipv4/ip_forward \"1\"",
            "write /proc/sys/net/ipv4/ping_group_range \"0 2147483647\"",
            "write /proc/sys/net/ipv4/conf/wlan0/proxy_arp \"1\"",
            "write /proc/sys/net/ipv4/conf/lsl-v-kali-0/proxy_arp \"1\"",
            "ip link set dev lsl-v-kali-0 up",
            "ip route add 192.168.1.107 dev lsl-v-kali-0",
            "ip netns exec lsl-kali ip route add 192.168.1.7 dev eth0",
            "ip netns exec lsl-kali ip route add default via 192.168.1.7",
        ]
    );
}

#[test]
fn an_answer_without_an_address_is_no_lease() {
    let mut host = smooth(true);
    let (seen, _) = play(setup_network("kali", 42, "dhcp", "m"), |action| match action {
        ActionOf::Capture { args, .. } if args[0] != "route" => {
            ReplyOf::Output { success: true, bytes: b"inet6 fe80::1\xff".to_vec() }
        }
        _ => host(action),
    });
    assert!(seen.contains(&"ip link del lsl-ipvl-kali".to_string()));
}

#[test]
fn taken_addresses_are_passed_over() {
    let mut host = smooth(false);
    let mut answers = 0;
    let (seen, result) = play(setup_network("kali", 42, "dhcp", "m"), |action| match action {
        ActionOf::Run { program, .. } if program == "ping" => {
            answers += 1;
            ReplyOf::Exit { success: answers < 3 }
        }
        _ => host(action),
    });
    assert_eq!(result, Ok(ValueOf::Nothing));
    assert!(seen.contains(
        &"say [LSL] Interactive setup active: using temporary NAT route for package downloads...".to_string()
    ));
    assert!(seen.contains(&"ip netns exec lsl-kali ip addr add 192.168.1.207/24 dev eth0".to_string()));
}

#[test]
fn with_all_addresses_taken_the_spare_one_is_used() {
    let mut host = smooth(false);
    let (seen, result) = play(setup_network("kali", 42, "dhcp", "m"), |action| match action {
        ActionOf::Run { program, .. } if program == "ping" => ReplyOf::Exit { success: true },
        _ => host(action),
    });
    assert_eq!(result, Ok(ValueOf::Nothing));
    assert_eq!(seen.iter().filter(|a| a.starts_with("ping")).count(), TRIES);
    assert!(seen.contains(&"ip netns exec lsl-kali ip addr add 192.168.1.222/24 dev eth0".to_string()));
}

#[test]
fn an_unknown_route_is_assumed() {
    let mut host = smooth(true);
    let (seen, _) = play(setup_network("kali", 42, "10.0.0.9", "m"), |action| match action {
        ActionOf::Capture { .. } => failed("no such program"),
        _ => host(action),
    });
    assert!(seen.contains(&"write /proc/sys/net/ipv4/conf/wlp46s0/proxy_arp \"1\"".to_string()));
    assert!(seen.contains(&"ip netns exec lsl-kali ip route add default via 10.0.0.1".to_string()));
}

#[test]
fn another_subnet_is_translated() {
    let (seen, result) = play(setup_network("kali", 42, "10.88.3.2", "m"), smooth(true));
    assert_eq!(result, Ok(ValueOf::Nothing));
    assert_eq!(
        seen[7..],
        [
            "ip link add lsl-v-kali-0 type veth peer name eth0",
            "ip link set eth0 netns lsl-kali",
            "ip netns exec lsl-kali ip link set dev eth0 address m",
            "ip netns exec lsl-kali ip addr add 10.88.3.2/24 dev eth0",
            "ip netns exec lsl-kali ip link set dev eth0 up",
            "ip netns exec lsl-kali ip link set dev lo up",
            "ip netns exec lsl-kali ip route add default via 10.88.3.1",
            "ip addr add 10.88.3.1/24 dev lsl-v-kali-0",
            "ip link set dev lsl-v-kali-0 up",
            "sysctl -w net.ipv4.ip_forward=1",
            "sysctl -w net.ipv4.ping_group_range=0 2147483647",
            "nft delete table ip lsl-kali",
            "nft add table ip lsl-kali",
            "nft add chain ip lsl-kali nat { type nat hook postrouting priority 100 ; }",
            "nft add rule ip lsl-kali nat ip saddr 10.88.3.0/24 masquerade",
            "say nftables NAT rules configured successfully.",
        ]
    );
}

#[test]
fn a_rule_that_fails_is_told_only() {
    let mut host = smooth(true);
    let (seen, result) = play(setup_network("kali", 42, "10.88.3.2", "m"), |action| match action {
        ActionOf::Run { args, .. } if args.contains(&"chain".to_string()) => {
            ReplyOf::Exit { success: false }
        }
        _ => host(action),
    });
    assert_eq!(result, Ok(ValueOf::Nothing));
    assert_eq!(
        seen.last().unwrap(),
        "say Warning: nftables NAT configuration failed. Subsystem may not have internet access."
    );
}

#[test]
fn a_failed_link_is_cleaned_up() {
    let mut host = smooth(true);
    let (seen, result) = play(setup_network("kali", 42, "10.88.3.2", "m"), |action| match action {
        ActionOf::Run { args, .. } if args.contains(&"address".to_string()) => {
            ReplyOf::Exit { success: false }
        }
        ActionOf::Exists { .. } => ReplyOf::Found { exists: true },
        _ => host(action),
    });
    let fault = result.unwrap_err();
    assert_eq!((fault.kind, fault.message.as_str()), (FaultKind::Other, "Failed to set guest MAC address"));
    assert_eq!(
        seen[seen.len() - 7..],
        [
            "say Cleaning up network configuration for distro 'kali'...",
            "pkill -f dhclient.*lsl-kali",
            "nft delete table ip lsl-kali",
            "ip link del lsl-v-kali-0",
            "exists /var/run/netns/lsl-kali",
            "umount -l /var/run/netns/lsl-kali",
            "RemoveFile { path: \"/var/run/netns/lsl-kali\" }",
        ]
    );
}

#[test]
fn a_program_that_cannot_be_started_is_not_cleaned_up_after() {
    let mut host = smooth(true);
    let (seen, result) = play(setup_network("kali", 42, "10.88.3.2", "m"), |action| match action {
        ActionOf::Run { args, .. } if args.contains(&"veth".to_string()) => {
            failed("No such file or directory")
        }
        _ => host(action),
    });
    let fault = result.unwrap_err();
    assert_eq!((fault.kind, fault.message.as_str()), (FaultKind::Host { code: 5 }, "No such file or directory"));
    assert!(!seen.iter().any(|a| a.starts_with("pkill")));
}

#[test]
fn the_namespace_must_be_kept() {
    let mut host = smooth(true);
    let (_, result) = play(setup_network("kali", 42, "dhcp", "m"), |action| match action {
        ActionOf::Run { program, .. } if program == "mount" => ReplyOf::Exit { success: false },
        _ => host(action),
    });
    assert_eq!(result.unwrap_err().message, "Failed to bind-mount network namespace");
}

#[test]
fn an_address_needs_four_parts() {
    let (_, result) = play(setup_network("kali", 42, "10.88.3", "m"), smooth(true));
    let fault = result.unwrap_err();
    assert_eq!((fault.kind, fault.message.as_str()), (FaultKind::InvalidInput, "Malformed IP address"));
}

#[test]
fn an_address_of_the_host_with_too_few_parts_is_beyond_help() {
    let mut host = smooth(false);
    let (_, result) = play(setup_network("kali", 42, "dhcp", "m"), |action| match action {
        ActionOf::Capture { .. } => {
            ReplyOf::Output { success: true, bytes: b"x dev wlan0 src fe80::1\n".to_vec() }
        }
        _ => host(action),
    });
    assert_eq!(result.unwrap_err().kind, FaultKind::Panic);
}

#[test]
fn cleaning_up_spares_a_namespace_that_is_not_there() {
    let steps = cleanup_network("kali");
    assert_eq!(steps.len(), 7);
    assert_eq!(
        steps.action(4),
        &ActionOf::Exists { path: "/var/run/netns/lsl-kali".to_string() }
    );
}

#[test]
fn every_command_that_lays_the_cable_is_cleaned_up_after() {
    let messages = [
        "Failed to create veth pair",
        "Failed to move guest veth interface to netns",
        "Failed to set guest MAC address",
        "Failed to set guest IP address",
        "Failed to bring guest interface UP",
        "Failed to bring loopback interface UP",
        "Failed to add default route inside guest",
        "Failed to set host IP address on veth",
        "Failed to bring host veth interface UP",
    ];
    for (k, message) in messages.iter().enumerate() {
        let mut host = smooth(true);
        let mut left = k + 1;
        let (seen, result) = play(setup_network("kali", 42, "10.88.3.2", "m"), |action| match action {
            ActionOf::Run { program, .. } if program == "ip" && left > 0 => {
                left -= 1;
                ReplyOf::Exit { success: left > 0 }
            }
            _ => host(action),
        });
        assert_eq!(result.unwrap_err().message, *message);
        assert!(seen.contains(&"ip link del lsl-v-kali-0".to_string()));
        assert!(seen.contains(&"nft delete table ip lsl-kali".to_string()));
    }
}

#[test]
fn a_route_that_was_incomplete_is_completed_from_the_table() {
    let mut host = smooth(true);
    let (seen, result) = play(setup_network("kali", 42, "10.0.0.9", "m"), |action| match action {
        ActionOf::Capture { .. } => ReplyOf::Output { success: true, bytes: b"unreachable\n".to_vec() },
        _ => host(action),
    });
    assert_eq!(result, Ok(ValueOf::Nothing));
    assert!(seen.contains(&"read /proc/net/route".to_string()));
    assert!(seen.contains(&"write /proc/sys/net/ipv4/conf/wlan0/proxy_arp \"1\"".to_string()));
}
