use std::collections::{BTreeMap, BTreeSet};

use lsl::action::{Action, ActionOf, Fault, FaultKind, Reply, ReplyOf, Value, ValueOf};
use lsl::boot::boot_distro;
use lsl::calls::{Calls, Operation};
use lsl::cli::{CommandOf, Request, RequestOf};
use lsl::config::GlobalConfig;
use lsl::distro::setup_distro_user;
use lsl::network::cleanup_network;
use lsl::runtime::{get_distro_init_pid, stop_distro};

/// A host made of a few files, devices and tables.
#[derive(Clone, Debug, PartialEq)]
struct World {
    files: BTreeMap<String, Vec<u8>>,
    links: BTreeSet<String>,
    tables: BTreeSet<String>,
    killed: Vec<u32>,
    config: GlobalConfig,
}

fn world(files: &[(&str, &str)]) -> World {
    World {
        files: files.iter().map(|(path, text)| (path.to_string(), text.as_bytes().to_vec())).collect(),
        links: BTreeSet::new(),
        tables: BTreeSet::new(),
        killed: Vec::new(),
        config: GlobalConfig::default(),
    }
}

fn missing() -> Reply {
    ReplyOf::Failed { kind: FaultKind::Host { code: 2 }, error: "No such file".to_string() }
}

impl World {
    fn text(&self, path: &str) -> String {
        String::from_utf8(self.files[path].clone()).unwrap()
    }

    fn perform(&mut self, action: &Action) -> Reply {
        match action {
            ActionOf::Exists { path } => {
                ReplyOf::Found { exists: self.files.contains_key(path) }
            }
            ActionOf::ReadBytes { path } => match self.files.get(path) {
                Some(bytes) => ReplyOf::Bytes { bytes: bytes.clone() },
                None => missing(),
            },
            ActionOf::ReadText { path } => match self.files.get(path) {
                Some(bytes) => ReplyOf::Text { text: String::from_utf8(bytes.clone()).unwrap() },
                None => missing(),
            },
            ActionOf::WriteText { path, text } => {
                self.files.insert(path.clone(), text.as_bytes().to_vec());
                ReplyOf::Done
            }
            ActionOf::AppendText { path, text } => match self.files.get_mut(path) {
                Some(bytes) => {
                    bytes.extend(text.as_bytes());
                    ReplyOf::Done
                }
                None => missing(),
            },
            ActionOf::CreateFile { path } => {
                self.files.insert(path.clone(), Vec::new());
                ReplyOf::Done
            }
            ActionOf::RemoveFile { path } => {
                self.files.remove(path);
                ReplyOf::Done
            }
            ActionOf::Kill { pid } => {
                self.killed.push(*pid);
                self.files.remove(&format!("/proc/{}/ns/uts", pid));
                ReplyOf::Done
            }
            ActionOf::Run { program, args } => {
                let words: Vec<&str> = args.iter().map(|a| a.as_str()).collect();
                match (program.as_str(), words.as_slice()) {
                    ("ip", ["link", "del", link]) => {
                        self.links.remove(*link);
                    }
                    ("nft", ["delete", "table", "ip", table]) => {
                        self.tables.remove(*table);
                    }
                    _ => {}
                }
                ReplyOf::Exit { success: true }
            }
            ActionOf::LoadConfig => ReplyOf::Config { config: self.config.clone() },
            ActionOf::StoreConfig { config, .. } => {
                self.config = config.clone();
                ReplyOf::Done
            }
            ActionOf::AskHome => ReplyOf::Text { text: "/home/kim".to_string() },
            ActionOf::AskUser => {
                ReplyOf::User { name: "kim".to_string(), uid: 1000, gid: 1000 }
            }
            ActionOf::Fork => ReplyOf::Forked { child: Some(7) },
            ActionOf::Wait { .. } => ReplyOf::Waited { code: Some(0) },
            ActionOf::ReceivePid => {
                self.files.insert("/proc/4711/ns/uts".to_string(), Vec::new());
                ReplyOf::Received { number: 4711 }
            }
            ActionOf::Probe { .. } => ReplyOf::Probed { delivered: true, denied: false },
            ActionOf::AskIdentity => ReplyOf::Identity { effective: 0 },
            _ => ReplyOf::Done,
        }
    }

    fn run(&mut self, start: Calls) -> Result<Value, Fault> {
        let mut calls = start;
        loop {
            let (next, moved) = calls.advance();
            calls = next;
            if moved {
                continue;
            }
            let reply = match calls.pending() {
                Some(action) => self.perform(action),
                None => break,
            };
            calls = calls.resume(reply);
        }
        calls.finish().unwrap()
    }

    fn make_user(&mut self, user: &str) -> Result<Value, Fault> {
        self.run(Calls::start(Operation::Enlist(setup_distro_user("/r", user, 1001, 1001))))
    }

    fn stop(&mut self) -> Result<Value, Fault> {
        self.run(Calls::start(Operation::Stop(stop_distro("kali"))))
    }

    fn boot(&mut self) -> Result<Value, Fault> {
        self.run(Calls::start(Operation::Boot(boot_distro("kali"))))
    }

    fn clean_up(&mut self) {
        let steps = cleanup_network("kali");
        (0..steps.len()).for_each(|i| {
            self.perform(steps.action(i));
        });
    }

    fn find(&mut self) -> Result<Value, Fault> {
        self.run(Calls::start(Operation::Lookup(get_distro_init_pid("kali"))))
    }
}

fn guest() -> World {
    world(&[
        ("/r/etc/passwd", "root:x:0:0:root:/root:/bin/bash\n"),
        ("/r/etc/group", "sudo:x:27:alice\n"),
        ("/r/etc/shadow", ""),
    ])
}

#[test]
fn a_user_is_made() {
    let mut host = guest();
    assert_eq!(host.make_user("ali"), Ok(ValueOf::Nothing));
    assert_eq!(
        host.text("/r/etc/passwd"),
        "root:x:0:0:root:/root:/bin/bash\nali:x:1001:1001:ali:/home/ali:/bin/bash\n"
    );
    assert_eq!(host.text("/r/etc/group"), "sudo:x:27:alice,ali\nali:x:1001:\n");
    assert_eq!(host.text("/r/etc/shadow"), "ali:*:19000:0:99999:7:::\n");
    assert_eq!(host.text("/r/etc/sudoers.d/lsl-user"), "ali ALL=(ALL:ALL) NOPASSWD: ALL\n");
}

#[test]
fn making_a_user_twice_changes_nothing() {
    for user in ["ali", "alice", "kim", "a,b", "a:b"] {
        let mut host = guest();
        assert_eq!(host.make_user(user), Ok(ValueOf::Nothing));
        let once = host.clone();
        assert_eq!(host.make_user(user), Ok(ValueOf::Nothing));
        assert_eq!(host, once);
        let listed = host.text("/r/etc/passwd");
        assert_eq!(listed.lines().filter(|l| l.starts_with(&format!("{}:", user))).count(), 1);
    }
}

#[test]
fn a_guest_without_its_tables_gets_no_user() {
    let mut host = guest();
    host.files.remove("/r/etc/shadow");
    assert_eq!(host.make_user("kim").unwrap_err().kind, FaultKind::Host { code: 2 });
}

fn running() -> World {
    let mut host = world(&[
        ("/var/lib/lsl/run/kali.pid", "77"),
        ("/proc/77/ns/uts", ""),
        ("/var/run/netns/lsl-kali", ""),
    ]);
    host.links.insert("lsl-v-kali-0".to_string());
    host.links.insert("lsl-v-arch-0".to_string());
    host.tables.insert("lsl-kali".to_string());
    host
}

#[test]
fn a_stopped_distribution_is_gone() {
    let mut host = running();
    assert_eq!(host.find(), Ok(ValueOf::Located { found: Some(77) }));
    assert_eq!(host.stop(), Ok(ValueOf::Nothing));
    assert_eq!(host.killed, [77]);
    assert_eq!(host.find(), Ok(ValueOf::Located { found: None }));
    assert!(host.files.is_empty() && host.tables.is_empty());
    assert_eq!(host.links.iter().collect::<Vec<_>>(), ["lsl-v-arch-0"]);
}

#[test]
fn what_was_booted_is_found() {
    let mut host = world(&[("/proc/net/route", "Iface\tDestination\n")]);
    let kali = host.config.describe("kali");
    host.config.register("kali", kali);
    assert_eq!(host.find(), Ok(ValueOf::Located { found: None }));
    assert_eq!(host.boot(), Ok(ValueOf::Pid { pid: 4711 }));
    assert_eq!(host.text("/var/lib/lsl/run/kali.pid"), "4711");
    assert_eq!(host.find(), Ok(ValueOf::Located { found: Some(4711) }));
    assert_eq!(host.stop(), Ok(ValueOf::Nothing));
    assert_eq!(host.find(), Ok(ValueOf::Located { found: None }));
}

#[test]
fn stopping_what_does_not_run_cleans_up_too() {
    let mut host = running();
    host.files.remove("/proc/77/ns/uts");
    assert_eq!(host.stop(), Ok(ValueOf::Nothing));
    assert!(host.killed.is_empty());
    assert_eq!(host.find(), Ok(ValueOf::Located { found: None }));
    assert!(host.files.is_empty() && host.tables.is_empty());
    let once = host.clone();
    assert_eq!(host.stop(), Ok(ValueOf::Nothing));
    assert_eq!(host, once);
}

#[test]
fn a_second_cleanup_changes_nothing() {
    let mut host = running();
    host.clean_up();
    let once = host.clone();
    host.clean_up();
    assert_eq!(host, once);
}

#[test]
fn what_is_saved_is_loaded() {
    let mut host = world(&[]);
    for name in ["kali", "arch"] {
        let distro = host.config.describe(name);
        host.config.register(name, distro);
    }
    let request: Request = RequestOf {
        distro: None,
        root: false,
        args: Vec::new(),
        command: CommandOf::Default { name: "arch".to_string() },
    };
    assert_eq!(host.run(Calls::serve(request, false)), Ok(ValueOf::Nothing));
    let mut wanted = host.config.clone();
    wanted.make_default("arch");
    let load: Action = ActionOf::LoadConfig;
    assert_eq!(host.perform(&load), ReplyOf::Config { config: wanted });
}
