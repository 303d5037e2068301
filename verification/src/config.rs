//! The registry of distributions.
use vstd::prelude::*;

use crate::action::ActionOf;
use crate::path::{join_path, path_join};
use crate::task::{must, no_steps, StepView, Steps};
use crate::text::{
    format_hex_octet, hex_octet, law_numerals_are_positional, law_octets_have_two_digits,
    lemma_prefix_injective, numeral, same,
};

verus! {

/// Where everything the manager keeps is stored.
pub const LSL_DIR: &'static str = "/var/lib/lsl";

/// A registered distribution.
#[derive(Debug, PartialEq, Eq)]
pub struct DistroConfig {
    pub name: String,
    pub path: String,
    pub ip_address: String,
    pub mac_address: String,
    pub default_user: String,
}

/// The texts of a registered distribution.
pub struct DistroView {
    pub name: Seq<char>,
    pub path: Seq<char>,
    pub ip_address: Seq<char>,
    pub mac_address: Seq<char>,
    pub default_user: Seq<char>,
}

impl View for DistroConfig {
    type V = DistroView;

    open spec fn view(&self) -> DistroView {
        DistroView {
            name: self.name@,
            path: self.path@,
            ip_address: self.ip_address@,
            mac_address: self.mac_address@,
            default_user: self.default_user@,
        }
    }
}

impl Clone for DistroConfig {
    fn clone(&self) -> (r: Self)
        ensures
            r@ == self@,
    {
        DistroConfig {
            name: self.name.clone(),
            path: self.path.clone(),
            ip_address: self.ip_address.clone(),
            mac_address: self.mac_address.clone(),
            default_user: self.default_user.clone(),
        }
    }
}

// ------------------------------------------------------------------ the entries

/// A list of named distributions.
pub type Entries = Seq<(Seq<char>, DistroView)>;

/// Entry `i` bears the name.
pub open spec fn named_at(e: Entries, name: Seq<char>, i: int) -> bool {
    0 <= i < e.len() && e[i].0 == name
}

/// Some entry bears the name.
pub open spec fn registered(e: Entries, name: Seq<char>) -> bool {
    exists|i: int| named_at(e, name, i)
}

/// Where the entry of that name stands.
pub open spec fn position(e: Entries, name: Seq<char>) -> int {
    choose|i: int| named_at(e, name, i)
}

/// No name occurs twice.
pub open spec fn distinct(e: Entries) -> bool {
    forall|i: int, j: int|
        0 <= i < e.len() && 0 <= j < e.len() && i != j ==> (#[trigger] e[i]).0 != (#[trigger] e[j]).0
}

/// The distribution of that name.
pub open spec fn lookup(e: Entries, name: Seq<char>) -> Option<DistroView> {
    if registered(e, name) {
        Some(e[position(e, name)].1)
    } else {
        None
    }
}

/// The entries with the distribution put under the name: in the place of the
/// one that bore it, else at the end.
pub open spec fn inserted(e: Entries, name: Seq<char>, d: DistroView) -> Entries {
    if registered(e, name) {
        e.update(position(e, name), (name, d))
    } else {
        e.push((name, d))
    }
}

/// The entries without the one of that name.
pub open spec fn removed(e: Entries, name: Seq<char>) -> Entries {
    if registered(e, name) {
        e.remove(position(e, name))
    } else {
        e
    }
}

/// The entries with another default user for the one of that name.
pub open spec fn reassigned(e: Entries, name: Seq<char>, user: Seq<char>) -> Entries {
    match lookup(e, name) {
        Some(d) => inserted(e, name, DistroView { default_user: user, ..d }),
        None => e,
    }
}

/// The name of the first entry.
pub open spec fn first_name(e: Entries) -> Option<Seq<char>> {
    if e.len() > 0 {
        Some(e[0].0)
    } else {
        None
    }
}

/// A known place of the name is its position.
pub proof fn lemma_position(e: Entries, name: Seq<char>, i: int)
    requires
        distinct(e),
        named_at(e, name, i),
    ensures
        registered(e, name),
        position(e, name) == i,
{
    let p = position(e, name);
    assert(named_at(e, name, p));
    if p != i {
        assert(e[p].0 != e[i].0);
    }
}

/// Insertion keeps the names distinct, gives back what was inserted, and changes
/// nothing under any other name.
pub proof fn law_insert(e: Entries, name: Seq<char>, d: DistroView, other: Seq<char>)
    requires
        distinct(e),
        other != name,
    ensures
        distinct(inserted(e, name, d)),
        lookup(inserted(e, name, d), name) == Some(d),
        lookup(inserted(e, name, d), other) == lookup(e, other),
{
    let after = inserted(e, name, d);
    if registered(e, name) {
        let p = position(e, name);
        assert(named_at(e, name, p));
        assert forall|i: int, j: int|
            0 <= i < after.len() && 0 <= j < after.len() && i != j implies (#[trigger] after[i]).0
            != (#[trigger] after[j]).0 by {
            assert(e[i].0 != e[j].0);
        }
        assert(named_at(after, name, p));
        lemma_position(after, name, p);
    } else {
        assert forall|i: int, j: int|
            0 <= i < after.len() && 0 <= j < after.len() && i != j implies (#[trigger] after[i]).0
            != (#[trigger] after[j]).0 by {
            if i < e.len() && j < e.len() {
                assert(e[i].0 != e[j].0);
            } else if i < e.len() {
                assert(!named_at(e, name, i));
            } else {
                assert(!named_at(e, name, j));
            }
        }
        assert(named_at(after, name, e.len() as int));
        lemma_position(after, name, e.len() as int);
    }
    if registered(e, other) {
        let q = position(e, other);
        assert(named_at(e, other, q));
        assert(named_at(after, other, q));
        lemma_position(after, other, q);
    } else if registered(after, other) {
        let q = position(after, other);
        assert(named_at(after, other, q));
        assert(named_at(e, other, q));
    }
}

/// Removal keeps the names distinct, forgets the name, and changes nothing under
/// any other name.
pub proof fn law_remove(e: Entries, name: Seq<char>, other: Seq<char>)
    requires
        distinct(e),
        other != name,
    ensures
        distinct(removed(e, name)),
        lookup(removed(e, name), name) is None,
        lookup(removed(e, name), other) == lookup(e, other),
{
    let after = removed(e, name);
    if registered(e, name) {
        let p = position(e, name);
        assert(named_at(e, name, p));
        assert forall|i: int, j: int|
            0 <= i < after.len() && 0 <= j < after.len() && i != j implies (#[trigger] after[i]).0
            != (#[trigger] after[j]).0 by {
            let i0 = if i < p {
                i
            } else {
                i + 1
            };
            let j0 = if j < p {
                j
            } else {
                j + 1
            };
            assert(e[i0].0 != e[j0].0);
        }
        if registered(after, name) {
            let q = position(after, name);
            assert(named_at(after, name, q));
            let q0 = if q < p {
                q
            } else {
                q + 1
            };
            assert(e[q0].0 != e[p].0);
        }
        if registered(e, other) {
            let q = position(e, other);
            assert(named_at(e, other, q));
            let q0 = if q < p {
                q
            } else {
                q - 1
            };
            assert(named_at(after, other, q0));
            lemma_position(after, other, q0);
        } else if registered(after, other) {
            let q = position(after, other);
            assert(named_at(after, other, q));
            let q0 = if q < p {
                q
            } else {
                q + 1
            };
            assert(named_at(e, other, q0));
        }
    }
}

/// Registering a new name and removing it again leaves the entries as they were.
pub proof fn law_remove_undoes_insert(e: Entries, name: Seq<char>, d: DistroView)
    requires
        distinct(e),
        !registered(e, name),
    ensures
        removed(inserted(e, name, d), name) == e,
{
    let after = e.push((name, d));
    assert forall|i: int, j: int|
        0 <= i < after.len() && 0 <= j < after.len() && i != j implies (#[trigger] after[i]).0 != (
    #[trigger] after[j]).0 by {
        if i < e.len() && j < e.len() {
            assert(e[i].0 != e[j].0);
        } else if i < e.len() {
            assert(!named_at(e, name, i));
        } else {
            assert(!named_at(e, name, j));
        }
    }
    assert(named_at(after, name, e.len() as int));
    lemma_position(after, name, e.len() as int);
    assert(after.remove(e.len() as int) =~= e);
}

// ---------------------------------------------------------------------- the map

/// A name and the distribution registered under it.
#[derive(Debug, PartialEq, Eq)]
struct Entry {
    name: String,
    distro: DistroConfig,
}

/// Distributions by name, in the order in which they were registered.
#[derive(Debug, PartialEq, Eq)]
pub struct DistroMap {
    entries: Vec<Entry>,
}

/// The contents of a list of entries.
closed spec fn contents(v: Seq<Entry>) -> Entries {
    v.map_values(|x: Entry| (x.name@, x.distro@))
}

impl View for DistroMap {
    type V = Entries;

    closed spec fn view(&self) -> Entries {
        contents(self.entries@)
    }
}

impl DistroMap {
    #[verifier::type_invariant]
    spec fn well_formed(self) -> bool {
        distinct(contents(self.entries@))
    }

    /// No distribution at all.
    pub fn new() -> (r: Self)
        ensures
            r@ == Seq::<(Seq<char>, DistroView)>::empty(),
    {
        let r = DistroMap { entries: Vec::new() };
        assert(r@ =~= Seq::<(Seq<char>, DistroView)>::empty());
        r
    }

    /// How many distributions there are.
    pub fn len(&self) -> (n: usize)
        ensures
            n == self@.len(),
            distinct(self@),
    {
        proof {
            use_type_invariant(&*self);
        }
        self.entries.len()
    }

    /// Tells whether there is none.
    pub fn is_empty(&self) -> (r: bool)
        ensures
            r == (self@.len() == 0),
    {
        self.entries.len() == 0
    }

    /// The name of entry `i`.
    pub fn name_at(&self, i: usize) -> (r: &str)
        requires
            i < self@.len(),
        ensures
            r@ == self@[i as int].0,
    {
        self.entries[i].name.as_str()
    }

    /// The distribution of entry `i`.
    pub fn distro_at(&self, i: usize) -> (r: &DistroConfig)
        requires
            i < self@.len(),
        ensures
            r@ == self@[i as int].1,
    {
        &self.entries[i].distro
    }

    /// Where the name stands, if it is registered.
    fn find(&self, name: &str) -> (r: Option<usize>)
        ensures
            distinct(self@),
            match r {
                Some(i) => named_at(self@, name@, i as int) && registered(self@, name@)
                    && position(self@, name@) == i,
                None => !registered(self@, name@),
            },
    {
        proof {
            use_type_invariant(&*self);
        }
        let mut i: usize = 0;
        while i < self.entries.len()
            invariant
                i <= self.entries@.len(),
                distinct(self@),
                forall|j: int| 0 <= j < i ==> !named_at(self@, name@, j),
            decreases self.entries@.len() - i,
        {
            if same(self.entries[i].name.as_str(), name) {
                assert(named_at(self@, name@, i as int));
                proof {
                    lemma_position(self@, name@, i as int);
                }
                return Some(i);
            }
            i = i + 1;
        }
        None
    }

    /// Tells whether the name is registered.
    pub fn contains_key(&self, name: &str) -> (r: bool)
        ensures
            r == registered(self@, name@),
    {
        self.find(name).is_some()
    }

    /// The distribution registered under the name.
    pub fn get(&self, name: &str) -> (r: Option<&DistroConfig>)
        ensures
            match r {
                Some(d) => lookup(self@, name@) == Some(d@),
                None => lookup(self@, name@) is None,
            },
    {
        match self.find(name) {
            Some(i) => Some(&self.entries[i].distro),
            None => None,
        }
    }

    /// Puts a distribution under a name.
    pub fn insert(&mut self, name: String, distro: DistroConfig)
        ensures
            final(self)@ == inserted(old(self)@, name@, distro@),
    {
        let at: Option<usize> = self.find(name.as_str());
        let ghost before = self@;
        let ghost d = distro@;
        let ghost n = name@;
        let mut entries: Vec<Entry> = Vec::new();
        std::mem::swap(&mut entries, &mut self.entries);
        let ghost was = entries@;
        proof {
            let other = if n.len() == 0 {
                seq!['x']
            } else {
                Seq::empty()
            };
            law_insert(before, n, d, other);
        }
        let entry = Entry { name, distro };
        match at {
            Some(i) => {
                entries.set(i, entry);
                assert(contents(entries@) =~= contents(was).update(i as int, (n, d)));
            },
            None => {
                entries.push(entry);
                assert(contents(entries@) =~= contents(was).push((n, d)));
            },
        }
        self.entries = entries;
    }

    /// Removes the distribution of that name, if there is one.
    pub fn remove(&mut self, name: &str)
        ensures
            final(self)@ == removed(old(self)@, name@),
    {
        match self.find(name) {
            Some(i) => {
                let ghost before = self@;
                let mut entries: Vec<Entry> = Vec::new();
                std::mem::swap(&mut entries, &mut self.entries);
                let ghost was = entries@;
                proof {
                    let n = name@;
                    let other = if n.len() == 0 {
                        seq!['x']
                    } else {
                        Seq::empty()
                    };
                    law_remove(before, n, other);
                }
                let _gone = entries.remove(i);
                assert(contents(entries@) =~= contents(was).remove(i as int));
                self.entries = entries;
            },
            None => {},
        }
    }

    /// The name of the first entry.
    pub fn first_key(&self) -> (r: Option<String>)
        ensures
            opt_text(r) == first_name(self@),
    {
        if self.entries.len() > 0 {
            Some(self.entries[0].name.clone())
        } else {
            None
        }
    }
}

impl Clone for DistroMap {
    fn clone(&self) -> (r: Self)
        ensures
            r@ == self@,
    {
        proof {
            use_type_invariant(self);
        }
        let mut entries: Vec<Entry> = Vec::new();
        let mut i: usize = 0;
        while i < self.entries.len()
            invariant
                i <= self.entries@.len(),
                contents(entries@) == contents(self.entries@).take(i as int),
            decreases self.entries@.len() - i,
        {
            let ghost before = entries@;
            let copy: Entry = Entry {
                name: self.entries[i].name.clone(),
                distro: self.entries[i].distro.clone(),
            };
            entries.push(copy);
            assert(contents(entries@) =~= contents(before).push((copy.name@, copy.distro@)));
            assert(contents(self.entries@).take(i + 1) =~= contents(self.entries@).take(
                i as int,
            ).push(contents(self.entries@)[i as int]));
            i = i + 1;
        }
        assert(contents(self.entries@).take(i as int) =~= contents(self.entries@));
        DistroMap { entries }
    }
}

// ---------------------------------------------------------------- configuration

/// The text of an optional string.
pub open spec fn opt_text(o: Option<String>) -> Option<Seq<char>> {
    match o {
        Some(s) => Some(s@),
        None => None,
    }
}

/// What the manager remembers between runs.
#[derive(Debug, PartialEq, Eq)]
pub struct GlobalConfig {
    pub default_distro: Option<String>,
    pub distros: DistroMap,
}

/// The contents of a configuration.
pub struct ConfigView {
    pub default_distro: Option<Seq<char>>,
    pub distros: Entries,
}

impl View for GlobalConfig {
    type V = ConfigView;

    open spec fn view(&self) -> ConfigView {
        ConfigView { default_distro: opt_text(self.default_distro), distros: self.distros@ }
    }
}

impl ConfigView {
    /// A configuration without any distribution.
    pub open spec fn fresh() -> ConfigView {
        ConfigView { default_distro: None, distros: Seq::empty() }
    }

    /// Names are distinct and the default, if there is one, is registered.
    pub open spec fn coherent(self) -> bool {
        &&& distinct(self.distros)
        &&& self.default_distro matches Some(name) ==> registered(self.distros, name)
    }

    /// The distribution as it is first registered: its directory, an address from
    /// the network's DHCP server, a hardware address numbered by how many
    /// distributions there are, and `root` as its user.
    pub open spec fn new_distro(self, name: Seq<char>) -> DistroView {
        DistroView {
            name,
            path: distro_dir(name),
            ip_address: "dhcp"@,
            mac_address: "02:42:0a:58:00:"@ + hex_octet(self.distros.len() + 1),
            default_user: "root"@,
        }
    }

    /// The configuration after a distribution was registered; the first becomes
    /// the default.
    pub open spec fn with_distro(self, name: Seq<char>, d: DistroView) -> ConfigView {
        ConfigView {
            default_distro: if self.default_distro is None {
                Some(name)
            } else {
                self.default_distro
            },
            distros: inserted(self.distros, name, d),
        }
    }

    /// The configuration after a distribution was removed; if it was the default,
    /// the first that is left takes its place.
    pub open spec fn without_distro(self, name: Seq<char>) -> ConfigView {
        let left = removed(self.distros, name);
        ConfigView {
            default_distro: if self.default_distro == Some(name) {
                first_name(left)
            } else {
                self.default_distro
            },
            distros: left,
        }
    }

    /// The configuration with another default.
    pub open spec fn with_default(self, name: Seq<char>) -> ConfigView {
        ConfigView { default_distro: Some(name), ..self }
    }

    /// The configuration with another default user for a distribution.
    pub open spec fn with_user(self, name: Seq<char>, user: Seq<char>) -> ConfigView {
        ConfigView { distros: reassigned(self.distros, name, user), ..self }
    }

    /// The user that a command in the distribution runs as.
    pub open spec fn user_of(self, name: Seq<char>) -> Seq<char> {
        match lookup(self.distros, name) {
            Some(d) => d.default_user,
            None => "root"@,
        }
    }
}

impl Default for GlobalConfig {
    fn default() -> (r: Self)
        ensures
            r@ == ConfigView::fresh(),
    {
        GlobalConfig { default_distro: None, distros: DistroMap::new() }
    }
}

impl Clone for GlobalConfig {
    fn clone(&self) -> (r: Self)
        ensures
            r@ == self@,
    {
        let default_distro: Option<String> = match &self.default_distro {
            Some(d) => Some(d.clone()),
            None => None,
        };
        GlobalConfig { default_distro, distros: self.distros.clone() }
    }
}

/// The file that holds the configuration.
pub open spec fn config_file() -> Seq<char> {
    path_join(LSL_DIR@, "config.json"@)
}

/// The directory of a distribution.
pub open spec fn distro_dir(name: Seq<char>) -> Seq<char> {
    path_join(path_join(LSL_DIR@, "distros"@), name)
}

/// The directory of a distribution.
pub fn get_distro_dir(name: &str) -> (r: String)
    ensures
        r@ == distro_dir(name@),
{
    let distros: String = join_path(LSL_DIR, "distros");
    join_path(distros.as_str(), name)
}

/// A file or directory in the directory of a distribution.
pub open spec fn distro_path(name: Seq<char>, part: Seq<char>) -> Seq<char> {
    path_join(distro_dir(name), part)
}

/// Names a file or directory in the directory of a distribution.
pub fn get_distro_path(name: &str, part: &str) -> (r: String)
    ensures
        r@ == distro_path(name@, part@),
{
    let dir: String = get_distro_dir(name);
    join_path(dir.as_str(), part)
}

/// A file of the guest as the host sees it while the guest is up.
pub open spec fn merged_path(name: Seq<char>, part: Seq<char>) -> Seq<char> {
    path_join(distro_path(name, "merged"@), part)
}

/// Names a file of the guest as the host sees it.
pub fn get_merged_path(name: &str, part: &str) -> (r: String)
    ensures
        r@ == merged_path(name@, part@),
{
    let dir: String = get_distro_path(name, "merged");
    join_path(dir.as_str(), part)
}

/// A file in the directory of running distributions.
pub open spec fn run_path(file: Seq<char>) -> Seq<char> {
    path_join(path_join(LSL_DIR@, "run"@), file)
}

/// Names a file in the directory of running distributions.
pub fn get_run_path(file: &str) -> (r: String)
    ensures
        r@ == run_path(file@),
{
    let dir: String = join_path(LSL_DIR, "run");
    join_path(dir.as_str(), file)
}

impl GlobalConfig {
    /// The configuration to work with, given what could be read from the file: a
    /// missing or unreadable file counts as an empty configuration.
    pub fn load(stored: Option<GlobalConfig>) -> (r: GlobalConfig)
        ensures
            r@ == match stored {
                Some(config) => config@,
                None => ConfigView::fresh(),
            },
    {
        match stored {
            Some(config) => config,
            None => GlobalConfig::default(),
        }
    }

    /// The file that holds the configuration.
    pub fn config_path() -> (r: String)
        ensures
            r@ == config_file(),
    {
        join_path(LSL_DIR, "config.json")
    }

    /// The distribution as it is first registered.
    pub fn describe(&self, name: &str) -> (r: DistroConfig)
        ensures
            r@ == self@.new_distro(name@),
    {
        let index: u128 = self.distros.len() as u128 + 1;
        let prefix: String = "02:42:0a:58:00:".to_owned();
        DistroConfig {
            name: name.to_owned(),
            path: get_distro_dir(name),
            ip_address: "dhcp".to_owned(),
            mac_address: prefix.concat(format_hex_octet(index).as_str()),
            default_user: "root".to_owned(),
        }
    }

    /// Registers a distribution.
    pub fn register(&mut self, name: &str, distro: DistroConfig)
        ensures
            final(self)@ == old(self)@.with_distro(name@, distro@),
    {
        self.distros.insert(name.to_owned(), distro);
        if self.default_distro.is_none() {
            self.default_distro = Some(name.to_owned());
        }
    }

    /// Removes a distribution.
    pub fn forget(&mut self, name: &str)
        ensures
            final(self)@ == old(self)@.without_distro(name@),
    {
        self.distros.remove(name);
        let was_default: bool = match &self.default_distro {
            Some(d) => same(d.as_str(), name),
            None => false,
        };
        if was_default {
            self.default_distro = self.distros.first_key();
        }
    }

    /// Makes a registered distribution the default; tells whether it is
    /// registered, and changes nothing where it is not.
    pub fn make_default(&mut self, name: &str) -> (r: bool)
        ensures
            r == registered(old(self)@.distros, name@),
            r ==> final(self)@ == old(self)@.with_default(name@),
            !r ==> final(self)@ == old(self)@,
    {
        if self.distros.contains_key(name) {
            self.default_distro = Some(name.to_owned());
            true
        } else {
            false
        }
    }

    /// Gives a distribution another default user, if it is registered.
    pub fn assign_user(&mut self, name: &str, user: &str)
        ensures
            final(self)@ == old(self)@.with_user(name@, user@),
    {
        let found: Option<DistroConfig> = match self.distros.get(name) {
            Some(d) => Some(
                DistroConfig {
                    name: d.name.clone(),
                    path: d.path.clone(),
                    ip_address: d.ip_address.clone(),
                    mac_address: d.mac_address.clone(),
                    default_user: user.to_owned(),
                },
            ),
            None => None,
        };
        match found {
            Some(d) => {
                self.distros.insert(name.to_owned(), d);
            },
            None => {},
        }
    }

    /// The user that a command in the distribution runs as.
    pub fn default_user(&self, name: &str) -> (r: String)
        ensures
            r@ == self@.user_of(name@),
    {
        match self.distros.get(name) {
            Some(d) => d.default_user.clone(),
            None => "root".to_owned(),
        }
    }
}

/// Distributions with different names, none of which is an absolute path, have
/// directories of their own.
pub proof fn law_directories_do_not_clash(a: Seq<char>, b: Seq<char>)
    requires
        a != b,
        a.len() > 0 && a[0] != '/',
        b.len() > 0 && b[0] != '/',
    ensures
        distro_dir(a) != distro_dir(b),
{
    let all = path_join(LSL_DIR@, "distros"@);
    let stem = if all.len() == 0 || all.last() == '/' {
        all
    } else {
        all.push('/')
    };
    lemma_prefix_injective(stem, a, b);
    assert(distro_dir(a) =~= stem + a);
    assert(distro_dir(b) =~= stem + b);
}

/// Registration keeps a configuration coherent.
pub proof fn law_register_coherent(c: ConfigView, name: Seq<char>, d: DistroView)
    requires
        c.coherent(),
    ensures
        c.with_distro(name, d).coherent(),
        registered(c.with_distro(name, d).distros, name),
{
    let other = if name.len() == 0 {
        seq!['x']
    } else {
        Seq::empty()
    };
    law_insert(c.distros, name, d, other);
    if let Some(def) = c.default_distro {
        if def != name {
            law_insert(c.distros, name, d, def);
        }
    }
}

/// Removal keeps a configuration coherent, and the removed name is neither
/// registered nor the default any more.
pub proof fn law_forget_coherent(c: ConfigView, name: Seq<char>)
    requires
        c.coherent(),
    ensures
        c.without_distro(name).coherent(),
        !registered(c.without_distro(name).distros, name),
        c.without_distro(name).default_distro != Some(name),
{
    let other = if name.len() == 0 {
        seq!['x']
    } else {
        Seq::empty()
    };
    law_remove(c.distros, name, other);
    let left = removed(c.distros, name);
    if c.default_distro == Some(name) {
        if left.len() > 0 {
            assert(named_at(left, left[0].0, 0));
        }
    } else if let Some(def) = c.default_distro {
        law_remove(c.distros, name, def);
    }
}

/// As long as any distribution is left after a removal, a default that was set
/// stays set.
pub proof fn law_forget_keeps_a_default(c: ConfigView, name: Seq<char>)
    requires
        c.coherent(),
        c.default_distro is Some,
    ensures
        c.without_distro(name).default_distro is None <==> c.default_distro == Some(name)
            && c.without_distro(name).distros.len() == 0,
{
}

/// Choosing a registered default, and changing a distribution's user, keep a
/// configuration coherent.
pub proof fn law_updates_coherent(c: ConfigView, name: Seq<char>, user: Seq<char>)
    requires
        c.coherent(),
    ensures
        registered(c.distros, name) ==> c.with_default(name).coherent(),
        c.with_user(name, user).coherent(),
        registered(c.distros, name) ==> c.with_user(name, user).user_of(name) == user,
{
    let other = if name.len() == 0 {
        seq!['x']
    } else {
        Seq::empty()
    };
    if let Some(d) = lookup(c.distros, name) {
        let e = DistroView { default_user: user, ..d };
        law_insert(c.distros, name, e, other);
        if let Some(def) = c.default_distro {
            if def != name {
                law_insert(c.distros, name, e, def);
            }
        }
    }
}

/// Writing the configuration.
pub open spec fn save_steps(c: ConfigView) -> Seq<StepView> {
    no_steps().push(must(ActionOf::CreateDirs { path: LSL_DIR@ })).push(
        must(ActionOf::StoreConfig { path: config_file(), config: c }),
    )
}

impl GlobalConfig {
    /// Makes the steps that write the configuration.
    pub fn save(&self) -> (r: Steps)
        ensures
            r@ == save_steps(self@),
    {
        Steps::new().must(ActionOf::CreateDirs { path: LSL_DIR.to_owned() }).must(
            ActionOf::StoreConfig { path: GlobalConfig::config_path(), config: self.clone() },
        )
    }
}

/// Creating the directories that everything else relies on.
pub open spec fn dirs_steps() -> Seq<StepView> {
    no_steps().push(
        must(ActionOf::CreateDirs { path: path_join(LSL_DIR@, "distros"@) }),
    ).push(must(ActionOf::CreateDirs { path: path_join(LSL_DIR@, "cache"@) })).push(
        must(ActionOf::CreateDirs { path: path_join(LSL_DIR@, "run"@) }),
    )
}

/// Makes the steps that create the directories that everything else relies on.
pub fn ensure_dirs() -> (r: Steps)
    ensures
        r@ == dirs_steps(),
{
    Steps::new().must(ActionOf::CreateDirs { path: join_path(LSL_DIR, "distros") }).must(
        ActionOf::CreateDirs { path: join_path(LSL_DIR, "cache") },
    ).must(ActionOf::CreateDirs { path: join_path(LSL_DIR, "run") })
}

/// A distribution is first described by its name, its own directory, an address that the
/// network gives, the superuser as its user, and a hardware address that ends in the number
/// of distributions there are with it, as two hexadecimal digits as long as they are
/// enough.
pub proof fn law_new_distro_is_described(c: ConfigView, name: Seq<char>)
    ensures
        ({
            let d = c.new_distro(name);
            let n = c.distros.len() + 1;
            let digits = "0123456789abcdef"@;
            &&& d.name == name
            &&& d.path == distro_dir(name)
            &&& d.ip_address == "dhcp"@
            &&& d.default_user == "root"@
            &&& n < 256 ==> d.mac_address == "02:42:0a:58:00:"@ + Seq::empty().push(
                digits[(n / 16) as int],
            ).push(digits[(n % 16) as int])
            &&& n >= 256 ==> d.mac_address == "02:42:0a:58:00:"@ + numeral(n / 16, 16).push(
                digits[(n % 16) as int],
            )
        }),
{
    let n = c.distros.len() + 1;
    if n < 256 {
        law_octets_have_two_digits(n);
    } else {
        law_numerals_are_positional(n / 16, 16, n % 16);
        assert(n / 16 * 16 + n % 16 == n);
    }
}

/// A name is registered exactly if an entry bears it, and what is found under it is what
/// that entry holds.
pub proof fn law_lookup_finds_the_entry(e: Entries, name: Seq<char>)
    requires
        distinct(e),
    ensures
        forall|i: int|
            0 <= i < e.len() && (#[trigger] e[i]).0 == name ==> lookup(e, name) == Some(e[i].1),
        (forall|i: int| 0 <= i < e.len() ==> (#[trigger] e[i]).0 != name) <==> lookup(e, name)
            is None,
        registered(e, name) <==> lookup(e, name) is Some,
{
    assert forall|i: int| 0 <= i < e.len() && (#[trigger] e[i]).0 == name implies lookup(e, name)
        == Some(e[i].1) by {
        assert(named_at(e, name, i));
        lemma_position(e, name, i);
    }
    if registered(e, name) {
        let p = position(e, name);
        assert(named_at(e, name, p));
        assert(e[p].0 == name);
    }
}

/// Registering a distribution puts it under its name and leaves all others in their
/// places; it becomes the default exactly if there was none.
pub proof fn law_registration_changes_one_entry(c: ConfigView, name: Seq<char>, d: DistroView)
    requires
        c.coherent(),
    ensures
        ({
            let after = c.with_distro(name, d);
            let e = c.distros;
            &&& lookup(after.distros, name) == Some(d)
            &&& forall|i: int|
                0 <= i < e.len() && (#[trigger] e[i]).0 != name ==> i < after.distros.len()
                    && after.distros[i] == e[i]
            &&& !registered(e, name) ==> after.distros.len() == e.len() + 1
                && after.distros.last() == (name, d)
            &&& registered(e, name) ==> after.distros.len() == e.len()
            &&& c.default_distro is None ==> after.default_distro == Some(name)
            &&& c.default_distro is Some ==> after.default_distro == c.default_distro
        }),
{
    let other = if name.len() == 0 {
        seq!['x']
    } else {
        Seq::empty()
    };
    law_insert(c.distros, name, d, other);
    if registered(c.distros, name) {
        let p = position(c.distros, name);
        assert(named_at(c.distros, name, p));
    }
}

/// Removing a distribution takes away its entry and no other, and keeps their order. If it
/// was the default, the first of those that are left becomes the default, and none if none
/// is left; else the default stays.
pub proof fn law_removal_changes_one_entry(c: ConfigView, name: Seq<char>)
    requires
        c.coherent(),
        registered(c.distros, name),
    ensures
        ({
            let after = c.without_distro(name);
            let e = c.distros;
            &&& lookup(after.distros, name) is None
            &&& after.distros.len() == e.len() - 1
            &&& exists|p: int|
                0 <= p < e.len() && (#[trigger] e[p]).0 == name && after.distros == e.remove(p)
            &&& c.default_distro != Some(name) ==> after.default_distro == c.default_distro
            &&& c.default_distro == Some(name) && e.len() == 1 ==> after.default_distro is None
            &&& c.default_distro == Some(name) && e.len() > 1 ==> after.default_distro == Some(
                if e[0].0 == name {
                    e[1].0
                } else {
                    e[0].0
                },
            )
        }),
{
    let other = if name.len() == 0 {
        seq!['x']
    } else {
        Seq::empty()
    };
    law_remove(c.distros, name, other);
    let e = c.distros;
    let p = position(e, name);
    assert(named_at(e, name, p));
    assert(e[p].0 == name);
    if e.len() > 1 {
        if p != 0 {
            assert(e[0].0 != e[p].0);
        }
    }
}

/// Choosing a default changes nothing else, and giving a distribution another user changes
/// the user of that distribution and nothing else.
pub proof fn law_updates_change_one_thing(
    c: ConfigView,
    name: Seq<char>,
    user: Seq<char>,
    other: Seq<char>,
)
    requires
        c.coherent(),
        other != name,
    ensures
        c.with_default(name).default_distro == Some(name),
        c.with_default(name).distros == c.distros,
        ({
            let after = c.with_user(name, user);
            &&& after.default_distro == c.default_distro
            &&& after.distros.len() == c.distros.len()
            &&& lookup(after.distros, other) == lookup(c.distros, other)
            &&& lookup(c.distros, name) is None ==> after == c
            &&& lookup(c.distros, name) matches Some(d) ==> (lookup(after.distros, name) matches
                Some(f) && f.default_user == user && f.name == d.name && f.path == d.path
                && f.ip_address == d.ip_address && f.mac_address == d.mac_address)
            &&& forall|i: int|
                0 <= i < c.distros.len() ==> (#[trigger] after.distros[i]).0 == c.distros[i].0
        }),
{
    if let Some(d) = lookup(c.distros, name) {
        law_insert(c.distros, name, DistroView { default_user: user, ..d }, other);
        let p = position(c.distros, name);
        assert(named_at(c.distros, name, p));
    }
}

/// The user of a distribution is the one that its entry names, and the superuser where it
/// has no entry.
pub proof fn law_user_is_that_of_the_entry(c: ConfigView, name: Seq<char>)
    ensures
        lookup(c.distros, name) matches Some(d) ==> c.user_of(name) == d.default_user,
        lookup(c.distros, name) is None ==> c.user_of(name) == "root"@,
{
}

/// Everything is kept in one directory: each distribution in a directory of its name, with
/// its parts below that, and the files of running distributions in another. Names and
/// parts are taken to be relative, and a name not to end in a slash.
pub proof fn law_everything_has_its_place(name: Seq<char>, part: Seq<char>, file: Seq<char>)
    requires
        name.len() > 0 && name[0] != '/' && name.last() != '/',
        part.len() > 0 && part[0] != '/',
        file.len() > 0 && file[0] != '/',
    ensures
        config_file() == "/var/lib/lsl/config.json"@,
        distro_dir(name) == "/var/lib/lsl/distros/"@ + name,
        distro_path(name, part) == "/var/lib/lsl/distros/"@ + name + "/"@ + part,
        merged_path(name, part) == "/var/lib/lsl/distros/"@ + name + "/merged/"@ + part,
        run_path(file) == "/var/lib/lsl/run/"@ + file,
{
    reveal_strlit("/var/lib/lsl");
    reveal_strlit("config.json");
    reveal_strlit("/var/lib/lsl/config.json");
    reveal_strlit("distros");
    reveal_strlit("/var/lib/lsl/distros/");
    reveal_strlit("run");
    reveal_strlit("/var/lib/lsl/run/");
    reveal_strlit("merged");
    reveal_strlit("/merged/");
    reveal_strlit("/");
    assert(LSL_DIR@ == "/var/lib/lsl"@);
    assert(config_file() =~= "/var/lib/lsl/config.json"@);
    let all = path_join(LSL_DIR@, "distros"@);
    assert(all.push('/') =~= "/var/lib/lsl/distros/"@);
    assert(all.last() == 's');
    let dir = distro_dir(name);
    assert(dir =~= "/var/lib/lsl/distros/"@ + name);
    assert(dir.last() == name.last());
    assert(distro_path(name, part) =~= dir + "/"@ + part);
    let merged = distro_path(name, "merged"@);
    assert(merged =~= dir + "/"@ + "merged"@);
    assert(merged.last() == 'd');
    assert(merged.push('/') =~= dir + "/merged/"@);
    assert(merged_path(name, part) =~= dir + "/merged/"@ + part);
    let run = path_join(LSL_DIR@, "run"@);
    assert(run.push('/') =~= "/var/lib/lsl/run/"@);
    assert(run.last() == 'n');
    assert(run_path(file) =~= "/var/lib/lsl/run/"@ + file);
}

/// Writing a configuration writes that very configuration to its file, and fails if it
/// cannot be written; and everything that is kept has a directory to be kept in.
pub proof fn law_configuration_is_written(c: ConfigView)
    ensures
        save_steps(c).len() == 2,
        save_steps(c)[0] == must(ActionOf::CreateDirs { path: "/var/lib/lsl"@ }),
        save_steps(c)[1] == must(
            ActionOf::StoreConfig { path: "/var/lib/lsl/config.json"@, config: c },
        ),
        dirs_steps().len() == 3,
        dirs_steps()[0] == must(ActionOf::CreateDirs { path: "/var/lib/lsl/distros"@ }),
        dirs_steps()[1] == must(ActionOf::CreateDirs { path: "/var/lib/lsl/cache"@ }),
        dirs_steps()[2] == must(ActionOf::CreateDirs { path: "/var/lib/lsl/run"@ }),
{
    reveal_strlit("/var/lib/lsl");
    reveal_strlit("config.json");
    reveal_strlit("/var/lib/lsl/config.json");
    reveal_strlit("distros");
    reveal_strlit("/var/lib/lsl/distros");
    reveal_strlit("cache");
    reveal_strlit("/var/lib/lsl/cache");
    reveal_strlit("run");
    reveal_strlit("/var/lib/lsl/run");
    assert(LSL_DIR@ == "/var/lib/lsl"@);
    assert(config_file() =~= "/var/lib/lsl/config.json"@);
    assert(path_join(LSL_DIR@, "distros"@) =~= "/var/lib/lsl/distros"@);
    assert(path_join(LSL_DIR@, "cache"@) =~= "/var/lib/lsl/cache"@);
    assert(path_join(LSL_DIR@, "run"@) =~= "/var/lib/lsl/run"@);
}

} // verus!
