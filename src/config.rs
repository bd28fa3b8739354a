//! The daemon's configuration: the host registry, the record that is
//! persisted, its repair rules, and the store that tracks the file on disk.
use vstd::prelude::*;
use crate::address::{IpAddress, SocketAddress};
use crate::text::{bytes_eq, copy_range};

verus! {

/// Worker count used when the configured one is out of range.
pub const DEFAULT_NUM_WORKERS: u8 = 5;

/// Largest worker count accepted.
pub const MAX_WORKERS: u8 = 120;

/// Longest hostname, in bytes.
pub const HOST_NAME_LENGTH_LIMIT: usize = 20;

/// Port of the default listener address.
pub const DEFAULT_LISTENER_PORT: u16 = 10020;

pub open spec fn valid_hostname(name: Seq<u8>) -> bool {
    0 < name.len() <= HOST_NAME_LENGTH_LIMIT
}

/// Whether a hostname has an acceptable length.
pub fn check_hostname_valid(hostname: &[u8]) -> (r: bool)
    ensures
        r == valid_hostname(hostname@),
{
    hostname.len() > 0 && hostname.len() <= HOST_NAME_LENGTH_LIMIT
}

/// A hostname and the address registered for it.
#[derive(Clone, Debug)]
pub struct HostEntry {
    pub hostname: Vec<u8>,
    pub addr: SocketAddress,
}

/// The map that a list of entries stands for, a later entry replacing an
/// earlier one with the same name.
pub open spec fn entries_map(s: Seq<(Seq<u8>, SocketAddress)>) -> Map<Seq<u8>, SocketAddress>
    decreases s.len(),
{
    if s.len() == 0 {
        Map::empty()
    } else {
        entries_map(s.drop_last()).insert(s.last().0, s.last().1)
    }
}

pub open spec fn unique_names(s: Seq<(Seq<u8>, SocketAddress)>) -> bool {
    forall|i: int, j: int| 0 <= i < s.len() && 0 <= j < s.len() && i != j ==> s[i].0 != s[j].0
}

/// The registry of known hosts: hostname to address, each name once.
#[derive(Debug)]
pub struct HostRegistry {
    entries: Vec<HostEntry>,
}

impl HostRegistry {
    /// The entries in the order they were first registered.
    pub closed spec fn entries_view(&self) -> Seq<(Seq<u8>, SocketAddress)> {
        self.entries@.map_values(|e: HostEntry| (e.hostname@, e.addr))
    }

    pub open spec fn view(&self) -> Map<Seq<u8>, SocketAddress> {
        entries_map(self.entries_view())
    }

    #[verifier::type_invariant]
    closed spec fn inv(&self) -> bool {
        unique_names(self.entries_view())
    }

    /// Each name stands in one entry only.
    pub open spec fn wf(&self) -> bool {
        unique_names(self.entries_view())
    }

    pub fn new() -> (r: HostRegistry)
        ensures
            r.entries_view() == Seq::<(Seq<u8>, SocketAddress)>::empty(),
            r@ == Map::<Seq<u8>, SocketAddress>::empty(),
            r.wf(),
    {
        let r = HostRegistry { entries: Vec::new() };
        assert(r.entries_view() =~= Seq::<(Seq<u8>, SocketAddress)>::empty());
        r
    }

    pub fn len(&self) -> (r: usize)
        ensures
            r == self.entries_view().len(),
    {
        self.entries.len()
    }

    /// The `i`-th entry, in order of first registration.
    pub fn entry(&self, i: usize) -> (r: (Vec<u8>, SocketAddress))
        requires
            i < self.entries_view().len(),
        ensures
            r.0@ == self.entries_view()[i as int].0,
            r.1 == self.entries_view()[i as int].1,
    {
        let e = &self.entries[i];
        (copy_range(e.hostname.as_slice(), 0, e.hostname.len()), e.addr)
    }

    fn position(&self, name: &[u8]) -> (r: Option<usize>)
        ensures
            match r {
                Some(i) => i < self.entries_view().len() && self.entries_view()[i as int].0
                    == name@,
                None => forall|i: int|
                    0 <= i < self.entries_view().len() ==> self.entries_view()[i].0 != name@,
            },
    {
        let mut i: usize = 0;
        while i < self.entries.len()
            invariant
                i <= self.entries@.len(),
                forall|j: int| 0 <= j < i ==> self.entries_view()[j].0 != name@,
            decreases self.entries@.len() - i,
        {
            if bytes_eq(self.entries[i].hostname.as_slice(), name) {
                return Some(i);
            }
            i = i + 1;
        }
        None
    }

    /// The address registered for `name`.
    pub fn get(&self, name: &[u8]) -> (r: Option<SocketAddress>)
        ensures
            r == (if self@.contains_key(name@) {
                Some(self@[name@])
            } else {
                None::<SocketAddress>
            }),
    {
        proof {
            use_type_invariant(self);
        }
        match self.position(name) {
            Some(i) => {
                proof {
                    lemma_entries_map_at(self.entries_view(), i as int);
                }
                Some(self.entries[i].addr)
            },
            None => {
                proof {
                    lemma_entries_map_absent(self.entries_view(), name@);
                }
                None
            },
        }
    }

    /// Registers `addr` under `name`, replacing what was there; returns the
    /// address it replaced.
    pub fn insert(&mut self, name: &[u8], addr: SocketAddress) -> (r: Option<SocketAddress>)
        ensures
            final(self)@ == old(self)@.insert(name@, addr),
            final(self).wf(),
            r == (if old(self)@.contains_key(name@) {
                Some(old(self)@[name@])
            } else {
                None::<SocketAddress>
            }),
            final(self).entries_view() == insert_entry(old(self).entries_view(), name@, addr),
    {
        proof {
            use_type_invariant(&*self);
        }
        let ghost s = self.entries_view();
        let old_addr = self.get(name);
        let pos = self.position(name);
        let mut entries: Vec<HostEntry> = Vec::new();
        let mut j: usize = 0;
        while j < self.entries.len()
            invariant
                j <= self.entries@.len(),
                s == self.entries_view(),
                entries@.len() == j,
                forall|k: int|
                    0 <= k < j ==> (#[trigger] entries@[k]).hostname@ == (if pos == Some(k as usize) {
                        name@
                    } else {
                        s[k].0
                    }) && entries@[k].addr == (if pos == Some(k as usize) {
                        addr
                    } else {
                        s[k].1
                    }),
            decreases self.entries@.len() - j,
        {
            let e = &self.entries[j];
            if pos == Some(j) {
                entries.push(HostEntry { hostname: copy_range(name, 0, name.len()), addr });
            } else {
                entries.push(
                    HostEntry {
                        hostname: copy_range(e.hostname.as_slice(), 0, e.hostname.len()),
                        addr: e.addr,
                    },
                );
            }
            j = j + 1;
        }
        match pos {
            Some(i) => {
                proof {
                    let t = entries@.map_values(|e: HostEntry| (e.hostname@, e.addr));
                    assert(t =~= s.update(i as int, (name@, addr)));
                    lemma_index_of_name(s, name@, i as int);
                    lemma_entries_map_update(s, i as int, addr);
                    assert(unique_names(t));
                }
            },
            None => {
                let ghost before = entries@;
                let fresh = copy_range(name, 0, name.len());
                assert(fresh@ =~= name@);
                entries.push(HostEntry { hostname: fresh, addr });
                proof {
                    let t = entries@.map_values(|e: HostEntry| (e.hostname@, e.addr));
                    assert forall|k: int| 0 <= k < s.len() implies t[k] == s[k] by {
                        assert(entries@[k] == before[k]);
                        assert(before[k].hostname@ == s[k].0);
                    }
                    assert(t =~= s.push((name@, addr)));
                    assert(t.drop_last() =~= s);
                    lemma_index_of_name_absent(s, name@);
                    assert(unique_names(t));
                }
            },
        }
        self.entries = entries;
        old_addr
    }

    /// Whether some registered address has the IP `ip`.
    pub fn contains_ip(&self, ip: IpAddress) -> (r: bool)
        ensures
            r == exists|k: Seq<u8>| #[trigger] self@.contains_key(k) && self@[k].ip == ip,
    {
        proof {
            use_type_invariant(self);
        }
        let mut i: usize = 0;
        while i < self.entries.len()
            invariant
                i <= self.entries@.len(),
                unique_names(self.entries_view()),
                forall|j: int| 0 <= j < i ==> self.entries_view()[j].1.ip != ip,
            decreases self.entries@.len() - i,
        {
            if self.entries[i].addr.ip.same_host(&ip) {
                proof {
                    lemma_entries_map_at(self.entries_view(), i as int);
                    let k = self.entries_view()[i as int].0;
                    assert(self@.contains_key(k) && self@[k].ip == ip);
                }
                return true;
            }
            i = i + 1;
        }
        proof {
            assert forall|k: Seq<u8>| #[trigger] self@.contains_key(k) implies self@[k].ip != ip by {
                lemma_entries_map_value(self.entries_view(), k);
            }
        }
        false
    }
}

/// Position of the entry named `name`.
pub open spec fn index_of_name_spec(s: Seq<(Seq<u8>, SocketAddress)>, name: Seq<u8>) -> Option<int>
    decreases s.len(),
{
    if s.len() == 0 {
        None
    } else if s.last().0 == name {
        Some(s.len() - 1)
    } else {
        index_of_name_spec(s.drop_last(), name)
    }
}

/// The entries after `name` is registered at `addr`: its entry is replaced
/// in place, or a new one is appended.
pub open spec fn insert_entry(s: Seq<(Seq<u8>, SocketAddress)>, name: Seq<u8>, addr: SocketAddress) -> Seq<
    (Seq<u8>, SocketAddress),
> {
    match index_of_name_spec(s, name) {
        Some(i) => s.update(i, (name, addr)),
        None => s.push((name, addr)),
    }
}

proof fn lemma_index_of_name(s: Seq<(Seq<u8>, SocketAddress)>, name: Seq<u8>, i: int)
    requires
        unique_names(s),
        0 <= i < s.len(),
        s[i].0 == name,
    ensures
        index_of_name_spec(s, name) == Some(i),
    decreases s.len(),
{
    if i != s.len() - 1 {
        lemma_index_of_name(s.drop_last(), name, i);
    }
}

proof fn lemma_index_of_name_absent(s: Seq<(Seq<u8>, SocketAddress)>, name: Seq<u8>)
    requires
        forall|i: int| 0 <= i < s.len() ==> s[i].0 != name,
    ensures
        index_of_name_spec(s, name) is None,
    decreases s.len(),
{
    if s.len() > 0 {
        lemma_index_of_name_absent(s.drop_last(), name);
    }
}

/// With unique names, the map holds each entry as it stands.
pub proof fn lemma_entries_map_at(s: Seq<(Seq<u8>, SocketAddress)>, i: int)
    requires
        unique_names(s),
        0 <= i < s.len(),
    ensures
        entries_map(s).contains_key(s[i].0),
        entries_map(s)[s[i].0] == s[i].1,
    decreases s.len(),
{
    if i < s.len() - 1 {
        lemma_entries_map_at(s.drop_last(), i);
    }
}

/// A name of no entry is not in the map.
pub proof fn lemma_entries_map_absent(s: Seq<(Seq<u8>, SocketAddress)>, name: Seq<u8>)
    requires
        forall|i: int| 0 <= i < s.len() ==> s[i].0 != name,
    ensures
        !entries_map(s).contains_key(name),
    decreases s.len(),
{
    if s.len() > 0 {
        lemma_entries_map_absent(s.drop_last(), name);
    }
}

/// Every key of the map comes from an entry that holds its value.
pub proof fn lemma_entries_map_value(s: Seq<(Seq<u8>, SocketAddress)>, k: Seq<u8>)
    requires
        entries_map(s).contains_key(k),
    ensures
        exists|i: int| 0 <= i < s.len() && s[i].0 == k && s[i].1 == entries_map(s)[k],
    decreases s.len(),
{
    if s.last().0 != k {
        lemma_entries_map_value(s.drop_last(), k);
        let i = choose|i: int|
            0 <= i < s.drop_last().len() && s.drop_last()[i].0 == k && s.drop_last()[i].1
                == entries_map(s.drop_last())[k];
        assert(s[i].0 == k);
    } else {
        assert(s[s.len() - 1].0 == k);
    }
}

proof fn lemma_entries_map_update(s: Seq<(Seq<u8>, SocketAddress)>, i: int, addr: SocketAddress)
    requires
        unique_names(s),
        0 <= i < s.len(),
    ensures
        entries_map(s.update(i, (s[i].0, addr))) == entries_map(s).insert(s[i].0, addr),
    decreases s.len(),
{
    let t = s.update(i, (s[i].0, addr));
    if i == s.len() - 1 {
        assert(t.drop_last() =~= s.drop_last());
        assert(entries_map(t) =~= entries_map(s).insert(s[i].0, addr));
    } else {
        assert(t.drop_last() =~= s.drop_last().update(i, (s[i].0, addr)));
        lemma_entries_map_update(s.drop_last(), i, addr);
        assert(s.last().0 != s[i].0);
        assert(entries_map(t) =~= entries_map(s).insert(s[i].0, addr));
    }
}

/// `name` cut to the longest hostname allowed.
pub open spec fn truncate_name(name: Seq<u8>) -> Seq<u8> {
    if name.len() > HOST_NAME_LENGTH_LIMIT {
        name.subrange(0, HOST_NAME_LENGTH_LIMIT as int)
    } else {
        name
    }
}

/// The registry that repair makes of a list of entries: an empty name is
/// dropped, a long one cut, and a later entry replaces an earlier one whose
/// name it then shares.
pub open spec fn repaired_hosts(s: Seq<(Seq<u8>, SocketAddress)>) -> Map<Seq<u8>, SocketAddress>
    decreases s.len(),
{
    if s.len() == 0 {
        Map::empty()
    } else if s.last().0.len() == 0 {
        repaired_hosts(s.drop_last())
    } else {
        repaired_hosts(s.drop_last()).insert(truncate_name(s.last().0), s.last().1)
    }
}

pub open spec fn all_names_valid(s: Seq<(Seq<u8>, SocketAddress)>) -> bool {
    forall|i: int| 0 <= i < s.len() ==> valid_hostname(#[trigger] s[i].0)
}

/// What the worker-count rule makes of `n`.
pub open spec fn checked_workers(n: u8) -> u8 {
    if n == 0 || n > MAX_WORKERS {
        DEFAULT_NUM_WORKERS
    } else {
        n
    }
}

/// The durable process configuration.
#[derive(Debug)]
pub struct Config {
    pub listener_addr: SocketAddress,
    pub num_workers: u8,
    pub receive_dir: String,
    pub ipc_socket_name: String,
    pub reg_hosts: HostRegistry,
}

/// The address the daemon listens on unless told otherwise: every
/// interface, port 10020.
pub open spec fn default_listener_addr() -> SocketAddress {
    SocketAddress { ip: IpAddress::V4(0), port: DEFAULT_LISTENER_PORT }
}

pub open spec fn default_ipc_socket_name() -> Seq<char> {
    "share.sock"@
}

impl Config {
    /// The default record, receiving into `receive_dir` (the platform's
    /// download directory, which only the caller can find).
    pub fn with_receive_dir(receive_dir: String) -> (r: Config)
        ensures
            r.listener_addr == default_listener_addr(),
            r.num_workers == DEFAULT_NUM_WORKERS,
            r.receive_dir@ == receive_dir@,
            r.ipc_socket_name@ == default_ipc_socket_name(),
            r.reg_hosts@ == Map::<Seq<u8>, SocketAddress>::empty(),
            r.reg_hosts.wf(),
            r.reg_hosts.entries_view().len() == 0,
    {
        Config {
            listener_addr: SocketAddress { ip: IpAddress::V4(0), port: DEFAULT_LISTENER_PORT },
            num_workers: DEFAULT_NUM_WORKERS,
            receive_dir,
            ipc_socket_name: String::from_str("share.sock"),
            reg_hosts: HostRegistry::new(),
        }
    }

    pub fn listener_addr(&self) -> (r: SocketAddress)
        ensures
            r == self.listener_addr,
    {
        self.listener_addr
    }

    pub fn num_workers(&self) -> (r: u8)
        ensures
            r == self.num_workers,
    {
        self.num_workers
    }

    pub fn receive_dir(&self) -> (r: &str)
        ensures
            r@ == self.receive_dir@,
    {
        self.receive_dir.as_str()
    }

    pub fn ipc_socket_name(&self) -> (r: &str)
        ensures
            r@ == self.ipc_socket_name@,
    {
        self.ipc_socket_name.as_str()
    }

    /// The worker-count rule: a count of zero or above the maximum is
    /// replaced by the default; the flag says whether it was kept.
    pub fn check_num_workers(num: u8) -> (r: (bool, u8))
        ensures
            r.0 == (0 < num <= MAX_WORKERS),
            r.1 == checked_workers(num),
    {
        if num == 0 || num > MAX_WORKERS {
            (false, DEFAULT_NUM_WORKERS)
        } else {
            (true, num)
        }
    }

    /// Registers `addr` under `hostname`; returns the address it replaced.
    pub fn register_host(&mut self, hostname: &[u8], addr: SocketAddress) -> (r: Option<
        SocketAddress,
    >)
        ensures
            final(self).reg_hosts@ == old(self).reg_hosts@.insert(hostname@, addr),
            final(self).reg_hosts.entries_view() == insert_entry(
                old(self).reg_hosts.entries_view(),
                hostname@,
                addr,
            ),
            final(self).reg_hosts.wf(),
            r == (if old(self).reg_hosts@.contains_key(hostname@) {
                Some(old(self).reg_hosts@[hostname@])
            } else {
                None::<SocketAddress>
            }),
            final(self).listener_addr == old(self).listener_addr,
            final(self).num_workers == old(self).num_workers,
            final(self).receive_dir == old(self).receive_dir,
            final(self).ipc_socket_name == old(self).ipc_socket_name,
    {
        self.reg_hosts.insert(hostname, addr)
    }

    /// The address registered for `hostname`.
    pub fn get_addr_by_name(&self, hostname: &[u8]) -> (r: Option<SocketAddress>)
        ensures
            r == (if self.reg_hosts@.contains_key(hostname@) {
                Some(self.reg_hosts@[hostname@])
            } else {
                None::<SocketAddress>
            }),
    {
        self.reg_hosts.get(hostname)
    }

    /// Whether a host with the IP `ip` is registered.
    pub fn check_addr_registered(&self, ip: IpAddress) -> (r: bool)
        ensures
            r == exists|k: Seq<u8>|
                #[trigger] self.reg_hosts@.contains_key(k) && self.reg_hosts@[k].ip == ip,
    {
        self.reg_hosts.contains_ip(ip)
    }

    pub fn set_num_workers(&mut self, n: u8)
        ensures
            final(self).num_workers == checked_workers(n),
            final(self).listener_addr == old(self).listener_addr,
            final(self).receive_dir == old(self).receive_dir,
            final(self).ipc_socket_name == old(self).ipc_socket_name,
            final(self).reg_hosts@ == old(self).reg_hosts@,
    {
        self.num_workers = Self::check_num_workers(n).1;
    }

    pub fn set_listener_addr(&mut self, addr: SocketAddress)
        ensures
            final(self).listener_addr == addr,
            final(self).num_workers == old(self).num_workers,
            final(self).reg_hosts@ == old(self).reg_hosts@,
            final(self).receive_dir == old(self).receive_dir,
            final(self).ipc_socket_name == old(self).ipc_socket_name,
    {
        self.listener_addr = addr;
    }

    pub fn set_listener_ip(&mut self, ip: IpAddress)
        ensures
            final(self).listener_addr == (SocketAddress { ip, port: old(self).listener_addr.port }),
            final(self).num_workers == old(self).num_workers,
            final(self).reg_hosts@ == old(self).reg_hosts@,
            final(self).receive_dir == old(self).receive_dir,
            final(self).ipc_socket_name == old(self).ipc_socket_name,
    {
        self.listener_addr.ip = ip;
    }

    pub fn set_listener_port(&mut self, port: u16)
        ensures
            final(self).listener_addr == (SocketAddress { ip: old(self).listener_addr.ip, port }),
            final(self).num_workers == old(self).num_workers,
            final(self).reg_hosts@ == old(self).reg_hosts@,
            final(self).receive_dir == old(self).receive_dir,
            final(self).ipc_socket_name == old(self).ipc_socket_name,
    {
        self.listener_addr.port = port;
    }

    pub fn set_ipc_socket_name(&mut self, name: String)
        ensures
            final(self).ipc_socket_name@ == name@,
            final(self).listener_addr == old(self).listener_addr,
            final(self).num_workers == old(self).num_workers,
            final(self).reg_hosts@ == old(self).reg_hosts@,
            final(self).receive_dir == old(self).receive_dir,
    {
        self.ipc_socket_name = name;
    }

    /// Sets the receive directory to `dir` where it is usable (as the caller
    /// found, creating it if missing), else to `fallback`.
    pub fn set_receive_dir(&mut self, dir: String, dir_usable: bool, fallback: String)
        ensures
            final(self).receive_dir@ == (if dir_usable {
                dir@
            } else {
                fallback@
            }),
            final(self).listener_addr == old(self).listener_addr,
            final(self).num_workers == old(self).num_workers,
            final(self).reg_hosts@ == old(self).reg_hosts@,
            final(self).ipc_socket_name == old(self).ipc_socket_name,
    {
        self.receive_dir = if dir_usable {
            dir
        } else {
            fallback
        };
    }

    /// Repairs the record: the worker count by its rule, the receive
    /// directory by the caller's finding (`receive_dir_usable`, else
    /// `fallback_dir`), and the hostnames by `repaired_hosts`. The flag says
    /// whether nothing had to change.
    pub fn checked(self, receive_dir_usable: bool, fallback_dir: String) -> (r: (bool, Config))
        ensures
            r.0 == (0 < self.num_workers <= MAX_WORKERS && receive_dir_usable && all_names_valid(
                self.reg_hosts.entries_view(),
            )),
            r.1.num_workers == checked_workers(self.num_workers),
            r.1.receive_dir@ == (if receive_dir_usable {
                self.receive_dir@
            } else {
                fallback_dir@
            }),
            r.1.listener_addr == self.listener_addr,
            r.1.ipc_socket_name == self.ipc_socket_name,
            r.1.reg_hosts@ == repaired_hosts(self.reg_hosts.entries_view()),
            r.1.reg_hosts.wf(),
    {
        let (workers_ok, num_workers) = Self::check_num_workers(self.num_workers);
        let ghost s = self.reg_hosts.entries_view();
        let mut hosts = HostRegistry::new();
        let mut names_ok = true;
        let mut i: usize = 0;
        while i < self.reg_hosts.len()
            invariant
                i <= s.len(),
                s == self.reg_hosts.entries_view(),
                hosts@ == repaired_hosts(s.subrange(0, i as int)),
                hosts.wf(),
                names_ok == all_names_valid(s.subrange(0, i as int)),
            decreases s.len() - i,
        {
            let (name, addr) = self.reg_hosts.entry(i);
            let ghost pre = s.subrange(0, i as int);
            let ghost next = s.subrange(0, i + 1);
            assert(next.drop_last() =~= pre);
            if name.len() == 0 || name.len() > HOST_NAME_LENGTH_LIMIT {
                names_ok = false;
                assert(!valid_hostname(next[i as int].0));
            } else {
                proof {
                    if names_ok {
                        assert forall|j: int| 0 <= j < next.len() implies valid_hostname(
                            #[trigger] next[j].0,
                        ) by {
                            if j < i {
                                assert(next[j] == pre[j]);
                            }
                        }
                    } else {
                        let j = choose|j: int| 0 <= j < pre.len() && !valid_hostname(#[trigger] pre[j].0);
                        assert(next[j] == pre[j]);
                    }
                }
            }
            if name.len() > 0 {
                if name.len() > HOST_NAME_LENGTH_LIMIT {
                    let cut = copy_range(name.as_slice(), 0, HOST_NAME_LENGTH_LIMIT);
                    hosts.insert(cut.as_slice(), addr);
                } else {
                    hosts.insert(name.as_slice(), addr);
                }
            }
            proof {
                if names_ok == false && valid_hostname(next[i as int].0) {
                    let j = choose|j: int| 0 <= j < pre.len() && !valid_hostname(#[trigger] pre[j].0);
                    assert(next[j] == pre[j]);
                }
            }
            i = i + 1;
        }
        assert(s.subrange(0, i as int) =~= s);
        let receive_dir = if receive_dir_usable {
            self.receive_dir
        } else {
            fallback_dir
        };
        let config = Config {
            listener_addr: self.listener_addr,
            num_workers,
            receive_dir,
            ipc_socket_name: self.ipc_socket_name,
            reg_hosts: hosts,
        };
        (workers_ok && receive_dir_usable && names_ok, config)
    }
}

/// Once every name is valid, repair leaves the registry as it is.
pub proof fn lemma_repair_keeps_valid(s: Seq<(Seq<u8>, SocketAddress)>)
    requires
        all_names_valid(s),
    ensures
        repaired_hosts(s) == entries_map(s),
    decreases s.len(),
{
    if s.len() > 0 {
        assert(valid_hostname(s[s.len() - 1].0));
        assert(all_names_valid(s.drop_last())) by {
            assert forall|i: int| 0 <= i < s.drop_last().len() implies valid_hostname(
                #[trigger] s.drop_last()[i].0,
            ) by {
                assert(s.drop_last()[i] == s[i]);
            }
        }
        lemma_repair_keeps_valid(s.drop_last());
    }
}

/// Registering a valid hostname keeps every name of the registry valid and
/// each name once.
pub proof fn lemma_insert_entry_valid(s: Seq<(Seq<u8>, SocketAddress)>, name: Seq<u8>, addr: SocketAddress)
    requires
        all_names_valid(s),
        unique_names(s),
        valid_hostname(name),
    ensures
        all_names_valid(insert_entry(s, name, addr)),
        unique_names(insert_entry(s, name, addr)),
        entries_map(insert_entry(s, name, addr)) == entries_map(s).insert(name, addr),
{
    let t = insert_entry(s, name, addr);
    match index_of_name_spec(s, name) {
        Some(i) => {
            lemma_index_of_name_some(s, name);
            lemma_entries_map_update(s, i, addr);
            assert(s.update(i, (s[i].0, addr)) =~= t);
            assert forall|j: int| 0 <= j < t.len() implies valid_hostname(#[trigger] t[j].0) by {
                assert(valid_hostname(s[j].0));
            }
        },
        None => {
            lemma_index_of_name_none(s, name);
            assert(t.drop_last() =~= s);
            assert forall|j: int| 0 <= j < t.len() implies valid_hostname(#[trigger] t[j].0) by {
                if j < s.len() {
                    assert(t[j] == s[j]);
                    assert(valid_hostname(s[j].0));
                }
            }
            assert forall|a: int, b: int|
                0 <= a < t.len() && 0 <= b < t.len() && a != b implies t[a].0 != t[b].0 by {
                if a < s.len() && b < s.len() {
                    assert(t[a] == s[a] && t[b] == s[b]);
                } else if a < s.len() {
                    assert(t[a] == s[a]);
                } else {
                    assert(t[b] == s[b]);
                }
            }
        },
    }
}

proof fn lemma_index_of_name_some(s: Seq<(Seq<u8>, SocketAddress)>, name: Seq<u8>)
    requires
        index_of_name_spec(s, name) is Some,
    ensures
        0 <= index_of_name_spec(s, name)->0 < s.len(),
        s[index_of_name_spec(s, name)->0].0 == name,
    decreases s.len(),
{
    if s.last().0 != name {
        lemma_index_of_name_some(s.drop_last(), name);
    }
}

proof fn lemma_index_of_name_none(s: Seq<(Seq<u8>, SocketAddress)>, name: Seq<u8>)
    requires
        index_of_name_spec(s, name) is None,
    ensures
        forall|i: int| 0 <= i < s.len() ==> s[i].0 != name,
    decreases s.len(),
{
    if s.len() > 0 {
        lemma_index_of_name_none(s.drop_last(), name);
        assert forall|i: int| 0 <= i < s.len() implies s[i].0 != name by {
            if i < s.len() - 1 {
                assert(s[i] == s.drop_last()[i]);
            }
        }
    }
}

/// Registering a host, writing the record out and reading it back finds
/// the registry as it was written, the new address under the hostname
/// among it. The codec is taken to return the record it was given, so
/// reading back is the repair that every load applies (`repaired_hosts`).
pub proof fn lemma_register_persist_reload(
    before: Seq<(Seq<u8>, SocketAddress)>,
    hostname: Seq<u8>,
    addr: SocketAddress,
)
    requires
        unique_names(before),
        all_names_valid(before),
        valid_hostname(hostname),
    ensures
        repaired_hosts(insert_entry(before, hostname, addr)) == entries_map(before).insert(
            hostname,
            addr,
        ),
        repaired_hosts(insert_entry(before, hostname, addr)).contains_key(hostname),
        repaired_hosts(insert_entry(before, hostname, addr))[hostname] == addr,
{
    lemma_insert_entry_valid(before, hostname, addr);
    lemma_repair_keeps_valid(insert_entry(before, hostname, addr));
}

/// The address to listen on when the configured one cannot be bound: the
/// default address, unless that is the one that failed.
pub fn fallback_listener(configured: SocketAddress) -> (r: Option<SocketAddress>)
    ensures
        r == (if configured == default_listener_addr() {
            None::<SocketAddress>
        } else {
            Some(default_listener_addr())
        }),
{
    let default = SocketAddress { ip: IpAddress::V4(0), port: DEFAULT_LISTENER_PORT };
    if configured.ip.same_host(&default.ip) && configured.port == default.port {
        None
    } else {
        Some(default)
    }
}

/// Registering a hostname a second time hands back the address of the
/// first registration, and the registry then holds the second address
/// under that name, once.
pub proof fn lemma_register_twice(
    hosts: Map<Seq<u8>, SocketAddress>,
    hostname: Seq<u8>,
    first: SocketAddress,
    second: SocketAddress,
)
    ensures
        hosts.insert(hostname, first).contains_key(hostname),
        hosts.insert(hostname, first)[hostname] == first,
        hosts.insert(hostname, first).insert(hostname, second)[hostname] == second,
        hosts.insert(hostname, first).insert(hostname, second).dom() == hosts.insert(
            hostname,
            first,
        ).dom(),
{
    assert(hosts.insert(hostname, first).insert(hostname, second).dom() =~= hosts.insert(
        hostname,
        first,
    ).dom());
}

/// The time a file was last written, in nanoseconds since the Unix epoch,
/// if known.
#[derive(Clone, Copy, Debug, PartialEq, Eq, Structural)]
pub enum LastModified {
    LastModTime(u128),
    Unknown,
}

/// What reconciling the record with the file on disk calls for.
#[derive(Clone, Copy, Debug, PartialEq, Eq, Structural)]
pub enum Reconcile {
    /// The file is as it was last read or written.
    UpToDate,
    /// The file changed: read it again and repair it.
    Reload,
    /// The record was never saved: write it out.
    WriteOut,
}

pub open spec fn reconcile_spec(last: LastModified, on_disk: Option<u128>) -> Reconcile {
    match last {
        LastModified::Unknown => Reconcile::WriteOut,
        LastModified::LastModTime(t) => if on_disk == Some(t) {
            Reconcile::UpToDate
        } else {
            Reconcile::Reload
        },
    }
}

/// Owns the configuration record and the marker of the file it is kept in.
#[derive(Debug)]
pub struct ConfigStore {
    pub current_config: Config,
    pub config_path: String,
    pub last_modified: LastModified,
}

impl ConfigStore {
    /// A store holding `config`, never saved yet.
    pub fn new(config: Config, config_path: String) -> (r: ConfigStore)
        ensures
            r.current_config == config,
            r.config_path@ == config_path@,
            r.last_modified == LastModified::Unknown,
    {
        ConfigStore { current_config: config, config_path, last_modified: LastModified::Unknown }
    }

    pub fn config(&self) -> (r: &Config)
        ensures
            *r == self.current_config,
    {
        &self.current_config
    }

    pub fn set_config_path(&mut self, path: String)
        ensures
            final(self).config_path@ == path@,
            final(self).current_config == old(self).current_config,
            final(self).last_modified == old(self).last_modified,
    {
        self.config_path = path;
    }

    /// Replaces the record by `config` repaired.
    pub fn set_config(&mut self, config: Config, receive_dir_usable: bool, fallback_dir: String)
        ensures
            final(self).current_config.num_workers == checked_workers(config.num_workers),
            final(self).current_config.receive_dir@ == (if receive_dir_usable {
                config.receive_dir@
            } else {
                fallback_dir@
            }),
            final(self).current_config.listener_addr == config.listener_addr,
            final(self).current_config.ipc_socket_name == config.ipc_socket_name,
            final(self).current_config.reg_hosts@ == repaired_hosts(
                config.reg_hosts.entries_view(),
            ),
            final(self).last_modified == old(self).last_modified,
    {
        self.current_config = config.checked(receive_dir_usable, fallback_dir).1;
    }

    /// Registers `addr` under `hostname` in the record; returns the address
    /// it replaced.
    pub fn register_host(&mut self, hostname: &[u8], addr: SocketAddress) -> (r: Option<
        SocketAddress,
    >)
        ensures
            final(self).current_config.reg_hosts@ == old(self).current_config.reg_hosts@.insert(
                hostname@,
                addr,
            ),
            final(self).current_config.reg_hosts.entries_view() == insert_entry(
                old(self).current_config.reg_hosts.entries_view(),
                hostname@,
                addr,
            ),
            r == (if old(self).current_config.reg_hosts@.contains_key(hostname@) {
                Some(old(self).current_config.reg_hosts@[hostname@])
            } else {
                None::<SocketAddress>
            }),
            final(self).last_modified == old(self).last_modified,
    {
        self.current_config.register_host(hostname, addr)
    }

    /// What to do with the file whose modification time is `on_disk`
    /// (`None` where it cannot be read).
    pub fn reconcile_action(&self, on_disk: Option<u128>) -> (r: Reconcile)
        ensures
            r == reconcile_spec(self.last_modified, on_disk),
    {
        match self.last_modified {
            LastModified::Unknown => Reconcile::WriteOut,
            LastModified::LastModTime(t) => match on_disk {
                Some(d) => if d == t {
                    Reconcile::UpToDate
                } else {
                    Reconcile::Reload
                },
                None => Reconcile::Reload,
            },
        }
    }

    /// Takes in what was read from the file: the decoded record, or `None`
    /// where the file was empty, unreadable or not a record, in which case
    /// the default record (receiving into `fallback_dir`) takes its place.
    /// Returns whether the file must be written again, which is so where
    /// the record had to be replaced or repaired.
    pub fn load(&mut self, decoded: Option<Config>, receive_dir_usable: bool, fallback_dir: String) -> (r: bool)
        ensures
            match decoded {
                None => {
                    &&& r
                    &&& final(self).current_config.num_workers == DEFAULT_NUM_WORKERS
                    &&& final(self).current_config.listener_addr == default_listener_addr()
                    &&& final(self).current_config.receive_dir@ == fallback_dir@
                    &&& final(self).current_config.ipc_socket_name@ == default_ipc_socket_name()
                    &&& final(self).current_config.reg_hosts@ == Map::<
                        Seq<u8>,
                        SocketAddress,
                    >::empty()
                },
                Some(c) => {
                    &&& r == !(0 < c.num_workers <= MAX_WORKERS && receive_dir_usable
                        && all_names_valid(c.reg_hosts.entries_view()))
                    &&& final(self).current_config.num_workers == checked_workers(c.num_workers)
                    &&& final(self).current_config.listener_addr == c.listener_addr
                    &&& final(self).current_config.receive_dir@ == (if receive_dir_usable {
                        c.receive_dir@
                    } else {
                        fallback_dir@
                    })
                    &&& final(self).current_config.ipc_socket_name == c.ipc_socket_name
                    &&& final(self).current_config.reg_hosts@ == repaired_hosts(
                        c.reg_hosts.entries_view(),
                    )
                },
            },
            final(self).last_modified == old(self).last_modified,
            final(self).config_path == old(self).config_path,
    {
        match decoded {
            None => {
                self.current_config = Config::with_receive_dir(fallback_dir);
                true
            },
            Some(c) => {
                let (ok, repaired) = c.checked(receive_dir_usable, fallback_dir);
                self.current_config = repaired;
                !ok
            },
        }
    }

    /// Records that the file was just written or read, with the
    /// modification time its metadata gave, if any.
    pub fn saved(&mut self, modified: Option<u128>)
        ensures
            final(self).last_modified == (match modified {
                Some(t) => LastModified::LastModTime(t),
                None => LastModified::Unknown,
            }),
            final(self).current_config == old(self).current_config,
    {
        self.last_modified = match modified {
            Some(t) => LastModified::LastModTime(t),
            None => LastModified::Unknown,
        };
    }
}

} // verus!
