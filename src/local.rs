//! The local control channel: how a request line reads, and the handler
//! that walks one request to its single final reply, asking its caller to
//! read, check, parse and persist on its behalf.
use vstd::prelude::*;
use vstd::string::StringSliceAdditionalSpecFns;
use crate::address::SocketAddress;
use crate::config::{check_hostname_valid, valid_hostname, Config};
use crate::protocol::LocalResponse;
use crate::text::{
    bytes_eq, copy_range, crlf, index_of, is_ws, split_first, split_once, split_two_arg, trim,
    trimmed, two_args,
};

verus! {

/// Longest first line of a local request.
pub const FIRST_LINE_LIMIT: u64 = 70;

/// Longest path line of a `SHARE` request.
pub const FILE_PATH_LIMIT: u64 = 500;

/// Most paths one `SHARE` request may list.
pub const PATHS_NUM_PER_REQUEST: usize = 4;

/// A local request's first line, read.
#[derive(Debug)]
pub enum LocalRequest {
    /// `SHARE <hostname>`
    Share { hostname: Vec<u8> },
    /// `REG <hostname>:<address>`, the address not yet read.
    Register { hostname: Vec<u8>, address: Vec<u8> },
    /// Anything else.
    Invalid,
}

/// A local request's first line, as values.
pub enum LocalRequestView {
    Share(Seq<u8>),
    Register(Seq<u8>, Seq<u8>),
    Invalid,
}

/// How a first line reads: the trimmed line must be a command and one
/// argument around a single space (any other arity is invalid); a
/// registration's argument, trimmed, is split at its first `:`.
pub open spec fn parse_local(line: Seq<u8>) -> LocalRequestView {
    match two_args(trim(line)) {
        None => LocalRequestView::Invalid,
        Some((cmd, arg)) => if cmd == "SHARE".spec_bytes() {
            LocalRequestView::Share(arg)
        } else if cmd == "REG".spec_bytes() {
            match split_first(trim(arg), 58) {
                Some((hostname, address)) => LocalRequestView::Register(hostname, address),
                None => LocalRequestView::Invalid,
            }
        } else {
            LocalRequestView::Invalid
        },
    }
}

impl LocalRequest {
    pub open spec fn view(&self) -> LocalRequestView {
        match self {
            LocalRequest::Share { hostname } => LocalRequestView::Share(hostname@),
            LocalRequest::Register { hostname, address } => LocalRequestView::Register(
                hostname@,
                address@,
            ),
            LocalRequest::Invalid => LocalRequestView::Invalid,
        }
    }

    /// Reads a request's first line.
    pub fn parse(line: &[u8]) -> (r: LocalRequest)
        ensures
            r.view() == parse_local(line@),
    {
        let t = trimmed(line);
        match split_two_arg(t.as_slice()) {
            None => LocalRequest::Invalid,
            Some((cmd, arg)) => {
                if bytes_eq(cmd.as_slice(), "SHARE".as_bytes()) {
                    LocalRequest::Share { hostname: arg }
                } else if bytes_eq(cmd.as_slice(), "REG".as_bytes()) {
                    let a = trimmed(arg.as_slice());
                    match split_once(a.as_slice(), 58) {
                        Some((hostname, address)) => LocalRequest::Register { hostname, address },
                        None => LocalRequest::Invalid,
                    }
                } else {
                    LocalRequest::Invalid
                }
            },
        }
    }
}

/// Where a local request stands.
#[derive(Clone, Copy, Debug, PartialEq, Eq, Structural)]
pub enum Stage {
    /// Waiting for the first line.
    AwaitRequest,
    /// Sharing to a registered host: waiting for the next path line.
    CollectPaths,
    /// Waiting to learn whether the last path names an existing file.
    CheckPath,
    /// Registering: waiting for the address text to be read.
    AwaitAddress,
    /// Registered: waiting for the configuration to be written out.
    AwaitPersist,
    /// The request got its final answer.
    Done,
}

/// What the handler asks its caller to do next.
#[derive(Clone, Copy, Debug, PartialEq, Eq, Structural)]
pub enum LocalAction {
    /// Read the next line, at most this many bytes, and hand it over (an
    /// empty line where the channel ended).
    ReadLine(u64),
    /// Find whether `pending()` names an existing regular file.
    CheckPath,
    /// Read `pending()` as a socket address.
    ParseAddress,
    /// Write the configuration to its file.
    Persist,
    /// Send this reply and close the channel.
    Reply(LocalResponse),
    /// Hand `paths()` to the peer handshake with this host.
    Share(SocketAddress),
    /// Nothing more to do.
    Close,
}

/// What happened since the last action.
pub enum LocalEvent {
    Line(Seq<u8>),
    PathChecked(bool),
    AddressParsed(Option<SocketAddress>),
    Persisted(bool),
}

/// The handler's state as values.
pub struct LocalView {
    pub stage: Stage,
    pub peer: SocketAddress,
    pub hostname: Seq<u8>,
    pub paths: Seq<Seq<u8>>,
    pub pending: Seq<u8>,
    pub replaced: Option<SocketAddress>,
}

pub open spec fn done(v: LocalView) -> LocalView {
    LocalView { stage: Stage::Done, ..v }
}

/// One step of a local request: the state after `e`, the action asked for,
/// and the registry afterwards.
pub open spec fn local_step(v: LocalView, hosts: Map<Seq<u8>, SocketAddress>, e: LocalEvent) -> (
    LocalView,
    LocalAction,
    Map<Seq<u8>, SocketAddress>,
) {
    match (v.stage, e) {
        (Stage::AwaitRequest, LocalEvent::Line(l)) => match parse_local(l) {
            LocalRequestView::Invalid => (
                done(v),
                LocalAction::Reply(LocalResponse::InvalidRequest),
                hosts,
            ),
            LocalRequestView::Share(h) => if hosts.contains_key(h) {
                (
                    LocalView { stage: Stage::CollectPaths, peer: hosts[h], paths: Seq::empty(), ..v },
                    LocalAction::ReadLine(FILE_PATH_LIMIT),
                    hosts,
                )
            } else {
                (done(v), LocalAction::Reply(LocalResponse::UnregisteredHostname), hosts)
            },
            LocalRequestView::Register(h, a) => if valid_hostname(h) {
                (
                    LocalView { stage: Stage::AwaitAddress, hostname: h, pending: a, ..v },
                    LocalAction::ParseAddress,
                    hosts,
                )
            } else {
                (done(v), LocalAction::Reply(LocalResponse::InvalidHostname), hosts)
            },
        },
        (Stage::CollectPaths, LocalEvent::Line(l)) => if trim(l).len() == 0 {
            if v.paths.len() == 0 {
                (done(v), LocalAction::Reply(LocalResponse::InvalidRequest), hosts)
            } else {
                (done(v), LocalAction::Share(v.peer), hosts)
            }
        } else {
            (LocalView { stage: Stage::CheckPath, pending: trim(l), ..v }, LocalAction::CheckPath, hosts)
        },
        (Stage::CheckPath, LocalEvent::PathChecked(ok)) => if !ok {
            (done(v), LocalAction::Reply(LocalResponse::AnyPathInvalid), hosts)
        } else if v.paths.len() + 1 >= PATHS_NUM_PER_REQUEST {
            (
                LocalView { stage: Stage::Done, paths: v.paths.push(v.pending), ..v },
                LocalAction::Share(v.peer),
                hosts,
            )
        } else {
            (
                LocalView { stage: Stage::CollectPaths, paths: v.paths.push(v.pending), ..v },
                LocalAction::ReadLine(FILE_PATH_LIMIT),
                hosts,
            )
        },
        (Stage::AwaitAddress, LocalEvent::AddressParsed(a)) => match a {
            None => (done(v), LocalAction::Reply(LocalResponse::InvalidRequest), hosts),
            Some(addr) => (
                LocalView {
                    stage: Stage::AwaitPersist,
                    replaced: if hosts.contains_key(v.hostname) {
                        Some(hosts[v.hostname])
                    } else {
                        None
                    },
                    ..v
                },
                LocalAction::Persist,
                hosts.insert(v.hostname, addr),
            ),
        },
        (Stage::AwaitPersist, LocalEvent::Persisted(ok)) => (
            done(v),
            LocalAction::Reply(
                if !ok {
                    LocalResponse::LocalRegisterFailed
                } else {
                    match v.replaced {
                        Some(prev) => LocalResponse::ReplacedAddress(prev),
                        None => LocalResponse::RegisterSucceeded,
                    }
                },
            ),
            hosts,
        ),
        _ => (done(v), LocalAction::Close, hosts),
    }
}

/// The actions that a run of events calls for, from state `v`.
pub open spec fn local_run(v: LocalView, hosts: Map<Seq<u8>, SocketAddress>, events: Seq<LocalEvent>) -> Seq<
    LocalAction,
>
    decreases events.len(),
{
    if events.len() == 0 {
        Seq::empty()
    } else {
        let (w, a, h) = local_step(v, hosts, events[0]);
        seq![a] + local_run(w, h, events.drop_first())
    }
}

/// A handler at the start of a request.
pub open spec fn local_start(peer: SocketAddress) -> LocalView {
    LocalView {
        stage: Stage::AwaitRequest,
        peer,
        hostname: Seq::empty(),
        paths: Seq::empty(),
        pending: Seq::empty(),
        replaced: None,
    }
}

/// Walks one local request to its final reply.
#[derive(Debug)]
pub struct LocalHandler {
    stage: Stage,
    peer: SocketAddress,
    hostname: Vec<u8>,
    paths: Vec<Vec<u8>>,
    pending: Vec<u8>,
    replaced: Option<SocketAddress>,
}

impl LocalHandler {
    pub closed spec fn view(&self) -> LocalView {
        LocalView {
            stage: self.stage,
            peer: self.peer,
            hostname: self.hostname@,
            paths: self.paths@.map_values(|p: Vec<u8>| p@),
            pending: self.pending@,
            replaced: self.replaced,
        }
    }

    /// A handler for a new request, and its first action: read the first
    /// line.
    pub fn new() -> (r: (LocalHandler, LocalAction))
        ensures
            r.0.view() == local_start(
                SocketAddress { ip: crate::address::IpAddress::V4(0), port: 0 },
            ),
            r.1 == LocalAction::ReadLine(FIRST_LINE_LIMIT),
    {
        let h = LocalHandler {
            stage: Stage::AwaitRequest,
            peer: SocketAddress { ip: crate::address::IpAddress::V4(0), port: 0 },
            hostname: Vec::new(),
            paths: Vec::new(),
            pending: Vec::new(),
            replaced: None,
        };
        assert(h.view().paths =~= Seq::<Seq<u8>>::empty());
        assert(h.view().hostname =~= Seq::<u8>::empty());
        assert(h.view().pending =~= Seq::<u8>::empty());
        (h, LocalAction::ReadLine(FIRST_LINE_LIMIT))
    }

    pub fn stage(&self) -> (r: Stage)
        ensures
            r == self.view().stage,
    {
        self.stage
    }

    /// The path to check, or the address text to read.
    pub fn pending(&self) -> (r: &[u8])
        ensures
            r@ == self.view().pending,
    {
        self.pending.as_slice()
    }

    /// The paths collected so far.
    pub fn paths(&self) -> (r: &Vec<Vec<u8>>)
        ensures
            r@.map_values(|p: Vec<u8>| p@) == self.view().paths,
    {
        &self.paths
    }

    fn finish(&mut self)
        ensures
            final(self).view() == done(old(self).view()),
    {
        self.stage = Stage::Done;
    }

    /// A line was read (empty where the channel ended).
    pub fn on_line(&mut self, config: &Config, line: &[u8]) -> (r: LocalAction)
        ensures
            (final(self).view(), r, config.reg_hosts@) == local_step(
                old(self).view(),
                config.reg_hosts@,
                LocalEvent::Line(line@),
            ),
    {
        let ghost v = self.view();
        match self.stage {
            Stage::AwaitRequest => match LocalRequest::parse(line) {
                LocalRequest::Invalid => {
                    self.finish();
                    LocalAction::Reply(LocalResponse::InvalidRequest)
                },
                LocalRequest::Share { hostname } => match config.get_addr_by_name(
                    hostname.as_slice(),
                ) {
                    Some(addr) => {
                        self.stage = Stage::CollectPaths;
                        self.peer = addr;
                        self.paths = Vec::new();
                        assert(self.view().paths =~= Seq::<Seq<u8>>::empty());
                        assert(self.view() == (LocalView {
                            stage: Stage::CollectPaths,
                            peer: addr,
                            paths: Seq::empty(),
                            ..v
                        }));
                        LocalAction::ReadLine(FILE_PATH_LIMIT)
                    },
                    None => {
                        self.finish();
                        LocalAction::Reply(LocalResponse::UnregisteredHostname)
                    },
                },
                LocalRequest::Register { hostname, address } => {
                    if check_hostname_valid(hostname.as_slice()) {
                        self.stage = Stage::AwaitAddress;
                        self.hostname = hostname;
                        self.pending = address;
                        LocalAction::ParseAddress
                    } else {
                        self.finish();
                        LocalAction::Reply(LocalResponse::InvalidHostname)
                    }
                },
            },
            Stage::CollectPaths => {
                let t = trimmed(line);
                if t.len() == 0 {
                    self.finish();
                    if self.paths.len() == 0 {
                        LocalAction::Reply(LocalResponse::InvalidRequest)
                    } else {
                        LocalAction::Share(self.peer)
                    }
                } else {
                    self.stage = Stage::CheckPath;
                    self.pending = t;
                    LocalAction::CheckPath
                }
            },
            _ => {
                self.finish();
                LocalAction::Close
            },
        }
    }

    /// The last path was checked: `is_file` says whether it names an
    /// existing regular file.
    pub fn on_path_checked(&mut self, is_file: bool) -> (r: LocalAction)
        ensures
            forall|hosts: Map<Seq<u8>, SocketAddress>|
                #![trigger local_step(old(self).view(), hosts, LocalEvent::PathChecked(is_file))]
                (final(self).view(), r, hosts) == local_step(
                    old(self).view(),
                    hosts,
                    LocalEvent::PathChecked(is_file),
                ),
    {
        let ghost v = self.view();
        if self.stage != Stage::CheckPath {
            self.finish();
            return LocalAction::Close;
        }
        if !is_file {
            self.finish();
            return LocalAction::Reply(LocalResponse::AnyPathInvalid);
        }
        let p = copy_range(self.pending.as_slice(), 0, self.pending.len());
        assert(p@ =~= v.pending);
        self.paths.push(p);
        assert(self.view().paths =~= v.paths.push(v.pending));
        if self.paths.len() >= PATHS_NUM_PER_REQUEST {
            self.stage = Stage::Done;
            LocalAction::Share(self.peer)
        } else {
            self.stage = Stage::CollectPaths;
            LocalAction::ReadLine(FILE_PATH_LIMIT)
        }
    }

    /// The address text was read: `Some` address, or `None` where it is not
    /// an address. A good address is registered in `config`.
    pub fn on_address(&mut self, config: &mut Config, addr: Option<SocketAddress>) -> (r: LocalAction)
        ensures
            (final(self).view(), r, final(config).reg_hosts@) == local_step(
                old(self).view(),
                old(config).reg_hosts@,
                LocalEvent::AddressParsed(addr),
            ),
            final(config).listener_addr == old(config).listener_addr,
            final(config).num_workers == old(config).num_workers,
            final(config).receive_dir == old(config).receive_dir,
            final(config).ipc_socket_name == old(config).ipc_socket_name,
    {
        if self.stage != Stage::AwaitAddress {
            self.finish();
            return LocalAction::Close;
        }
        match addr {
            None => {
                self.finish();
                LocalAction::Reply(LocalResponse::InvalidRequest)
            },
            Some(a) => {
                let replaced = config.register_host(self.hostname.as_slice(), a);
                self.replaced = replaced;
                self.stage = Stage::AwaitPersist;
                LocalAction::Persist
            },
        }
    }

    /// The configuration was written out (`true`) or could not be.
    pub fn on_persisted(&mut self, ok: bool) -> (r: LocalAction)
        ensures
            forall|hosts: Map<Seq<u8>, SocketAddress>|
                #![trigger local_step(old(self).view(), hosts, LocalEvent::Persisted(ok))]
                (final(self).view(), r, hosts) == local_step(
                    old(self).view(),
                    hosts,
                    LocalEvent::Persisted(ok),
                ),
    {
        if self.stage != Stage::AwaitPersist {
            self.finish();
            return LocalAction::Close;
        }
        self.finish();
        if !ok {
            LocalAction::Reply(LocalResponse::LocalRegisterFailed)
        } else {
            match self.replaced {
                Some(prev) => LocalAction::Reply(LocalResponse::ReplacedAddress(prev)),
                None => LocalAction::Reply(LocalResponse::RegisterSucceeded),
            }
        }
    }
}

proof fn lemma_run_cons(
    v: LocalView,
    hosts: Map<Seq<u8>, SocketAddress>,
    e: LocalEvent,
    rest: Seq<LocalEvent>,
)
    ensures
        local_run(v, hosts, seq![e] + rest) == seq![local_step(v, hosts, e).1] + local_run(
            local_step(v, hosts, e).0,
            local_step(v, hosts, e).2,
            rest,
        ),
{
    let events = seq![e] + rest;
    assert(events[0] == e);
    assert(events.drop_first() =~= rest);
}

/// Once a request has its answer, whatever comes after asks for nothing.
proof fn lemma_done_closes(v: LocalView, hosts: Map<Seq<u8>, SocketAddress>, events: Seq<LocalEvent>)
    requires
        v.stage == Stage::Done,
    ensures
        local_run(v, hosts, events).len() == events.len(),
        forall|i: int|
            0 <= i < events.len() ==> #[trigger] local_run(v, hosts, events)[i] == LocalAction::Close,
    decreases events.len(),
{
    if events.len() > 0 {
        let (w, a, h) = local_step(v, hosts, events[0]);
        lemma_done_closes(w, h, events.drop_first());
        assert forall|i: int| 0 <= i < events.len() implies #[trigger] local_run(
            v,
            hosts,
            events,
        )[i] == LocalAction::Close by {
            if i > 0 {
                assert(local_run(v, hosts, events)[i] == local_run(w, h, events.drop_first())[i - 1]);
            }
        }
    }
}

/// A `SHARE` request naming a host that is not registered is answered
/// `UNREGISTERED_HOSTNAME`, and nothing that follows hands files to a peer.
pub proof fn lemma_share_unregistered(
    hosts: Map<Seq<u8>, SocketAddress>,
    peer: SocketAddress,
    line: Seq<u8>,
    hostname: Seq<u8>,
    rest: Seq<LocalEvent>,
)
    requires
        parse_local(line) == LocalRequestView::Share(hostname),
        !hosts.contains_key(hostname),
    ensures
        local_run(local_start(peer), hosts, seq![LocalEvent::Line(line)] + rest)[0]
            == LocalAction::Reply(LocalResponse::UnregisteredHostname),
        forall|i: int|
            0 <= i < rest.len() + 1 ==> !(#[trigger] local_run(
                local_start(peer),
                hosts,
                seq![LocalEvent::Line(line)] + rest,
            )[i] is Share),
{
    let v = local_start(peer);
    lemma_run_cons(v, hosts, LocalEvent::Line(line), rest);
    let (w, a, h) = local_step(v, hosts, LocalEvent::Line(line));
    lemma_done_closes(w, h, rest);
    let acts = local_run(v, hosts, seq![LocalEvent::Line(line)] + rest);
    assert forall|i: int| 0 <= i < rest.len() + 1 implies !(#[trigger] acts[i] is Share) by {
        if i > 0 {
            assert(acts[i] == local_run(w, h, rest)[i - 1]);
        }
    }
}

/// A `SHARE` request whose second path names no file is answered
/// `ANY_PATH_INVALID` right after that path is checked, and no files are
/// handed to a peer, not even the first.
pub proof fn lemma_share_second_path_invalid(
    hosts: Map<Seq<u8>, SocketAddress>,
    peer: SocketAddress,
    line: Seq<u8>,
    hostname: Seq<u8>,
    first: Seq<u8>,
    second: Seq<u8>,
    rest: Seq<LocalEvent>,
)
    requires
        parse_local(line) == LocalRequestView::Share(hostname),
        hosts.contains_key(hostname),
        trim(first).len() > 0,
        trim(second).len() > 0,
    ensures
        ({
            let acts = local_run(
                local_start(peer),
                hosts,
                seq![
                    LocalEvent::Line(line),
                    LocalEvent::Line(first),
                    LocalEvent::PathChecked(true),
                    LocalEvent::Line(second),
                    LocalEvent::PathChecked(false),
                ] + rest,
            );
            &&& acts[4] == LocalAction::Reply(LocalResponse::AnyPathInvalid)
            &&& forall|i: int| 0 <= i < rest.len() + 5 ==> !(#[trigger] acts[i] is Share)
        }),
{
    let e0 = LocalEvent::Line(line);
    let e1 = LocalEvent::Line(first);
    let e2 = LocalEvent::PathChecked(true);
    let e3 = LocalEvent::Line(second);
    let e4 = LocalEvent::PathChecked(false);
    let all = seq![e0, e1, e2, e3, e4] + rest;
    let r1 = seq![e1, e2, e3, e4] + rest;
    let r2 = seq![e2, e3, e4] + rest;
    let r3 = seq![e3, e4] + rest;
    let r4 = seq![e4] + rest;
    assert(all =~= seq![e0] + r1);
    assert(r1 =~= seq![e1] + r2);
    assert(r2 =~= seq![e2] + r3);
    assert(r3 =~= seq![e3] + r4);
    let v0 = local_start(peer);
    let (v1, a0, h1) = local_step(v0, hosts, e0);
    let (v2, a1, h2) = local_step(v1, h1, e1);
    let (v3, a2, h3) = local_step(v2, h2, e2);
    let (v4, a3, h4) = local_step(v3, h3, e3);
    let (v5, a4, h5) = local_step(v4, h4, e4);
    lemma_run_cons(v0, hosts, e0, r1);
    lemma_run_cons(v1, h1, e1, r2);
    lemma_run_cons(v2, h2, e2, r3);
    lemma_run_cons(v3, h3, e3, r4);
    lemma_run_cons(v4, h4, e4, rest);
    assert(v1.stage == Stage::CollectPaths && v1.paths.len() == 0);
    assert(v2.stage == Stage::CheckPath);
    assert(v3.stage == Stage::CollectPaths && v3.paths.len() == 1);
    assert(v4.stage == Stage::CheckPath);
    assert(v5.stage == Stage::Done);
    lemma_done_closes(v5, h5, rest);
    let acts = local_run(v0, hosts, all);
    assert(acts =~= seq![a0, a1, a2, a3, a4] + local_run(v5, h5, rest));
    assert forall|i: int| 0 <= i < rest.len() + 5 implies !(#[trigger] acts[i] is Share) by {
        if i >= 5 {
            assert(acts[i] == local_run(v5, h5, rest)[i - 5]);
        }
    }
}

proof fn lemma_command_bytes()
    ensures
        "SHARE".spec_bytes() == seq![83u8, 72u8, 65u8, 82u8, 69u8],
        "REG".spec_bytes() == seq![82u8, 69u8, 71u8],
{
    reveal_strlit("SHARE");
    reveal_strlit("REG");
    assert(vstd::utf8::is_ascii_chars("SHARE"@));
    assert(vstd::utf8::is_ascii_chars("REG"@));
    vstd::utf8::is_ascii_chars_encode_utf8("SHARE"@);
    vstd::utf8::is_ascii_chars_encode_utf8("REG"@);
    assert("SHARE".spec_bytes() =~= seq![83u8, 72u8, 65u8, 82u8, 69u8]);
    assert("REG".spec_bytes() =~= seq![82u8, 69u8, 71u8]);
}

/// The request line `SHARE <hostname>`.
pub open spec fn share_line(hostname: Seq<u8>) -> Seq<u8> {
    "SHARE".spec_bytes() + seq![32u8] + hostname + crlf()
}

/// The request line `REG <hostname>:<address>`.
pub open spec fn reg_line(hostname: Seq<u8>, address: Seq<u8>) -> Seq<u8> {
    "REG".spec_bytes() + seq![32u8] + hostname + seq![58u8] + address + crlf()
}

/// A `SHARE` line reads as a request to share with its hostname, where the
/// name has no space and does not end in whitespace.
pub proof fn lemma_share_line(hostname: Seq<u8>)
    requires
        hostname.len() > 0,
        !is_ws(hostname.last()),
        forall|i: int| 0 <= i < hostname.len() ==> #[trigger] hostname[i] != 32,
    ensures
        parse_local(share_line(hostname)) == LocalRequestView::Share(hostname),
{
    lemma_command_bytes();
    let w = "SHARE".spec_bytes();
    let x = w + seq![32u8] + hostname;
    assert(share_line(hostname) == x + crlf());
    assert(x[0] == 83u8);
    assert(x.last() == hostname.last());
    crate::text::lemma_trim_line(x);
    crate::text::lemma_index_of_after(w, seq![32u8] + hostname, 32);
    assert(w + (seq![32u8] + hostname) =~= x);
    assert(index_of(seq![32u8] + hostname, 32) == Some(0int));
    assert(x.subrange(0, 5) =~= w);
    assert(x.subrange(6, x.len() as int) =~= hostname);
    crate::text::lemma_index_of_none(hostname, 32);
}

/// A `REG` line reads as a registration of its hostname at its address
/// text, where neither has a space, the name has no `:` and does not start
/// with whitespace, and the address does not end in whitespace.
pub proof fn lemma_reg_line(hostname: Seq<u8>, address: Seq<u8>)
    requires
        hostname.len() > 0,
        address.len() > 0,
        !is_ws(hostname[0]),
        !is_ws(address.last()),
        forall|i: int| 0 <= i < hostname.len() ==> #[trigger] hostname[i] != 58,
        forall|i: int| 0 <= i < hostname.len() ==> #[trigger] hostname[i] != 32,
        forall|i: int| 0 <= i < address.len() ==> #[trigger] address[i] != 32,
    ensures
        parse_local(reg_line(hostname, address)) == LocalRequestView::Register(hostname, address),
{
    lemma_command_bytes();
    let w = "REG".spec_bytes();
    let arg = hostname + seq![58u8] + address;
    let x = w + seq![32u8] + arg;
    assert(reg_line(hostname, address) =~= x + crlf());
    assert(x[0] == 82u8);
    assert(x.last() == address.last());
    crate::text::lemma_trim_line(x);
    crate::text::lemma_index_of_after(w, seq![32u8] + arg, 32);
    assert(w + (seq![32u8] + arg) =~= x);
    assert(index_of(seq![32u8] + arg, 32) == Some(0int));
    assert(x.subrange(0, 3) =~= w);
    assert(x.subrange(4, x.len() as int) =~= arg);
    assert forall|i: int| 0 <= i < arg.len() implies arg[i] != 32 by {
        if i < hostname.len() {
            assert(arg[i] == hostname[i]);
        } else if i > hostname.len() {
            assert(arg[i] == address[i - hostname.len() - 1]);
        }
    }
    crate::text::lemma_index_of_none(arg, 32);
    assert(arg[0] == hostname[0]);
    assert(arg.last() == address.last());
    crate::text::lemma_trim_plain(arg);
    crate::text::lemma_index_of_after(hostname, seq![58u8] + address, 58);
    assert(hostname + (seq![58u8] + address) =~= arg);
    assert(index_of(seq![58u8] + address, 58) == Some(0int));
    assert(arg.subrange(0, hostname.len() as int) =~= hostname);
    assert(arg.subrange(hostname.len() as int + 1, arg.len() as int) =~= address);
}

/// A path line reads as its path, where the path neither starts nor ends
/// with whitespace.
pub proof fn lemma_path_line(path: Seq<u8>)
    requires
        path.len() > 0,
        !is_ws(path[0]),
        !is_ws(path.last()),
    ensures
        trim(path + crlf()) == path,
        trim(path + crlf()).len() > 0,
{
    crate::text::lemma_trim_line(path);
}

/// `SHARE <hostname>` for a host that is not registered is answered
/// `UNREGISTERED_HOSTNAME`, and nothing that follows hands files to a peer.
pub proof fn lemma_share_line_unregistered(
    hosts: Map<Seq<u8>, SocketAddress>,
    peer: SocketAddress,
    hostname: Seq<u8>,
    rest: Seq<LocalEvent>,
)
    requires
        hostname.len() > 0,
        !is_ws(hostname.last()),
        forall|i: int| 0 <= i < hostname.len() ==> #[trigger] hostname[i] != 32,
        !hosts.contains_key(hostname),
    ensures
        local_run(local_start(peer), hosts, seq![LocalEvent::Line(share_line(hostname))] + rest)[0]
            == LocalAction::Reply(LocalResponse::UnregisteredHostname),
        forall|i: int|
            0 <= i < rest.len() + 1 ==> !(#[trigger] local_run(
                local_start(peer),
                hosts,
                seq![LocalEvent::Line(share_line(hostname))] + rest,
            )[i] is Share),
{
    lemma_share_line(hostname);
    lemma_share_unregistered(hosts, peer, share_line(hostname), hostname, rest);
}

/// `SHARE <hostname>` for a registered host, then two path lines of which
/// the second names no file: answered `ANY_PATH_INVALID`, and no files are
/// handed to a peer.
pub proof fn lemma_share_lines_second_path_invalid(
    hosts: Map<Seq<u8>, SocketAddress>,
    peer: SocketAddress,
    hostname: Seq<u8>,
    first: Seq<u8>,
    second: Seq<u8>,
    rest: Seq<LocalEvent>,
)
    requires
        hostname.len() > 0,
        !is_ws(hostname.last()),
        forall|i: int| 0 <= i < hostname.len() ==> #[trigger] hostname[i] != 32,
        hosts.contains_key(hostname),
        first.len() > 0 && !is_ws(first[0]) && !is_ws(first.last()),
        second.len() > 0 && !is_ws(second[0]) && !is_ws(second.last()),
    ensures
        ({
            let acts = local_run(
                local_start(peer),
                hosts,
                seq![
                    LocalEvent::Line(share_line(hostname)),
                    LocalEvent::Line(first + crlf()),
                    LocalEvent::PathChecked(true),
                    LocalEvent::Line(second + crlf()),
                    LocalEvent::PathChecked(false),
                ] + rest,
            );
            &&& acts[4] == LocalAction::Reply(LocalResponse::AnyPathInvalid)
            &&& forall|i: int| 0 <= i < rest.len() + 5 ==> !(#[trigger] acts[i] is Share)
        }),
{
    lemma_share_line(hostname);
    lemma_path_line(first);
    lemma_path_line(second);
    lemma_share_second_path_invalid(
        hosts,
        peer,
        share_line(hostname),
        hostname,
        first + crlf(),
        second + crlf(),
        rest,
    );
}

/// Registering a hostname that already has an address: the request line,
/// the parsed address and a successful write are answered `REPLACED` with
/// the previous address, and the registry then holds the new one.
pub proof fn lemma_reg_line_replaces(
    hosts: Map<Seq<u8>, SocketAddress>,
    peer: SocketAddress,
    hostname: Seq<u8>,
    address: Seq<u8>,
    new_addr: SocketAddress,
)
    requires
        valid_hostname(hostname),
        address.len() > 0,
        !is_ws(hostname[0]),
        !is_ws(address.last()),
        forall|i: int| 0 <= i < hostname.len() ==> #[trigger] hostname[i] != 58,
        forall|i: int| 0 <= i < hostname.len() ==> #[trigger] hostname[i] != 32,
        forall|i: int| 0 <= i < address.len() ==> #[trigger] address[i] != 32,
        hosts.contains_key(hostname),
    ensures
        ({
            let (v1, a1, h1) = local_step(
                local_start(peer),
                hosts,
                LocalEvent::Line(reg_line(hostname, address)),
            );
            let (v2, a2, h2) = local_step(v1, h1, LocalEvent::AddressParsed(Some(new_addr)));
            let (v3, a3, h3) = local_step(v2, h2, LocalEvent::Persisted(true));
            &&& a1 == LocalAction::ParseAddress
            &&& v1.pending == address
            &&& a2 == LocalAction::Persist
            &&& a3 == LocalAction::Reply(LocalResponse::ReplacedAddress(hosts[hostname]))
            &&& h3.contains_key(hostname)
            &&& h3[hostname] == new_addr
            &&& v3.stage == Stage::Done
        }),
{
    lemma_reg_line(hostname, address);
}

} // verus!
