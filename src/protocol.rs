//! The words of both channels: request commands, the replies that peers
//! send each other, the replies that reach the local client, and their text.
use vstd::prelude::*;
use vstd::string::StringSliceAdditionalSpecFns;
use crate::address::{addr_text, SocketAddress};
use crate::text::{
    append_bytes, bytes_eq, crlf, dec_text, index_of, parse_bounded, parse_up_to, push_dec, push_str, split_first, split_once,
    str_vec, trim, trimmed,
};

verus! {

/// A sink of control lines: each line goes out with its terminator.
pub trait WriteLine {
    /// Everything written so far.
    spec fn written(&self) -> Seq<u8>;

    fn write_line(&mut self, line: &[u8])
        ensures
            final(self).written() == old(self).written() + line@ + crlf(),
    ;
}

impl WriteLine for Vec<u8> {
    open spec fn written(&self) -> Seq<u8> {
        self@
    }

    fn write_line(&mut self, line: &[u8]) {
        append_bytes(self, line);
        self.push(13);
        self.push(10);
        assert(self@ =~= old(self)@ + line@ + crlf());
    }
}

/// A command that opens a request.
#[derive(Clone, Copy, Debug, PartialEq, Eq, Structural)]
pub enum RequestCommand {
    Local(LocalCommand),
    PortCheck,
}

/// A command of the local control channel.
#[derive(Clone, Copy, Debug, PartialEq, Eq, Structural)]
pub enum LocalCommand {
    Share,
    Register,
}

impl LocalCommand {
    pub open spec fn text(self) -> &'static str {
        match self {
            LocalCommand::Share => "SHARE",
            LocalCommand::Register => "REG",
        }
    }

    pub fn as_str(&self) -> (r: &'static str)
        ensures
            r@ == self.text()@,
    {
        match self {
            LocalCommand::Share => "SHARE",
            LocalCommand::Register => "REG",
        }
    }

    pub fn as_bytes(&self) -> (r: &'static [u8])
        ensures
            r@ == self.text().spec_bytes(),
    {
        self.as_str().as_bytes()
    }
}

impl RequestCommand {
    pub open spec fn text(self) -> &'static str {
        match self {
            RequestCommand::Local(c) => c.text(),
            RequestCommand::PortCheck => "PORT",
        }
    }

    pub fn as_str(&self) -> (r: &'static str)
        ensures
            r@ == self.text()@,
    {
        match self {
            RequestCommand::Local(c) => c.as_str(),
            RequestCommand::PortCheck => "PORT",
        }
    }
}

/// What a peer's daemon answers on the control connection and at the end
/// of a transfer.
#[derive(Clone, Copy, Debug, PartialEq, Eq, Structural)]
pub enum RemoteResponse {
    UnregisteredHost,
    NoAvailablePort,
    PortConfirm(u16),
    InvalidPort,
    FilesReceived(u64),
    UnexpectedEndFlag(u64),
    InvalidRequest,
}

/// The word that opens each reply between peers.
pub open spec fn remote_tag(r: RemoteResponse) -> &'static str {
    match r {
        RemoteResponse::UnregisteredHost => "UNREGISTERED_HOST",
        RemoteResponse::NoAvailablePort => "NO_AVAILABLE_PORT",
        RemoteResponse::PortConfirm(_) => "PORT_CONFIRM",
        RemoteResponse::InvalidPort => "INVALID_PORT",
        RemoteResponse::FilesReceived(_) => "FILES_RECEIVED",
        RemoteResponse::UnexpectedEndFlag(_) => "UNEXPECTED_END_FLAG",
        RemoteResponse::InvalidRequest => "INVALID_REQUEST",
    }
}

/// The line (without terminator) that carries a reply between peers.
pub open spec fn remote_text(r: RemoteResponse) -> Seq<u8> {
    match r {
        RemoteResponse::PortConfirm(p) => remote_tag(r).spec_bytes() + seq![32u8] + dec_text(
            p as nat,
        ),
        RemoteResponse::FilesReceived(n) => remote_tag(r).spec_bytes() + seq![32u8] + dec_text(
            n as nat,
        ),
        RemoteResponse::UnexpectedEndFlag(n) => remote_tag(r).spec_bytes() + seq![32u8]
            + dec_text(n as nat),
        _ => remote_tag(r).spec_bytes(),
    }
}

/// How a reply line from a peer reads, if it reads as one at all.
pub open spec fn parse_remote(line: Seq<u8>) -> Option<RemoteResponse> {
    let t = trim(line);
    match split_first(t, 32) {
        None => if t == "UNREGISTERED_HOST".spec_bytes() {
            Some(RemoteResponse::UnregisteredHost)
        } else if t == "NO_AVAILABLE_PORT".spec_bytes() {
            Some(RemoteResponse::NoAvailablePort)
        } else if t == "INVALID_PORT".spec_bytes() {
            Some(RemoteResponse::InvalidPort)
        } else if t == "INVALID_REQUEST".spec_bytes() {
            Some(RemoteResponse::InvalidRequest)
        } else {
            None
        },
        Some((tag, arg)) => if tag == "PORT_CONFIRM".spec_bytes() {
            match parse_bounded(arg, u16::MAX as nat) {
                Some(p) => Some(RemoteResponse::PortConfirm(p as u16)),
                None => None,
            }
        } else if tag == "FILES_RECEIVED".spec_bytes() {
            match parse_bounded(arg, u64::MAX as nat) {
                Some(n) => Some(RemoteResponse::FilesReceived(n as u64)),
                None => None,
            }
        } else if tag == "UNEXPECTED_END_FLAG".spec_bytes() {
            match parse_bounded(arg, u64::MAX as nat) {
                Some(n) => Some(RemoteResponse::UnexpectedEndFlag(n as u64)),
                None => None,
            }
        } else {
            None
        },
    }
}

impl RemoteResponse {
    /// The reply's text where it carries no number, and the empty text where
    /// it does.
    pub fn to_str_unchecked(self) -> (r: &'static str)
        ensures
            r@ == match self {
                RemoteResponse::PortConfirm(_) | RemoteResponse::FilesReceived(_)
                | RemoteResponse::UnexpectedEndFlag(_) => ""@,
                _ => remote_tag(self)@,
            },
    {
        match self {
            RemoteResponse::UnregisteredHost => "UNREGISTERED_HOST",
            RemoteResponse::NoAvailablePort => "NO_AVAILABLE_PORT",
            RemoteResponse::InvalidPort => "INVALID_PORT",
            RemoteResponse::InvalidRequest => "INVALID_REQUEST",
            _ => "",
        }
    }

    /// The word that opens the reply.
    pub fn tag(&self) -> (r: &'static str)
        ensures
            r@ == remote_tag(*self)@,
    {
        match self {
            RemoteResponse::UnregisteredHost => "UNREGISTERED_HOST",
            RemoteResponse::NoAvailablePort => "NO_AVAILABLE_PORT",
            RemoteResponse::PortConfirm(_) => "PORT_CONFIRM",
            RemoteResponse::InvalidPort => "INVALID_PORT",
            RemoteResponse::FilesReceived(_) => "FILES_RECEIVED",
            RemoteResponse::UnexpectedEndFlag(_) => "UNEXPECTED_END_FLAG",
            RemoteResponse::InvalidRequest => "INVALID_REQUEST",
        }
    }

    /// The reply as a line, without its terminator.
    pub fn to_line(&self) -> (r: Vec<u8>)
        ensures
            r@ == remote_text(*self),
    {
        let mut out = str_vec(self.tag());
        match self {
            RemoteResponse::PortConfirm(p) => {
                out.push(32);
                push_dec(&mut out, *p as u64);
            },
            RemoteResponse::FilesReceived(n) | RemoteResponse::UnexpectedEndFlag(n) => {
                out.push(32);
                push_dec(&mut out, *n);
            },
            _ => {},
        }
        assert(out@ =~= remote_text(*self));
        out
    }

    /// Reads a reply line from a peer; anything else is an unexpected
    /// response.
    pub fn parse(line: &[u8]) -> (r: Result<RemoteResponse, Response>)
        ensures
            match r {
                Ok(v) => parse_remote(line@) == Some(v),
                Err(e) => parse_remote(line@) is None && e == Response::UnexpectedResponse,
            },
    {
        let t = trimmed(line);
        match split_once(&t, 32) {
            None => {
                if bytes_eq(&t, "UNREGISTERED_HOST".as_bytes()) {
                    Ok(RemoteResponse::UnregisteredHost)
                } else if bytes_eq(&t, "NO_AVAILABLE_PORT".as_bytes()) {
                    Ok(RemoteResponse::NoAvailablePort)
                } else if bytes_eq(&t, "INVALID_PORT".as_bytes()) {
                    Ok(RemoteResponse::InvalidPort)
                } else if bytes_eq(&t, "INVALID_REQUEST".as_bytes()) {
                    Ok(RemoteResponse::InvalidRequest)
                } else {
                    Err(Response::UnexpectedResponse)
                }
            },
            Some((tag, arg)) => {
                if bytes_eq(&tag, "PORT_CONFIRM".as_bytes()) {
                    match parse_up_to(&arg, 65535) {
                        Some(p) => Ok(RemoteResponse::PortConfirm(p as u16)),
                        None => Err(Response::UnexpectedResponse),
                    }
                } else if bytes_eq(&tag, "FILES_RECEIVED".as_bytes()) {
                    match parse_up_to(&arg, 18446744073709551615) {
                        Some(n) => Ok(RemoteResponse::FilesReceived(n as u64)),
                        None => Err(Response::UnexpectedResponse),
                    }
                } else if bytes_eq(&tag, "UNEXPECTED_END_FLAG".as_bytes()) {
                    match parse_up_to(&arg, 18446744073709551615) {
                        Some(n) => Ok(RemoteResponse::UnexpectedEndFlag(n as u64)),
                        None => Err(Response::UnexpectedResponse),
                    }
                } else {
                    Err(Response::UnexpectedResponse)
                }
            },
        }
    }
}

/// A request that a peer's daemon sends to this one's listener.
#[derive(Clone, Copy, Debug, PartialEq, Eq, Structural)]
pub enum RemoteRequest {
    /// `PORT <port>`: asks for a data port, the given one if it is free.
    PortCheck(u16),
}

pub open spec fn remote_request_text(r: RemoteRequest) -> Seq<u8> {
    match r {
        RemoteRequest::PortCheck(p) => "PORT".spec_bytes() + seq![32u8] + dec_text(p as nat),
    }
}

/// How a request line from a peer reads, if it reads as one at all.
pub open spec fn parse_remote_request(line: Seq<u8>) -> Option<RemoteRequest> {
    match split_first(trim(line), 32) {
        Some((tag, arg)) => if tag == "PORT".spec_bytes() {
            match parse_bounded(arg, u16::MAX as nat) {
                Some(p) => Some(RemoteRequest::PortCheck(p as u16)),
                None => None,
            }
        } else {
            None
        },
        None => None,
    }
}

impl RemoteRequest {
    /// The request as a line, without its terminator.
    pub fn to_line(&self) -> (r: Vec<u8>)
        ensures
            r@ == remote_request_text(*self),
    {
        match self {
            RemoteRequest::PortCheck(p) => {
                let mut out = str_vec(RequestCommand::PortCheck.as_str());
                out.push(32);
                push_dec(&mut out, *p as u64);
                assert(out@ =~= remote_request_text(*self));
                out
            },
        }
    }

    /// Reads a request line from a peer.
    pub fn parse(line: &[u8]) -> (r: Option<RemoteRequest>)
        ensures
            r == parse_remote_request(line@),
    {
        let t = trimmed(line);
        match split_once(&t, 32) {
            Some((tag, arg)) => {
                if bytes_eq(&tag, "PORT".as_bytes()) {
                    match parse_up_to(&arg, 65535) {
                        Some(p) => Some(RemoteRequest::PortCheck(p as u16)),
                        None => None,
                    }
                } else {
                    None
                }
            },
            None => None,
        }
    }
}

/// What the local client is told. Every request ends with exactly one of
/// these that is final (all but the two transfer markers).
#[derive(Clone, Copy, Debug, PartialEq, Eq, Structural)]
pub enum LocalResponse {
    RegisterSucceeded,
    ReplacedAddress(SocketAddress),
    InvalidHostname,
    LocalRegisterFailed,
    UnregisteredHostname,
    AnyPathInvalid,
    UnreachableAddress(SocketAddress),
    RemoteUnregistered,
    RemoteNoAvailablePort,
    UnexpectedRemoteResponse,
    SendStart,
    SendEnd,
    AllFilesSucceeded,
    FilesSucceeded(u64),
    UnexpectedSendResponse,
    InvalidRequest,
}

pub open spec fn local_tag(r: LocalResponse) -> &'static str {
    match r {
        LocalResponse::RegisterSucceeded => "REG_SUCCEEDED",
        LocalResponse::ReplacedAddress(_) => "REPLACED",
        LocalResponse::InvalidHostname => "INVALID_HOSTNAME",
        LocalResponse::LocalRegisterFailed => "LOCAL_REGISTER_FAILED",
        LocalResponse::UnregisteredHostname => "UNREGISTERED_HOSTNAME",
        LocalResponse::AnyPathInvalid => "ANY_PATH_INVALID",
        LocalResponse::UnreachableAddress(_) => "UNREACHABLE_ADDRESS",
        LocalResponse::RemoteUnregistered => "REMOTE_UNREGISTERED",
        LocalResponse::RemoteNoAvailablePort => "REMOTE_NO_AVAILABLE_PORT",
        LocalResponse::UnexpectedRemoteResponse => "UNEXPECTED_REMOTE_RESPONSE",
        LocalResponse::SendStart => "SEND_START",
        LocalResponse::SendEnd => "SEND_END",
        LocalResponse::AllFilesSucceeded => "ALL_FILES_SUCCEEDED",
        LocalResponse::FilesSucceeded(_) => "FILES_SUCCEEDED",
        LocalResponse::UnexpectedSendResponse => "UNEXPECTED_SEND_RESPONSE",
        LocalResponse::InvalidRequest => "INVALID_REQUEST",
    }
}

/// The line (without terminator) that carries a reply to the local client.
pub open spec fn local_text(r: LocalResponse) -> Seq<u8> {
    match r {
        LocalResponse::ReplacedAddress(a) => local_tag(r).spec_bytes() + seq![32u8] + addr_text(a),
        LocalResponse::UnreachableAddress(a) => local_tag(r).spec_bytes() + seq![32u8]
            + addr_text(a),
        LocalResponse::FilesSucceeded(n) => local_tag(r).spec_bytes() + seq![32u8] + dec_text(
            n as nat,
        ),
        _ => local_tag(r).spec_bytes(),
    }
}

impl LocalResponse {
    /// The reply's text where it carries no value, and the empty text where
    /// it does.
    pub fn to_str_unchecked(self) -> (r: &'static str)
        ensures
            r@ == match self {
                LocalResponse::ReplacedAddress(_) | LocalResponse::UnreachableAddress(_)
                | LocalResponse::FilesSucceeded(_) => ""@,
                _ => local_tag(self)@,
            },
    {
        match self {
            LocalResponse::ReplacedAddress(_) | LocalResponse::UnreachableAddress(_)
            | LocalResponse::FilesSucceeded(_) => "",
            _ => self.tag(),
        }
    }

    /// The word that opens the reply.
    pub fn tag(&self) -> (r: &'static str)
        ensures
            r@ == local_tag(*self)@,
    {
        match self {
            LocalResponse::RegisterSucceeded => "REG_SUCCEEDED",
            LocalResponse::ReplacedAddress(_) => "REPLACED",
            LocalResponse::InvalidHostname => "INVALID_HOSTNAME",
            LocalResponse::LocalRegisterFailed => "LOCAL_REGISTER_FAILED",
            LocalResponse::UnregisteredHostname => "UNREGISTERED_HOSTNAME",
            LocalResponse::AnyPathInvalid => "ANY_PATH_INVALID",
            LocalResponse::UnreachableAddress(_) => "UNREACHABLE_ADDRESS",
            LocalResponse::RemoteUnregistered => "REMOTE_UNREGISTERED",
            LocalResponse::RemoteNoAvailablePort => "REMOTE_NO_AVAILABLE_PORT",
            LocalResponse::UnexpectedRemoteResponse => "UNEXPECTED_REMOTE_RESPONSE",
            LocalResponse::SendStart => "SEND_START",
            LocalResponse::SendEnd => "SEND_END",
            LocalResponse::AllFilesSucceeded => "ALL_FILES_SUCCEEDED",
            LocalResponse::FilesSucceeded(_) => "FILES_SUCCEEDED",
            LocalResponse::UnexpectedSendResponse => "UNEXPECTED_SEND_RESPONSE",
            LocalResponse::InvalidRequest => "INVALID_REQUEST",
        }
    }

    /// The reply as a line, without its terminator.
    pub fn to_line(&self) -> (r: Vec<u8>)
        ensures
            r@ == local_text(*self),
    {
        let mut out = str_vec(self.tag());
        match self {
            LocalResponse::ReplacedAddress(a) | LocalResponse::UnreachableAddress(a) => {
                out.push(32);
                a.push_text(&mut out);
            },
            LocalResponse::FilesSucceeded(n) => {
                out.push(32);
                push_dec(&mut out, *n);
            },
            _ => {},
        }
        assert(out@ =~= local_text(*self));
        out
    }
}

/// Any reply line of the daemon.
#[derive(Clone, Copy, Debug, PartialEq, Eq, Structural)]
pub enum Response {
    /// Sent to a peer whose reply could not be understood.
    UnexpectedResponse,
    Remote(RemoteResponse),
    Local(LocalResponse),
}

pub open spec fn response_text(r: Response) -> Seq<u8> {
    match r {
        Response::UnexpectedResponse => "UNEXPECTED_RESPONSE".spec_bytes(),
        Response::Remote(x) => remote_text(x),
        Response::Local(x) => local_text(x),
    }
}

impl Response {
    /// The reply's text where it carries no value, and the empty text where
    /// it does.
    pub fn to_str_unchecked(self) -> (r: &'static str)
        ensures
            r@ == match self {
                Response::UnexpectedResponse => "UNEXPECTED_RESPONSE"@,
                Response::Remote(x) => match x {
                    RemoteResponse::PortConfirm(_) | RemoteResponse::FilesReceived(_)
                    | RemoteResponse::UnexpectedEndFlag(_) => ""@,
                    _ => remote_tag(x)@,
                },
                Response::Local(x) => match x {
                    LocalResponse::ReplacedAddress(_) | LocalResponse::UnreachableAddress(_)
                    | LocalResponse::FilesSucceeded(_) => ""@,
                    _ => local_tag(x)@,
                },
            },
    {
        match self {
            Response::UnexpectedResponse => "UNEXPECTED_RESPONSE",
            Response::Remote(x) => x.to_str_unchecked(),
            Response::Local(x) => x.to_str_unchecked(),
        }
    }

    /// The reply as a line, without its terminator.
    pub fn to_line(&self) -> (r: Vec<u8>)
        ensures
            r@ == response_text(*self),
    {
        match self {
            Response::UnexpectedResponse => str_vec("UNEXPECTED_RESPONSE"),
            Response::Remote(x) => x.to_line(),
            Response::Local(x) => x.to_line(),
        }
    }
}

/// A word, a space and a number split back into the word and the number's
/// text.
proof fn lemma_word_number(w: Seq<u8>, n: nat)
    requires
        w.len() > 0,
        !crate::text::is_ws(w[0]),
        forall|i: int| 0 <= i < w.len() ==> #[trigger] w[i] != 32,
    ensures
        trim(w + seq![32u8] + dec_text(n)) == w + seq![32u8] + dec_text(n),
        split_first(trim(w + seq![32u8] + dec_text(n)), 32) == Some((w, dec_text(n))),
{
    let d = dec_text(n);
    crate::text::lemma_dec_text(n);
    let t = w + seq![32u8] + d;
    assert(t[0] == w[0]);
    assert(t.last() == d.last());
    crate::text::lemma_trim_plain(t);
    crate::text::lemma_index_of_after(w, seq![32u8] + d, 32);
    assert(w + (seq![32u8] + d) =~= t);
    assert(index_of(seq![32u8] + d, 32) == Some(0int));
    assert(t.subrange(0, w.len() as int) =~= w);
    assert(t.subrange(w.len() as int + 1, t.len() as int) =~= d);
}

proof fn lemma_tag_bytes()
    ensures
        "PORT_CONFIRM".spec_bytes() == seq![
            80u8, 79u8, 82u8, 84u8, 95u8, 67u8, 79u8, 78u8, 70u8, 73u8, 82u8, 77u8,
        ],
        "FILES_RECEIVED".spec_bytes() == seq![
            70u8, 73u8, 76u8, 69u8, 83u8, 95u8, 82u8, 69u8, 67u8, 69u8, 73u8, 86u8, 69u8, 68u8,
        ],
        "UNEXPECTED_END_FLAG".spec_bytes() == seq![
            85u8, 78u8, 69u8, 88u8, 80u8, 69u8, 67u8, 84u8, 69u8, 68u8, 95u8, 69u8, 78u8, 68u8,
            95u8, 70u8, 76u8, 65u8, 71u8,
        ],
{
    reveal_strlit("PORT_CONFIRM");
    reveal_strlit("FILES_RECEIVED");
    reveal_strlit("UNEXPECTED_END_FLAG");
    assert(vstd::utf8::is_ascii_chars("PORT_CONFIRM"@));
    assert(vstd::utf8::is_ascii_chars("FILES_RECEIVED"@));
    assert(vstd::utf8::is_ascii_chars("UNEXPECTED_END_FLAG"@));
    vstd::utf8::is_ascii_chars_encode_utf8("PORT_CONFIRM"@);
    vstd::utf8::is_ascii_chars_encode_utf8("FILES_RECEIVED"@);
    vstd::utf8::is_ascii_chars_encode_utf8("UNEXPECTED_END_FLAG"@);
    assert("PORT_CONFIRM".spec_bytes() =~= seq![
        80u8, 79u8, 82u8, 84u8, 95u8, 67u8, 79u8, 78u8, 70u8, 73u8, 82u8, 77u8,
    ]);
    assert("FILES_RECEIVED".spec_bytes() =~= seq![
        70u8, 73u8, 76u8, 69u8, 83u8, 95u8, 82u8, 69u8, 67u8, 69u8, 73u8, 86u8, 69u8, 68u8,
    ]);
    assert("UNEXPECTED_END_FLAG".spec_bytes() =~= seq![
        85u8, 78u8, 69u8, 88u8, 80u8, 69u8, 67u8, 84u8, 69u8, 68u8, 95u8, 69u8, 78u8, 68u8,
        95u8, 70u8, 76u8, 65u8, 71u8,
    ]);
}

proof fn lemma_port_bytes()
    ensures
        "PORT".spec_bytes() == seq![80u8, 79u8, 82u8, 84u8],
{
    reveal_strlit("PORT");
    assert(vstd::utf8::is_ascii_chars("PORT"@));
    vstd::utf8::is_ascii_chars_encode_utf8("PORT"@);
    assert("PORT".spec_bytes() =~= seq![80u8, 79u8, 82u8, 84u8]);
}

/// The request an initiator sends reads, at the responder, as the port it
/// asked for.
pub proof fn lemma_port_request_round_trip(port: u16)
    ensures
        parse_remote_request(remote_request_text(RemoteRequest::PortCheck(port))) == Some(
            RemoteRequest::PortCheck(port),
        ),
        parse_remote_request(remote_request_text(RemoteRequest::PortCheck(port)) + crlf())
            == Some(RemoteRequest::PortCheck(port)),
{
    lemma_port_bytes();
    let t = remote_request_text(RemoteRequest::PortCheck(port));
    lemma_word_number("PORT".spec_bytes(), port as nat);
    crate::text::lemma_dec_text(port as nat);
    assert(t[0] == 80u8);
    assert(t.last() == dec_text(port as nat).last());
    crate::text::lemma_trim_line(t);
    crate::text::lemma_parse_dec_text(port as nat, u16::MAX as nat);
}

/// A reply between peers that carries a number reads back as itself.
pub proof fn lemma_remote_number_round_trip(r: RemoteResponse)
    requires
        r is PortConfirm || r is FilesReceived || r is UnexpectedEndFlag,
    ensures
        parse_remote(remote_text(r)) == Some(r),
{
    lemma_tag_bytes();
    let w = remote_tag(r).spec_bytes();
    match r {
        RemoteResponse::PortConfirm(p) => {
            lemma_word_number(w, p as nat);
            crate::text::lemma_parse_dec_text(p as nat, u16::MAX as nat);
        },
        RemoteResponse::FilesReceived(n) => {
            lemma_word_number(w, n as nat);
            crate::text::lemma_parse_dec_text(n as nat, u64::MAX as nat);
        },
        RemoteResponse::UnexpectedEndFlag(n) => {
            lemma_word_number(w, n as nat);
            crate::text::lemma_parse_dec_text(n as nat, u64::MAX as nat);
        },
        _ => {},
    }
}

} // verus!
