//! The local client's side of the control channel: the request lines it
//! sends to the daemon.
use vstd::prelude::*;
use vstd::string::StringSliceAdditionalSpecFns;
use crate::text::{append_bytes, crlf, push_str};

verus! {

/// The lines of the paths, each with its terminator.
pub open spec fn listed(paths: Seq<Seq<u8>>) -> Seq<u8>
    decreases paths.len(),
{
    if paths.len() == 0 {
        Seq::empty()
    } else {
        listed(paths.drop_last()) + paths.last() + crlf()
    }
}

/// A whole `SHARE` request.
pub open spec fn share_text(hostname: Seq<u8>, paths: Seq<Seq<u8>>) -> Seq<u8> {
    "SHARE".spec_bytes() + seq![32u8] + hostname + crlf() + listed(paths) + crlf()
}

/// A whole `REG` request.
pub open spec fn reg_text(hostname: Seq<u8>, address: Seq<u8>) -> Seq<u8> {
    "REG".spec_bytes() + seq![32u8] + hostname + seq![58u8] + address + crlf()
}

/// The request that shares `paths` with the host registered as `hostname`.
pub fn share_files(hostname: &[u8], paths: &Vec<Vec<u8>>) -> (r: Vec<u8>)
    ensures
        r@ == share_text(hostname@, paths@.map_values(|p: Vec<u8>| p@)),
{
    let ghost ps = paths@.map_values(|p: Vec<u8>| p@);
    let mut out: Vec<u8> = Vec::new();
    push_str(&mut out, "SHARE");
    out.push(32);
    append_bytes(&mut out, hostname);
    out.push(13);
    out.push(10);
    let ghost head = out@;
    let mut i: usize = 0;
    while i < paths.len()
        invariant
            i <= paths@.len(),
            ps == paths@.map_values(|p: Vec<u8>| p@),
            out@ == head + listed(ps.subrange(0, i as int)),
        decreases paths@.len() - i,
    {
        append_bytes(&mut out, paths[i].as_slice());
        out.push(13);
        out.push(10);
        proof {
            let pre = ps.subrange(0, i as int);
            let next = ps.subrange(0, i + 1);
            assert(next.drop_last() =~= pre);
            assert(out@ =~= head + listed(next));
        }
        i = i + 1;
    }
    out.push(13);
    out.push(10);
    assert(ps.subrange(0, i as int) =~= ps);
    assert(out@ =~= share_text(hostname@, ps));
    out
}

/// The request that registers `hostname` at the address written `address`.
pub fn reg_host(hostname: &[u8], address: &[u8]) -> (r: Vec<u8>)
    ensures
        r@ == reg_text(hostname@, address@),
{
    let mut out: Vec<u8> = Vec::new();
    push_str(&mut out, "REG");
    out.push(32);
    append_bytes(&mut out, hostname);
    out.push(58);
    append_bytes(&mut out, address);
    out.push(13);
    out.push(10);
    assert(out@ =~= reg_text(hostname@, address@));
    out
}

/// The files a user wants to share, gathered before the request is sent.
#[derive(Debug)]
pub struct Client {
    paths: Vec<Vec<u8>>,
    ignore_dir: bool,
}

impl Client {
    pub closed spec fn spec_paths(&self) -> Seq<Seq<u8>> {
        self.paths@.map_values(|p: Vec<u8>| p@)
    }

    pub closed spec fn spec_ignore_dir(&self) -> bool {
        self.ignore_dir
    }

    pub fn new() -> (r: Client)
        ensures
            r.spec_paths() == Seq::<Seq<u8>>::empty(),
            !r.spec_ignore_dir(),
    {
        let c = Client { paths: Vec::new(), ignore_dir: false };
        assert(c.spec_paths() =~= Seq::<Seq<u8>>::empty());
        c
    }

    /// Adds a path that the caller found to name a regular file.
    pub fn push_path(&mut self, path: Vec<u8>)
        ensures
            final(self).spec_paths() == old(self).spec_paths().push(path@),
            final(self).spec_ignore_dir() == old(self).spec_ignore_dir(),
    {
        self.paths.push(path);
        assert(self.spec_paths() =~= old(self).spec_paths().push(path@));
    }

    pub fn paths(&self) -> (r: &Vec<Vec<u8>>)
        ensures
            r@.map_values(|p: Vec<u8>| p@) == self.spec_paths(),
    {
        &self.paths
    }

    /// The request that shares the gathered paths with `hostname`.
    pub fn share_request(&self, hostname: &[u8]) -> (r: Vec<u8>)
        ensures
            r@ == share_text(hostname@, self.spec_paths()),
    {
        share_files(hostname, &self.paths)
    }
}

} // verus!
