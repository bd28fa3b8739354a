//! Errors of the daemon's startup that reach the user as text.
use vstd::prelude::*;
use vstd::string::StringSliceAdditionalSpecFns;
use crate::text::{append_bytes, push_str};

verus! {

/// A failure to open the local control channel.
#[derive(Clone, Debug)]
pub enum IpcError {
    /// The channel's name is held by another process.
    AddrInUse(Vec<u8>),
}

impl IpcError {
    pub open spec fn spec_message(&self) -> Seq<u8> {
        match self {
            IpcError::AddrInUse(name) => "Could not start server because the socket file is occupied. Please check if ".spec_bytes()
                + name@ + " is in use by another process and try again.".spec_bytes(),
        }
    }

    /// The message shown to the user.
    pub fn message(&self) -> (r: Vec<u8>)
        ensures
            r@ == self.spec_message(),
    {
        let mut out: Vec<u8> = Vec::new();
        match self {
            IpcError::AddrInUse(name) => {
                push_str(
                    &mut out,
                    "Could not start server because the socket file is occupied. Please check if ",
                );
                append_bytes(&mut out, name.as_slice());
                push_str(&mut out, " is in use by another process and try again.");
            },
        }
        assert(out@ =~= self.spec_message());
        out
    }
}

} // verus!
