//! Protocol engine of a peer-to-peer file-sharing daemon.
//!
//! A local client asks the daemon over a local channel to share files with
//! a registered peer or to register one (`local`). The daemon agrees on a
//! data port with the peer's daemon (`handshake`), streams the files in a
//! framed format (`streaming`), and keeps its hosts and settings in a
//! configuration record (`config`). Reading sockets, files and clocks is
//! left to the caller: every decision is made here, on plain values.
pub mod address;
pub mod client;
pub mod config;
pub mod error;
pub mod handshake;
pub mod local;
pub mod logging;
pub mod protocol;
pub mod streaming;
pub mod text;
