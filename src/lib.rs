//! Whole-file transfer over one stream connection: a client sends
//! `UPLOAD <name>` or `DOWNLOAD <name>` on a line of its own, then the file's
//! bytes flow one way until the sender closes the connection.
//!
//! The library holds the protocol without its I/O. `command` reads and
//! writes request lines; `session` decides, step by step, which read or
//! write a connection needs next; `laws` states what whole runs of sessions
//! do with the bytes. Each connection carries one request: a client opens a
//! new connection for each file.
use vstd::prelude::*;

pub mod command;
pub mod laws;
pub mod session;
pub mod text;

verus! {

} // verus!
