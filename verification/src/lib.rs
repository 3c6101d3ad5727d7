//! Control plane for a running input-remapping engine: a line-delimited JSON
//! wire protocol, a configuration validator, a discoverer of files that a
//! configuration pulls in, a debounced file-watch matcher, and the
//! per-connection session logic of the TCP control-plane server.
//!
//! The engine itself (the key-remapping state machine, its input and output
//! devices) is an external collaborator: the library speaks of it only
//! through the snapshot its dispatcher reads and the operations and flags it
//! hands back.

pub mod discover;
pub mod json;
pub mod paths;
pub mod protocol;
pub mod session;
pub mod sexpr;
pub mod validator;
pub mod watch;
