//! Transport and session logic of a Jupyter kernel.
//!
//! A kernel talks to its clients over five ZMTP sockets. [`link`] follows one peer of a
//! socket from its greeting on, with [`zmtp`], [`command`], [`frame`] and [`multipart`] for
//! the wire format. [`rep`], [`router`] and [`publish`] say where messages go on each kind
//! of socket, with [`roster`] to tell connections apart, and [`server`] which sockets there
//! are. Scripts see the sockets through [`channels`] and drive user code through
//! [`bridge`], which [`repl`] serves. Nothing here reads or writes: callers hand in what
//! came and carry out what comes back.

pub mod bridge;
pub mod cdp;
pub mod channels;
pub mod command;
pub mod endian;
pub mod frame;
pub mod json;
pub mod kernel;
pub mod link;
pub mod multipart;
pub mod octets;
pub mod publish;
pub mod rep;
pub mod repl;
pub mod roster;
pub mod router;
pub mod server;
pub mod text;
pub mod texture;
pub mod zmtp;
