//! A single-threaded, cooperative actor runtime.
//!
//! Lightweight processes communicate exclusively by sending type-tagged
//! message envelopes to each other by address. The dispatcher multiplexes
//! the processes over one thread; a reserved sleeper process bridges a
//! readiness-based kernel multiplexor into wake messages.

pub mod cid;
pub mod dispatch;
pub mod eventfd;
pub mod fs;
pub mod io;
pub mod message;
pub mod net;
pub mod poll;

pub use cid::Cid;
pub use dispatch::Coroutine;
pub use dispatch::Dispatcher;
pub use message::Envelope;
pub use message::Message;
