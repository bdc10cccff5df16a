//! A password-gated "terminal + file explorer" back end, verified with Verus.
//!
//! The library holds the decision logic of the service: the path-sandbox
//! resolver that every filesystem request consults, the session store, the
//! binary frame protocol of the terminal socket, the watch-subscription state
//! machine of the system socket, and the exact JSON texts of the wire
//! protocol. The surrounding I/O plane (HTTP router, WebSocket transport,
//! PTY handling, file reads) lives outside the library and consumes these
//! functions.

pub mod auth;
pub mod config;
pub mod errors;
pub mod fsapi;
pub mod hdf5model;
pub mod jsonfmt;
pub mod sandbox;
pub mod session;
pub mod terminal;
pub mod text;
pub mod watch;
