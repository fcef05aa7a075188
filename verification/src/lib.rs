//! Core of a real-time text-chat relay.
//!
//! The server side tracks connected clients and room membership, routes
//! chat messages globally or to one room, and acknowledges delivery to the
//! sender; the client side keeps an optimistic local message log that is
//! reconciled when the server's acknowledgment arrives.  All state
//! transitions and the fan-out they trigger are specified and verified;
//! the surrounding transport (sockets, terminal UI) stays outside.

pub mod protocol;
pub mod registry;
pub mod rooms;
pub mod delivery;
pub mod ids;
pub mod dispatch;
pub mod server;
pub mod reconciler;
pub mod codec;
pub mod cli;
