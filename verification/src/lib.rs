//! An IMS registration daemon: what it reads out of the tools it runs, what it
//! sends to the network, and the state it shows on its status page.
//!
//! `registration` is the heart: it turns each event into the next action. The
//! other modules hold what it needs, from plain text (`text`, `number`,
//! `codec`) over the tools (`command`, `discovery`, `sa`) to the messages
//! (`sip`, `aka`, `esp`). `transport` and `http` serve the connections.

pub mod text;
pub mod number;
pub mod codec;
pub mod error;
pub mod command;
pub mod discovery;
pub mod sa;
pub mod esp;
pub mod sip;
pub mod aka;
pub mod state;
pub mod registration;
pub mod laws;
pub mod transport;
pub mod http;
