//! A chat-server coordination core in the IRC style.
//!
//! The library holds the verified core of the server: the shared
//! directory pair (registered users and channel membership), the
//! registration handshake state machine, and the command dispatcher
//! that turns a typed command plus sender identity into directory
//! mutations and an ordered list of typed deliveries. Transport,
//! parsing of raw lines and rendering of replies live outside the
//! library and exchange plain values with it.

pub mod directory;
pub mod dispatch;
pub mod handshake;
pub mod laws;
pub mod lemmas;
pub mod model;
pub mod reply;
