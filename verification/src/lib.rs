//! Server side of the PPPoE discovery and session handshake: the frame codec,
//! the discovery and session engines as pure decision functions, the session
//! table and the link-layer address builder.

pub mod addr;
pub mod discovery;
pub mod payload;
pub mod rejection;
pub mod session;
pub mod tags;
