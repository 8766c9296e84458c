//! Why an engine drops a frame.

use vstd::prelude::*;

verus! {

/// The reason for which a frame is dropped without a reply. The engine goes
/// on serving after each of them.
#[derive(Clone, Copy, Debug, PartialEq, Eq, Structural)]
pub enum Rejection {
    /// The bytes are no PPPoE frame that the engine can read.
    Malformed,
    /// The frame came with a link-layer packet type that the engine does not serve.
    UnexpectedPacketType,
    /// The frame's code is not one that the engine serves for its packet type.
    UnexpectedCode(u8),
    /// A discovery frame names a session.
    UnexpectedSessionId,
    /// A discovery frame carries more than one Service-Name tag.
    MultipleServiceName,
    /// The Service-Name tag is not valid UTF-8.
    InvalidServiceName,
    /// A discovery frame carries no Service-Name tag.
    NoServiceName,
    /// All session ids are in use.
    NoSessionLeft,
}

} // verus!
