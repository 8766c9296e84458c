//! The session stage: the table of sessions and the engine that takes their frames.

use crate::addr::{LinkAddr, HW_ADDR_LEN, PACKET_UNICAST};
use crate::payload::{decode_frame, EthernetPayload, Frame};
use crate::rejection::Rejection;
use std::borrow::Cow;
use vstd::prelude::*;

pub mod list;

verus! {

/// Code of a frame that carries session data.
pub const SESSION_DATA: u8 = 0x00;

/// The session frame that the bytes `data` are taken as when they come with
/// `pkt_type`, or why they are dropped: only unicast frames are served, the
/// bytes must be a frame, and its code must be that of session data.
pub open spec fn accepted(pkt_type: u8, data: Seq<u8>) -> Result<Frame<Seq<u8>>, Rejection> {
    if pkt_type != PACKET_UNICAST {
        Err(Rejection::UnexpectedPacketType)
    } else {
        match decode_frame::<Cow<[u8]>>(data) {
            None => Err(Rejection::Malformed),
            Some(f) => if f.code != SESSION_DATA {
                Err(Rejection::UnexpectedCode(f.code))
            } else {
                Ok(f)
            },
        }
    }
}

/// Server for the PPPoE session stage.
pub struct SessionServer {}

impl SessionServer {
    /// A server for session frames.
    pub fn new() -> Self {
        Self {  }
    }

    /// Takes the frame `frame` that came from `from`: the session data it
    /// carries, or the reason to drop it.
    pub fn handle<'a>(&self, from: &LinkAddr, frame: &'a [u8]) -> (r: Result<
        EthernetPayload<Cow<'a, [u8]>>,
        Rejection,
    >)
        requires
            from.halen == HW_ADDR_LEN,
        ensures
            match r {
                Ok(data) => accepted(from.pkttype, frame@) == Ok::<Frame<Seq<u8>>, Rejection>(
                    data@.model(),
                ),
                Err(e) => accepted(from.pkttype, frame@) == Err::<Frame<Seq<u8>>, Rejection>(e),
            },
    {
        if from.pkttype != PACKET_UNICAST {
            return Err(Rejection::UnexpectedPacketType);
        }
        // Deserialize the payload.
        let data = match EthernetPayload::<Cow<'a, [u8]>>::deserialize(frame) {
            Some(v) => v,
            None => {
                return Err(Rejection::Malformed);
            },
        };
        if data.code() != SESSION_DATA {
            return Err(Rejection::UnexpectedCode(data.code()));
        }
        Ok(data)
    }
}

} // verus!
