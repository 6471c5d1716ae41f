//! The decision on what arrives from a client.

use vstd::prelude::*;
use crate::frame::Frame;
use crate::messages::Notice;
use crate::scheduler::{lane_from_qos, lane_of, Lane};
use crate::text::lowercase;

verus! {

/// What a client's socket delivered. A text that could not be decoded as a
/// frame arrives as `Text(None)`.
pub enum Arrival {
    Text(Option<Frame>),
    Binary,
    Closed,
    Other,
}

/// What to do with an arrival.
pub enum Routing {
    /// Put the frame into the queue of the lane.
    Enqueue(Lane, Frame),
    /// Answer with the notice and go on.
    Refuse(Notice),
    /// The session is over.
    Stop,
    /// Nothing to do.
    Skip,
}

/// Decides on an arrival: a frame is routed to the lane of its class of
/// service unless it has no hops left; a text that is no frame and a binary
/// message are refused.
pub fn receive(arrival: Arrival) -> (r: Routing)
    ensures
        match arrival {
            Arrival::Text(None) => r == Routing::Refuse(Notice::InvalidFrame),
            Arrival::Text(Some(f)) => if f.ttl == 0 {
                r == Routing::Refuse(Notice::TtlExpired)
            } else {
                r == Routing::Enqueue(lane_of(lowercase(f.qos@)), f)
            },
            Arrival::Binary => r == Routing::Refuse(Notice::BinaryNotSupported),
            Arrival::Closed => r == Routing::Stop,
            Arrival::Other => r == Routing::Skip,
        },
{
    match arrival {
        Arrival::Text(None) => Routing::Refuse(Notice::InvalidFrame),
        Arrival::Text(Some(f)) => {
            if f.ttl == 0 {
                Routing::Refuse(Notice::TtlExpired)
            } else {
                let lane = lane_from_qos(f.qos.as_str());
                Routing::Enqueue(lane, f)
            }
        },
        Arrival::Binary => Routing::Refuse(Notice::BinaryNotSupported),
        Arrival::Closed => Routing::Stop,
        Arrival::Other => Routing::Skip,
    }
}

} // verus!
