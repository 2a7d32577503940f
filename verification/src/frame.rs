//! Frames of the socket protocol and the replies a connection owes its peer.

use vstd::prelude::*;

verus! {

/// One frame of the socket protocol.
#[derive(Debug, PartialEq, Eq)]
pub enum Frame {
    /// Application text; outbound it carries one serialized sample.
    Text(String),
    /// Application bytes.
    Binary(Vec<u8>),
    /// Liveness probe; its payload comes back in the pong.
    Ping(Vec<u8>),
    /// Answer to a ping.
    Pong(Vec<u8>),
    /// The peer, or this side, ends the connection.
    Close,
}

/// What a [`Frame`] is, with its payload as a sequence.
pub ghost enum FrameModel {
    Text(Seq<char>),
    Binary(Seq<u8>),
    Ping(Seq<u8>),
    Pong(Seq<u8>),
    Close,
}

impl View for Frame {
    type V = FrameModel;

    open spec fn view(&self) -> FrameModel {
        match self {
            Frame::Text(text) => FrameModel::Text(text@),
            Frame::Binary(bytes) => FrameModel::Binary(bytes@),
            Frame::Ping(bytes) => FrameModel::Ping(bytes@),
            Frame::Pong(bytes) => FrameModel::Pong(bytes@),
            Frame::Close => FrameModel::Close,
        }
    }
}

/// A reply frame that a connection has decided to send and not yet written.
#[derive(Debug, PartialEq, Eq)]
pub enum Control {
    /// Answer to a ping, with the ping's payload.
    Pong(Vec<u8>),
}

/// What a [`Control`] is.
pub ghost enum ControlModel {
    Pong(Seq<u8>),
}

impl ControlModel {
    /// The frame that carries this reply on the wire.
    pub open spec fn frame(self) -> FrameModel {
        match self {
            ControlModel::Pong(bytes) => FrameModel::Pong(bytes),
        }
    }
}

impl View for Control {
    type V = ControlModel;

    open spec fn view(&self) -> ControlModel {
        match self {
            Control::Pong(bytes) => ControlModel::Pong(bytes@),
        }
    }
}

impl Control {
    /// Turns the reply into the frame to write.
    pub fn into_frame(self) -> (frame: Frame)
        ensures
            frame@ == self@.frame(),
    {
        match self {
            Control::Pong(bytes) => Frame::Pong(bytes),
        }
    }
}

/// The views of a queue of replies, oldest first.
pub open spec fn control_views(queue: Seq<Control>) -> Seq<ControlModel> {
    queue.map_values(|reply: Control| reply@)
}

/// The views of a queue of texts, oldest first.
pub open spec fn text_views(queue: Seq<String>) -> Seq<Seq<char>> {
    queue.map_values(|text: String| text@)
}

} // verus!
