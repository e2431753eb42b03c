//! WebSocket frames, and what a connection makes of what it receives.

use crate::buffer;
use bytes::Bytes;
use vstd::prelude::*;

verus! {

/// A frame of a WebSocket connection.
pub enum WsFrame {
    /// A text frame.
    Text(String),
    /// A binary frame.
    Binary(Bytes),
    /// A ping, with its payload.
    Ping(Bytes),
    /// A pong, with its payload.
    Pong(Bytes),
    /// A close frame. Its reason is dropped.
    Close,
}

/// What can go wrong with a WebSocket source.
#[derive(Debug, PartialEq, Eq)]
pub enum WsError {
    /// The connection could not be made.
    Connect(String),
    /// The connection broke.
    Protocol(String),
}

/// A message as the transport reads it.
pub enum WsMessage {
    Text(String),
    Binary(Vec<u8>),
    Ping(Vec<u8>),
    Pong(Vec<u8>),
    Close,
    /// A raw frame, which reading never gives.
    Raw,
}

/// What happens on a connection.
pub enum WsEvent {
    /// It could not be made.
    Refused(String),
    /// A message came.
    Received(WsMessage),
    /// It broke.
    Broke(String),
    /// The peer is gone.
    Ended,
}

/// What a source does next: hand an element on, if any, and then go on reading
/// or stop, so that the connection is made anew.
pub struct WsStep {
    pub emit: Option<Result<WsFrame, WsError>>,
    pub stop: bool,
}

/// Whether `r` is the frame of a message; a raw frame has none.
pub open spec fn is_frame(m: WsMessage, r: Option<WsFrame>) -> bool {
    match m {
        WsMessage::Text(s) => r == Some(WsFrame::Text(s)),
        WsMessage::Binary(b) => r matches Some(WsFrame::Binary(x)) && buffer::contents(x) == b@,
        WsMessage::Ping(b) => r matches Some(WsFrame::Ping(x)) && buffer::contents(x) == b@,
        WsMessage::Pong(b) => r matches Some(WsFrame::Pong(x)) && buffer::contents(x) == b@,
        WsMessage::Close => r == Some(WsFrame::Close),
        WsMessage::Raw => r is None,
    }
}

/// The frame of a message.
pub fn map_message(m: WsMessage) -> (r: Option<WsFrame>)
    ensures
        is_frame(m, r),
{
    match m {
        WsMessage::Text(s) => Some(WsFrame::Text(s)),
        WsMessage::Binary(b) => Some(WsFrame::Binary(buffer::buffer_of(b))),
        WsMessage::Ping(b) => Some(WsFrame::Ping(buffer::buffer_of(b))),
        WsMessage::Pong(b) => Some(WsFrame::Pong(buffer::buffer_of(b))),
        WsMessage::Close => Some(WsFrame::Close),
        WsMessage::Raw => None,
    }
}

/// What a source does on an event of its connection. A failure is handed on and
/// ends the connection; a message goes on as its frame.
pub fn on_event(event: WsEvent) -> (r: WsStep)
    ensures
        match event {
            WsEvent::Refused(e) => r.stop && r.emit == Some(
                Err::<WsFrame, WsError>(WsError::Connect(e)),
            ),
            WsEvent::Broke(e) => r.stop && r.emit == Some(
                Err::<WsFrame, WsError>(WsError::Protocol(e)),
            ),
            WsEvent::Ended => r.stop && r.emit is None,
            WsEvent::Received(m) => !r.stop && match r.emit {
                None => is_frame(m, None),
                Some(Ok(f)) => is_frame(m, Some(f)),
                Some(Err(_)) => false,
            },
        },
{
    match event {
        WsEvent::Refused(e) => WsStep { emit: Some(Err(WsError::Connect(e))), stop: true },
        WsEvent::Broke(e) => WsStep { emit: Some(Err(WsError::Protocol(e))), stop: true },
        WsEvent::Ended => WsStep { emit: None, stop: true },
        WsEvent::Received(m) => match map_message(m) {
            Some(f) => WsStep { emit: Some(Ok(f)), stop: false },
            None => WsStep { emit: None, stop: false },
        },
    }
}

/// A message becomes a frame of its own kind with its own payload, and a raw
/// frame becomes none.
pub proof fn frames_keep_their_kind(m: WsMessage, f: WsFrame)
    requires
        is_frame(m, Some(f)),
    ensures
        m is Text <==> f is Text,
        m is Binary <==> f is Binary,
        m is Ping <==> f is Ping,
        m is Pong <==> f is Pong,
        m is Close <==> f is Close,
        !(m is Raw),
        m matches WsMessage::Text(s) ==> f == WsFrame::Text(s),
        m matches WsMessage::Binary(b) ==> (f matches WsFrame::Binary(x) ==> buffer::contents(x)
            == b@),
        m matches WsMessage::Ping(b) ==> (f matches WsFrame::Ping(x) ==> buffer::contents(x)
            == b@),
        m matches WsMessage::Pong(b) ==> (f matches WsFrame::Pong(x) ==> buffer::contents(x)
            == b@),
        is_frame(WsMessage::Raw, None),
        !is_frame(m, None),
{
}

} // verus!
