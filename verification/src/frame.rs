//! WebSocket messages as plain values.

use vstd::prelude::*;
use vstd::utf8::{valid_utf8, decode_utf8};

verus! {

/// The close frame of a WebSocket `Close` message.
pub struct CloseFrame {
    pub code: u16,
    pub reason: String,
}

/// A WebSocket message: the variants of `tungstenite::Message`, with the
/// payload of a raw frame for `Frame`.
pub enum WsFrame {
    Text(String),
    Binary(Vec<u8>),
    Ping(Vec<u8>),
    Pong(Vec<u8>),
    Close(Option<CloseFrame>),
    Frame(Vec<u8>),
}

pub struct CloseFrameView {
    pub code: u16,
    pub reason: Seq<char>,
}

pub enum WsFrameView {
    Text(Seq<char>),
    Binary(Seq<u8>),
    Ping(Seq<u8>),
    Pong(Seq<u8>),
    Close(Option<CloseFrameView>),
    Frame(Seq<u8>),
}

impl View for CloseFrame {
    type V = CloseFrameView;

    open spec fn view(&self) -> CloseFrameView {
        CloseFrameView { code: self.code, reason: self.reason@ }
    }
}

impl View for WsFrame {
    type V = WsFrameView;

    open spec fn view(&self) -> WsFrameView {
        match self {
            WsFrame::Text(s) => WsFrameView::Text(s@),
            WsFrame::Binary(d) => WsFrameView::Binary(d@),
            WsFrame::Ping(d) => WsFrameView::Ping(d@),
            WsFrame::Pong(d) => WsFrameView::Pong(d@),
            WsFrame::Close(Some(f)) => WsFrameView::Close(Some(f@)),
            WsFrame::Close(None) => WsFrameView::Close(None),
            WsFrame::Frame(d) => WsFrameView::Frame(d@),
        }
    }
}

/// The UTF-8 text of a byte payload, if it is valid UTF-8.
pub open spec fn utf8_text(bytes: Seq<u8>) -> Option<Seq<char>> {
    if valid_utf8(bytes) { Some(decode_utf8(bytes)) } else { None }
}

/// `Message::to_text`: the text of a message, decoding binary payloads as UTF-8;
/// the reason of a close frame; the empty text for a bare close.
pub open spec fn frame_text(f: WsFrameView) -> Option<Seq<char>> {
    match f {
        WsFrameView::Text(s) => Some(s),
        WsFrameView::Binary(d) => utf8_text(d),
        WsFrameView::Ping(d) => utf8_text(d),
        WsFrameView::Pong(d) => utf8_text(d),
        WsFrameView::Close(None) => Some(Seq::empty()),
        WsFrameView::Close(Some(c)) => Some(c.reason),
        WsFrameView::Frame(d) => utf8_text(d),
    }
}

/// `std::str::from_utf8`: decodes bytes that are valid UTF-8, fails otherwise.
#[verifier::external_body]
pub fn decode_utf8_bytes(bytes: &[u8]) -> (r: Option<String>)
    ensures
        r is Some <==> valid_utf8(bytes@),
        r matches Some(s) ==> s@ == decode_utf8(bytes@),
{
    std::str::from_utf8(bytes).ok().map(|s| s.to_string())
}

impl WsFrame {
    /// A text message.
    pub fn text(s: String) -> (r: WsFrame)
        ensures
            r@ == WsFrameView::Text(s@),
    {
        WsFrame::Text(s)
    }

    /// The text of the message, as `Message::to_text` gives it.
    pub fn to_text(&self) -> (r: Option<String>)
        ensures
            r matches Some(s) ==> frame_text(self@) == Some(s@),
            r is None ==> frame_text(self@) is None,
    {
        match self {
            WsFrame::Text(s) => Some(s.clone()),
            WsFrame::Binary(d) => decode_utf8_bytes(d.as_slice()),
            WsFrame::Ping(d) => decode_utf8_bytes(d.as_slice()),
            WsFrame::Pong(d) => decode_utf8_bytes(d.as_slice()),
            WsFrame::Close(None) => Some(String::new()),
            WsFrame::Close(Some(c)) => Some(c.reason.clone()),
            WsFrame::Frame(d) => decode_utf8_bytes(d.as_slice()),
        }
    }
}

} // verus!
