//! Frames: the discrete messages exchanged over a connection.

use vstd::prelude::*;

verus! {

/// Status code and reason carried by a close frame.
#[derive(Debug, PartialEq, Eq)]
pub struct CloseFrame {
    pub code: u16,
    pub reason: String,
}

/// One message unit: a text or binary payload, or a control signal.
#[derive(Debug, PartialEq, Eq)]
pub enum Frame {
    Text(String),
    Binary(Vec<u8>),
    Ping(Vec<u8>),
    Pong(Vec<u8>),
    Close(Option<CloseFrame>),
}

/// Mathematical content of a close frame.
pub struct CloseView {
    pub code: u16,
    pub reason: Seq<char>,
}

/// Mathematical content of a frame.
pub enum FrameView {
    Text(Seq<char>),
    Binary(Seq<u8>),
    Ping(Seq<u8>),
    Pong(Seq<u8>),
    Close(Option<CloseView>),
}

impl View for CloseFrame {
    type V = CloseView;

    open spec fn view(&self) -> CloseView {
        CloseView { code: self.code, reason: self.reason@ }
    }
}

impl View for Frame {
    type V = FrameView;

    open spec fn view(&self) -> FrameView {
        match self {
            Frame::Text(s) => FrameView::Text(s@),
            Frame::Binary(b) => FrameView::Binary(b@),
            Frame::Ping(b) => FrameView::Ping(b@),
            Frame::Pong(b) => FrameView::Pong(b@),
            Frame::Close(None) => FrameView::Close(None),
            Frame::Close(Some(c)) => FrameView::Close(Some(c@)),
        }
    }
}

impl Clone for CloseFrame {
    fn clone(&self) -> (copy: Self)
        ensures
            copy@ == self@,
    {
        CloseFrame { code: self.code, reason: self.reason.clone() }
    }
}

impl Clone for Frame {
    fn clone(&self) -> (copy: Self)
        ensures
            copy@ == self@,
    {
        match self {
            Frame::Text(s) => Frame::Text(s.clone()),
            Frame::Binary(b) => Frame::Binary(b.clone()),
            Frame::Ping(b) => Frame::Ping(b.clone()),
            Frame::Pong(b) => Frame::Pong(b.clone()),
            Frame::Close(None) => Frame::Close(None),
            Frame::Close(Some(c)) => Frame::Close(Some(c.clone())),
        }
    }
}

} // verus!
