//! The messages between the interface and the proxy, and the keys that the
//! interface reacts to.
use vstd::prelude::*;

use crate::http::{Request, RequestView, Response};

verus! {

/// What the interface asks of the proxy.
pub enum TuiEvents {
    /// Let the intercepted request `id` go on, as `request`.
    Forward { id: usize, request: Request },
    /// Turn interception on or off.
    SetIntercept(bool),
    /// Send `request` for repeater tab `index`.
    SendRepeater { index: usize, request: Request },
}

/// What the proxy tells the interface.
pub enum ProxyEvents {
    /// A request was intercepted and waits to be forwarded.
    ReceivedRequest { id: usize, request: Request },
    /// Something failed; the interface shows the text.
    Error(String),
    /// The proxy stopped; the interface ends with the text.
    FatalError(String),
    /// The answer to a request sent from repeater tab `index`.
    RepeaterResponse { index: usize, response: Response },
}

/// Mathematical form of a [`TuiEvents`].
pub enum TuiEventView {
    Forward { id: usize, request: RequestView },
    SetIntercept(bool),
    SendRepeater { index: usize, request: RequestView },
}

impl View for TuiEvents {
    type V = TuiEventView;

    open spec fn view(&self) -> TuiEventView {
        match self {
            TuiEvents::Forward { id, request } => TuiEventView::Forward { id: *id, request: request@ },
            TuiEvents::SetIntercept(b) => TuiEventView::SetIntercept(*b),
            TuiEvents::SendRepeater { index, request } => TuiEventView::SendRepeater {
                index: *index,
                request: request@,
            },
        }
    }
}


impl Clone for TuiEvents {
    /// A copy of the message.
    fn clone(&self) -> (r: Self)
        ensures
            r@ == self@,
    {
        match self {
            TuiEvents::Forward { id, request } => TuiEvents::Forward { id: *id, request: request.clone() },
            TuiEvents::SetIntercept(b) => TuiEvents::SetIntercept(*b),
            TuiEvents::SendRepeater { index, request } => TuiEvents::SendRepeater {
                index: *index,
                request: request.clone(),
            },
        }
    }
}

/// Mathematical form of a [`ProxyEvents`].
pub enum ProxyEventView {
    ReceivedRequest { id: usize, request: RequestView },
    Error(Seq<char>),
    FatalError(Seq<char>),
    RepeaterResponse { index: usize, response: Seq<u8> },
}

impl View for ProxyEvents {
    type V = ProxyEventView;

    open spec fn view(&self) -> ProxyEventView {
        match self {
            ProxyEvents::ReceivedRequest { id, request } => ProxyEventView::ReceivedRequest {
                id: *id,
                request: request@,
            },
            ProxyEvents::Error(e) => ProxyEventView::Error(e@),
            ProxyEvents::FatalError(e) => ProxyEventView::FatalError(e@),
            ProxyEvents::RepeaterResponse { index, response } => ProxyEventView::RepeaterResponse {
                index: *index,
                response: response.raw@,
            },
        }
    }
}

/// A key press, as far as the interface tells keys apart.
#[derive(Clone, Copy, PartialEq, Eq, Structural)]
pub enum Key {
    Char(char),
    Enter,
    Tab,
    Up,
    Down,
    Left,
    Right,
    Backspace,
    Esc,
    Other,
}

} // verus!
