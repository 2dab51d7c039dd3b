//! Repeater tabs: requests kept aside to be edited and sent again.
use vstd::prelude::*;

use crate::http::{edited_request, Request, RequestView, Response};

verus! {

/// Which side of a repeater tab takes the scroll keys.
#[derive(Clone, Copy, PartialEq, Eq, Structural)]
pub enum RepeaterFocus {
    Request,
    Response,
}

/// One repeater tab.
pub struct Repeater {
    pub name: String,
    pub request: Request,
    pub response: Option<Response>,
    pub request_scroll: u16,
    pub response_scroll: u16,
    /// A request of this tab is on its way and no answer has come yet.
    pub thinking: bool,
}

/// Mathematical form of a [`Repeater`].
pub struct RepeaterView {
    pub name: Seq<char>,
    pub request: RequestView,
    pub response: Option<Seq<u8>>,
    pub request_scroll: u16,
    pub response_scroll: u16,
    pub thinking: bool,
}

impl View for Repeater {
    type V = RepeaterView;

    open spec fn view(&self) -> RepeaterView {
        RepeaterView {
            name: self.name@,
            request: self.request@,
            response: match self.response {
                Some(r) => Some(r.raw@),
                None => None,
            },
            request_scroll: self.request_scroll,
            response_scroll: self.response_scroll,
            thinking: self.thinking,
        }
    }
}

impl Repeater {
    /// A tab named `name` holding `request`, with no answer yet and both
    /// sides scrolled to the top.
    pub fn new(request: Request, name: String) -> (r: Self)
        ensures
            r@ == (RepeaterView {
                name: name@,
                request: request@,
                response: None,
                request_scroll: 0,
                response_scroll: 0,
                thinking: false,
            }),
    {
        Repeater { name, request, response: None, request_scroll: 0, response_scroll: 0, thinking: false }
    }

    /// Replaces the tab's request by the one that the edited text
    /// describes, for the same server.
    pub fn edit(&mut self, edited: &str)
        ensures
            final(self)@ == (RepeaterView {
                request: edited_request(edited@, old(self).request.host@, old(self).request.port),
                ..old(self)@
            }),
    {
        let host = self.request.host.clone();
        self.request = Request::from_edited(edited, host, self.request.port);
    }
}

} // verus!
