//! The proxy's decisions: numbering connections, what to do with each
//! request, and how to answer the interface's messages. The sockets and
//! channels around them belong to the program.
use vstd::prelude::*;

use crate::events::{TuiEventView, TuiEvents};
use crate::http::{connect_method, Request, RequestView};
use crate::text::{chars_of, eq_ignore_ascii_case, eq_ignore_case};

verus! {

/// What the proxy keeps between events.
pub struct ProxyState {
    /// Whether new connections are intercepted.
    pub intercept: bool,
    /// The number that the next connection gets.
    pub next_id: usize,
}

/// What the proxy does after a message from the interface.
pub enum ProxyAction {
    /// Nothing more.
    Nothing,
    /// Let the held connection `id` go on with `request`, if it still waits.
    Deliver { id: usize, request: Request },
    /// Send `request` on behalf of repeater tab `index` and report the answer.
    Repeat { index: usize, request: Request },
}

/// Mathematical form of a [`ProxyAction`].
pub enum ProxyActionView {
    Nothing,
    Deliver { id: usize, request: RequestView },
    Repeat { index: usize, request: RequestView },
}

impl View for ProxyAction {
    type V = ProxyActionView;

    open spec fn view(&self) -> ProxyActionView {
        match self {
            ProxyAction::Nothing => ProxyActionView::Nothing,
            ProxyAction::Deliver { id, request } => ProxyActionView::Deliver { id: *id, request: request@ },
            ProxyAction::Repeat { index, request } => ProxyActionView::Repeat {
                index: *index,
                request: request@,
            },
        }
    }
}

/// How a connection's request is handled.
#[derive(Clone, Copy, PartialEq, Eq, Structural)]
pub enum ConnectionPlan {
    /// `CONNECT`: open a tunnel to the named server.
    Tunnel,
    /// Hold the request until the interface forwards it.
    Intercept,
    /// Send the request on and pass the answer back.
    Forward,
}

/// The plan for a request: `CONNECT` (in any ASCII case) tunnels; other
/// requests are held when interception is on and sent on otherwise.
pub open spec fn plan_for(r: RequestView, intercept: bool) -> ConnectionPlan {
    if eq_ignore_ascii_case(r.method, connect_method()) {
        ConnectionPlan::Tunnel
    } else if intercept {
        ConnectionPlan::Intercept
    } else {
        ConnectionPlan::Forward
    }
}

/// The proxy's answer to a message from the interface: interception is
/// switched as asked, a forward goes to the held connection, and a repeater
/// request is sent.
pub open spec fn tui_event_step(intercept: bool, e: TuiEventView) -> (bool, ProxyActionView) {
    match e {
        TuiEventView::SetIntercept(v) => (v, ProxyActionView::Nothing),
        TuiEventView::Forward { id, request } => (intercept, ProxyActionView::Deliver { id, request }),
        TuiEventView::SendRepeater { index, request } => (
            intercept,
            ProxyActionView::Repeat { index, request },
        ),
    }
}

/// What reaches the proxy's loop: a new connection, or a message from the
/// interface.
pub enum ProxyInput {
    Accept,
    Message(TuiEventView),
}

/// The proxy's state after one input: a connection takes the next number;
/// a message may switch interception.
pub open spec fn proxy_step(s: ProxyState, input: ProxyInput) -> ProxyState {
    match input {
        ProxyInput::Accept => ProxyState { intercept: s.intercept, next_id: (s.next_id + 1) as usize },
        ProxyInput::Message(e) => ProxyState { intercept: tui_event_step(s.intercept, e).0, next_id: s.next_id },
    }
}

/// The proxy's state after a run of inputs.
pub open spec fn proxy_run(s: ProxyState, inputs: Seq<ProxyInput>) -> ProxyState
    decreases inputs.len(),
{
    if inputs.len() == 0 {
        s
    } else {
        proxy_step(proxy_run(s, inputs.drop_last()), inputs.last())
    }
}

/// How many connections a run of inputs holds.
pub open spec fn accepts(inputs: Seq<ProxyInput>) -> nat
    decreases inputs.len(),
{
    if inputs.len() == 0 {
        0
    } else {
        accepts(inputs.drop_last()) + if inputs.last() is Accept {
            1nat
        } else {
            0nat
        }
    }
}

/// The interception setting that the last `SetIntercept` message of a run
/// asked for, or `initial` when there was none.
pub open spec fn last_setting(initial: bool, inputs: Seq<ProxyInput>) -> bool
    decreases inputs.len(),
{
    if inputs.len() == 0 {
        initial
    } else {
        match inputs.last() {
            ProxyInput::Message(TuiEventView::SetIntercept(v)) => v,
            _ => last_setting(initial, inputs.drop_last()),
        }
    }
}

/// After a run, the next number has grown by the connections in it, and
/// interception is what the last `SetIntercept` asked for.
proof fn lemma_run_state(s: ProxyState, inputs: Seq<ProxyInput>)
    requires
        s.next_id + accepts(inputs) <= usize::MAX,
    ensures
        proxy_run(s, inputs).next_id == s.next_id + accepts(inputs),
        proxy_run(s, inputs).intercept == last_setting(s.intercept, inputs),
    decreases inputs.len(),
{
    if inputs.len() > 0 {
        lemma_run_state(s, inputs.drop_last());
    }
}

/// A prefix one input longer holds the connections of the shorter one, and
/// one more when that input is a connection.
proof fn lemma_accepts_prefix(inputs: Seq<ProxyInput>, k: int)
    requires
        0 <= k < inputs.len(),
    ensures
        accepts(inputs.take(k + 1)) == accepts(inputs.take(k)) + if inputs[k] is Accept {
            1nat
        } else {
            0nat
        },
{
    assert(inputs.take(k + 1).drop_last() =~= inputs.take(k));
}

/// Prefixes hold no more connections than the whole run, and a connection
/// between two prefixes counts.
proof fn lemma_accepts_grow(inputs: Seq<ProxyInput>, i: int, j: int)
    requires
        0 <= i <= j <= inputs.len(),
    ensures
        accepts(inputs.take(i)) <= accepts(inputs.take(j)),
        i < j && inputs[i] is Accept ==> accepts(inputs.take(i)) < accepts(inputs.take(j)),
    decreases j - i,
{
    if i < j {
        lemma_accepts_grow(inputs, i, j - 1);
        lemma_accepts_prefix(inputs, j - 1);
        if i == j - 1 {
        }
    }
}

/// Connections are numbered in the order they arrive: over any run of
/// inputs (without running out of numbers), the connection at position
/// `i` gets the starting number plus the connections before it, and the
/// interception setting that the last `SetIntercept` before it asked for
/// (or the starting one); so a later connection always gets a larger
/// number than an earlier one.
pub proof fn lemma_connections_numbered(s: ProxyState, inputs: Seq<ProxyInput>)
    requires
        s.next_id + accepts(inputs) <= usize::MAX,
    ensures
        forall|i: int|
            0 <= i < inputs.len() && inputs[i] is Accept ==> {
                let at = #[trigger] proxy_run(s, inputs.take(i));
                &&& at.next_id == s.next_id + accepts(inputs.take(i))
                &&& at.intercept == last_setting(s.intercept, inputs.take(i))
            },
        forall|i: int, j: int|
            0 <= i < j < inputs.len() && inputs[i] is Accept && inputs[j] is Accept ==> #[trigger] proxy_run(
                s,
                inputs.take(i),
            ).next_id < #[trigger] proxy_run(s, inputs.take(j)).next_id,
{
    assert(inputs.take(inputs.len() as int) =~= inputs);
    assert forall|i: int| 0 <= i <= inputs.len() implies #[trigger] proxy_run(s, inputs.take(i)).next_id
        == s.next_id + accepts(inputs.take(i)) && proxy_run(s, inputs.take(i)).intercept
        == last_setting(s.intercept, inputs.take(i)) by {
        lemma_accepts_grow(inputs, i, inputs.len() as int);
        lemma_run_state(s, inputs.take(i));
    }
    assert forall|i: int, j: int|
        0 <= i < j < inputs.len() && inputs[i] is Accept && inputs[j] is Accept implies #[trigger] proxy_run(
            s,
            inputs.take(i),
        ).next_id < #[trigger] proxy_run(s, inputs.take(j)).next_id by {
        lemma_accepts_grow(inputs, i, j);
        assert(proxy_run(s, inputs.take(i)).next_id == s.next_id + accepts(inputs.take(i)));
        assert(proxy_run(s, inputs.take(j)).next_id == s.next_id + accepts(inputs.take(j)));
    }
}

/// `CONNECT`, in any letter case, always opens a tunnel; any other request
/// is held exactly when interception is on, and sent on otherwise.
pub proof fn lemma_plan(r: RequestView, intercept: bool)
    ensures
        eq_ignore_ascii_case(r.method, connect_method()) ==> plan_for(r, intercept) == ConnectionPlan::Tunnel,
        !eq_ignore_ascii_case(r.method, connect_method()) ==> (plan_for(r, intercept)
            == ConnectionPlan::Intercept <==> intercept),
        !eq_ignore_ascii_case(r.method, connect_method()) ==> plan_for(r, intercept)
            != ConnectionPlan::Tunnel,
{
}

/// A message from the interface switches interception to the setting it
/// names, and otherwise leaves it; a forward goes to the connection and
/// with the request it names, and a repeater request is sent as it came.
pub proof fn lemma_tui_messages(intercept: bool, v: bool, id: usize, request: RequestView)
    ensures
        tui_event_step(intercept, TuiEventView::SetIntercept(v)) == (v, ProxyActionView::Nothing),
        tui_event_step(intercept, TuiEventView::Forward { id, request }) == (
            intercept,
            ProxyActionView::Deliver { id, request },
        ),
        tui_event_step(intercept, TuiEventView::SendRepeater { index: id, request }) == (
            intercept,
            ProxyActionView::Repeat { index: id, request },
        ),
{
}

/// The plan for a request.
pub fn connection_plan(request: &Request, intercept: bool) -> (r: ConnectionPlan)
    ensures
        r == plan_for(request@, intercept),
{
    let m = chars_of(request.method.as_str());
    let connect: Vec<char> = vec!['C', 'O', 'N', 'N', 'E', 'C', 'T'];
    assert(connect@ =~= connect_method());
    if eq_ignore_case(m.as_slice(), connect.as_slice()) {
        ConnectionPlan::Tunnel
    } else if intercept {
        ConnectionPlan::Intercept
    } else {
        ConnectionPlan::Forward
    }
}

impl ProxyState {
    /// The state at start: interception off, the first connection gets 0.
    pub fn new() -> (r: Self)
        ensures
            !r.intercept,
            r.next_id == 0,
    {
        ProxyState { intercept: false, next_id: 0 }
    }

    /// Numbers a new connection: it gets the next number and the current
    /// interception setting.
    pub fn accept(&mut self) -> (r: (usize, bool))
        requires
            old(self).next_id < usize::MAX,
        ensures
            r == (old(self).next_id, old(self).intercept),
            *final(self) == proxy_step(*old(self), ProxyInput::Accept),
    {
        let id = self.next_id;
        self.next_id = self.next_id + 1;
        (id, self.intercept)
    }

    /// Answers a message from the interface.
    pub fn handle_tui_event(&mut self, event: TuiEvents) -> (r: ProxyAction)
        ensures
            (final(self).intercept, r@) == tui_event_step(old(self).intercept, event@),
            *final(self) == proxy_step(*old(self), ProxyInput::Message(event@)),
    {
        match event {
            TuiEvents::SetIntercept(v) => {
                self.intercept = v;
                ProxyAction::Nothing
            },
            TuiEvents::Forward { id, request } => ProxyAction::Deliver { id, request },
            TuiEvents::SendRepeater { index, request } => ProxyAction::Repeat { index, request },
        }
    }
}

} // verus!
