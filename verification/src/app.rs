//! The interface's state and how it answers keys and proxy events.
use vstd::prelude::*;
use vstd::utf8::encode_utf8;

use crate::events::{Key, ProxyEventView, ProxyEvents, TuiEventView, TuiEvents};
use crate::http::{edited_request, Request, RequestView};
use crate::popups::{popup_step, Popup, PopupAction, PopupActionView, PopupColor, PopupView, InputPopup, TextPopup};
use crate::repeater::{Repeater, RepeaterFocus, RepeaterView};
use crate::text::{chars_of, dec, decimal, string_from_chars, trim, trim_chars};

verus! {

/// The screen on show.
#[derive(Clone, Copy, PartialEq, Eq, Structural)]
pub enum Screen {
    Proxy,
    Repeater,
}

/// A request held by the proxy until the user forwards it.
pub struct InterceptedRequest {
    pub id: usize,
    pub request: Request,
}

/// The interface's state.
pub struct App {
    pub screen: Screen,
    pub proxy_scroll: u16,
    pub request_queue: Vec<InterceptedRequest>,
    pub intercept: bool,
    pub repeaters: Vec<Repeater>,
    pub selected_repeater: usize,
    pub repeater_focus: RepeaterFocus,
    /// Width of the repeater's request panel, in percent.
    pub request_size: u16,
    /// The repeater tab that a rename pop-up is for.
    pub renaming_repeater: Option<usize>,
    pub popups: Vec<Popup>,
}

/// Mathematical form of an [`App`].
pub struct AppView {
    pub screen: Screen,
    pub proxy_scroll: u16,
    pub request_queue: Seq<(usize, RequestView)>,
    pub intercept: bool,
    pub repeaters: Seq<RepeaterView>,
    pub selected_repeater: usize,
    pub repeater_focus: RepeaterFocus,
    pub request_size: u16,
    pub renaming_repeater: Option<usize>,
    pub popups: Seq<PopupView>,
}

impl View for App {
    type V = AppView;

    open spec fn view(&self) -> AppView {
        AppView {
            screen: self.screen,
            proxy_scroll: self.proxy_scroll,
            request_queue: self.request_queue@.map_values(
                |q: InterceptedRequest| (q.id, q.request@),
            ),
            intercept: self.intercept,
            repeaters: self.repeaters@.map_values(|r: Repeater| r@),
            selected_repeater: self.selected_repeater,
            repeater_focus: self.repeater_focus,
            request_size: self.request_size,
            renaming_repeater: self.renaming_repeater,
            popups: self.popups@.map_values(|p: Popup| p@),
        }
    }
}

/// What the interface must do after a key, besides the state change.
pub enum InputAction {
    /// Nothing more.
    Nothing,
    /// End the interface.
    Quit,
    /// Send this to the proxy; once it went out, hand it to
    /// [`App::after_send`].
    Send(TuiEvents),
    /// Open the first intercepted request in the editor, then hand the
    /// outcome to [`App::finish_intercepted_edit`]; set the terminal up again.
    EditIntercepted,
    /// Open the selected repeater tab's request in the editor, then hand the
    /// outcome to [`App::finish_repeater_edit`]; set the terminal up again.
    EditRepeater,
    /// Set the terminal up again.
    ResetTerminal,
}

/// Mathematical form of an [`InputAction`].
pub enum InputActionView {
    Nothing,
    Quit,
    Send(TuiEventView),
    EditIntercepted,
    EditRepeater,
    ResetTerminal,
}

impl View for InputAction {
    type V = InputActionView;

    open spec fn view(&self) -> InputActionView {
        match self {
            InputAction::Nothing => InputActionView::Nothing,
            InputAction::Quit => InputActionView::Quit,
            InputAction::Send(e) => InputActionView::Send(e@),
            InputAction::EditIntercepted => InputActionView::EditIntercepted,
            InputAction::EditRepeater => InputActionView::EditRepeater,
            InputAction::ResetTerminal => InputActionView::ResetTerminal,
        }
    }
}

// ---------------------------------------------------------------------------
// Specification
// ---------------------------------------------------------------------------

/// The state's invariant: the request panel's width stays between 20 and
/// 80 percent, and the selected tab exists whenever there is a tab.
pub open spec fn app_wf(a: AppView) -> bool {
    &&& 20 <= a.request_size <= 80
    &&& (a.selected_repeater < a.repeaters.len() || a.selected_repeater == 0)
}

/// Scrolling down by two lines, stopping at the largest offset.
pub open spec fn scrolled_down(s: u16) -> u16 {
    if s > u16::MAX - 2 {
        u16::MAX
    } else {
        (s + 2) as u16
    }
}

/// Scrolling up by two lines, stopping at the top.
pub open spec fn scrolled_up(s: u16) -> u16 {
    if s < 2 {
        0
    } else {
        (s - 2) as u16
    }
}

/// `" Error "`.
pub open spec fn error_title() -> Seq<char> {
    seq![' ', 'E', 'r', 'r', 'o', 'r', ' ']
}

/// `" Rename "`.
pub open spec fn rename_title() -> Seq<char> {
    seq![' ', 'R', 'e', 'n', 'a', 'm', 'e', ' ']
}

/// The pop-up that shows an error.
pub open spec fn error_popup_view(message: Seq<char>) -> PopupView {
    PopupView::Text { message, title: error_title(), color: PopupColor::Red }
}

/// A fresh repeater tab.
pub open spec fn new_repeater_view(request: RequestView, name: Seq<char>) -> RepeaterView {
    RepeaterView {
        name,
        request,
        response: None,
        request_scroll: 0,
        response_scroll: 0,
        thinking: false,
    }
}

/// `v` brought into `lo..=hi`.
pub open spec fn clamp(v: int, lo: int, hi: int) -> int {
    if v < lo {
        lo
    } else if v > hi {
        hi
    } else {
        v
    }
}

/// The state after a key on the proxy screen, and what else to do.
pub open spec fn proxy_key(a: AppView, key: Key) -> (AppView, InputActionView) {
    let q = a.request_queue;
    match key {
        Key::Char('i') => (
            AppView { intercept: !a.intercept, ..a },
            InputActionView::Send(TuiEventView::SetIntercept(!a.intercept)),
        ),
        Key::Enter => if q.len() > 0 {
            (a, InputActionView::Send(TuiEventView::Forward { id: q[0].0, request: q[0].1 }))
        } else {
            (a, InputActionView::Nothing)
        },
        Key::Char('e') => if q.len() > 0 {
            (a, InputActionView::EditIntercepted)
        } else {
            (a, InputActionView::ResetTerminal)
        },
        Key::Char('r') => if q.len() > 0 {
            let reps = a.repeaters.push(new_repeater_view(q[0].1, dec(a.repeaters.len() + 1)));
            (
                AppView {
                    repeaters: reps,
                    selected_repeater: (reps.len() - 1) as usize,
                    screen: Screen::Repeater,
                    ..a
                },
                InputActionView::Nothing,
            )
        } else {
            (a, InputActionView::Nothing)
        },
        Key::Tab => (AppView { screen: Screen::Repeater, ..a }, InputActionView::Nothing),
        Key::Down | Key::Char('j') => (
            AppView { proxy_scroll: scrolled_down(a.proxy_scroll), ..a },
            InputActionView::Nothing,
        ),
        Key::Up | Key::Char('k') => (
            AppView { proxy_scroll: scrolled_up(a.proxy_scroll), ..a },
            InputActionView::Nothing,
        ),
        _ => (a, InputActionView::Nothing),
    }
}

/// The tabs with the selected tab's scroll offset on the focused side
/// moved by `down` (or up).
pub open spec fn scroll_selected(a: AppView, down: bool) -> Seq<RepeaterView> {
    let i = a.selected_repeater as int;
    let r = a.repeaters[i];
    let moved = |s: u16|
        if down {
            scrolled_down(s)
        } else {
            scrolled_up(s)
        };
    if a.repeater_focus == RepeaterFocus::Request {
        a.repeaters.update(i, RepeaterView { request_scroll: moved(r.request_scroll), ..r })
    } else {
        a.repeaters.update(i, RepeaterView { response_scroll: moved(r.response_scroll), ..r })
    }
}

/// The state after a key on the repeater screen, and what else to do.
pub open spec fn repeater_key(a: AppView, key: Key) -> (AppView, InputActionView) {
    let sel = a.selected_repeater;
    let n = a.repeaters.len();
    let exists = sel < n;
    match key {
        Key::Enter => if exists {
            (
                a,
                InputActionView::Send(
                    TuiEventView::SendRepeater { index: sel, request: a.repeaters[sel as int].request },
                ),
            )
        } else {
            (a, InputActionView::Nothing)
        },
        Key::Char('e') => if exists {
            (a, InputActionView::EditRepeater)
        } else {
            (a, InputActionView::Nothing)
        },
        Key::Char('x') => if exists {
            (
                AppView {
                    repeaters: a.repeaters.remove(sel as int),
                    selected_repeater: if sel > 0 {
                        (sel - 1) as usize
                    } else {
                        0
                    },
                    ..a
                },
                InputActionView::Nothing,
            )
        } else {
            (a, InputActionView::Nothing)
        },
        Key::Char('n') => if n > 0 {
            (
                AppView { selected_repeater: ((sel + 1) % (n as int)) as usize, ..a },
                InputActionView::Nothing,
            )
        } else {
            (a, InputActionView::Nothing)
        },
        Key::Char('p') => if n > 0 {
            (
                AppView { selected_repeater: ((sel + n - 1) % (n as int)) as usize, ..a },
                InputActionView::Nothing,
            )
        } else {
            (a, InputActionView::Nothing)
        },
        Key::Char('r') => if exists {
            (
                AppView {
                    renaming_repeater: Some(sel),
                    popups: a.popups.push(
                        PopupView::Input {
                            input: Seq::empty(),
                            title: rename_title(),
                            color: PopupColor::Reset,
                        },
                    ),
                    ..a
                },
                InputActionView::Nothing,
            )
        } else {
            (a, InputActionView::Nothing)
        },
        Key::Down | Key::Char('j') => if exists {
            (AppView { repeaters: scroll_selected(a, true), ..a }, InputActionView::Nothing)
        } else {
            (a, InputActionView::Nothing)
        },
        Key::Up | Key::Char('k') => if exists {
            (AppView { repeaters: scroll_selected(a, false), ..a }, InputActionView::Nothing)
        } else {
            (a, InputActionView::Nothing)
        },
        Key::Left | Key::Right | Key::Char('h') | Key::Char('l') => (
            AppView {
                repeater_focus: if a.repeater_focus == RepeaterFocus::Request {
                    RepeaterFocus::Response
                } else {
                    RepeaterFocus::Request
                },
                ..a
            },
            InputActionView::Nothing,
        ),
        Key::Char('H') => (
            AppView { request_size: clamp(a.request_size - 10, 20, 80) as u16, ..a },
            InputActionView::Nothing,
        ),
        Key::Char('L') => (
            AppView { request_size: clamp(a.request_size + 10, 20, 80) as u16, ..a },
            InputActionView::Nothing,
        ),
        Key::Tab => (AppView { screen: Screen::Proxy, ..a }, InputActionView::Nothing),
        _ => (a, InputActionView::Nothing),
    }
}

/// The state after a key while a pop-up is open: the key goes to the top
/// pop-up; closing removes it, and confirming a rename renames the tab
/// being renamed (when the trimmed name is not empty and the tab exists),
/// ends the renaming and removes the pop-up.
pub open spec fn popup_key(a: AppView, key: Key) -> AppView {
    let last = a.popups.len() - 1;
    let (p, act) = popup_step(a.popups[last], key);
    match act {
        PopupActionView::Close => AppView { popups: a.popups.drop_last(), ..a },
        PopupActionView::Input(name) => {
            let t = trim(name);
            let reps = match a.renaming_repeater {
                Some(i) => if t.len() > 0 && i < a.repeaters.len() {
                    a.repeaters.update(i as int, RepeaterView { name: t, ..a.repeaters[i as int] })
                } else {
                    a.repeaters
                },
                None => a.repeaters,
            };
            AppView {
                repeaters: reps,
                renaming_repeater: None,
                popups: a.popups.drop_last(),
                ..a
            }
        },
        PopupActionView::Nothing => AppView { popups: a.popups.update(last, p), ..a },
    }
}

/// The state after a key, and what else to do: an open pop-up takes the
/// key; otherwise the screen on show does, and `q` quits.
pub open spec fn app_key(a: AppView, key: Key) -> (AppView, InputActionView) {
    if a.popups.len() > 0 {
        (popup_key(a, key), InputActionView::Nothing)
    } else {
        let (b, act) = if a.screen == Screen::Proxy {
            proxy_key(a, key)
        } else {
            repeater_key(a, key)
        };
        (
            b,
            if key == Key::Char('q') {
                InputActionView::Quit
            } else {
                act
            },
        )
    }
}

/// The state once a message to the proxy went out: a forwarded request
/// leaves the front of the queue, and a repeater tab whose request was sent
/// waits for the answer. Until then the state is as the key left it.
pub open spec fn after_send(a: AppView, e: TuiEventView) -> AppView {
    match e {
        TuiEventView::Forward { .. } => if a.request_queue.len() > 0 {
            AppView { request_queue: a.request_queue.drop_first(), ..a }
        } else {
            a
        },
        TuiEventView::SendRepeater { index, .. } => if index < a.repeaters.len() {
            AppView {
                repeaters: a.repeaters.update(
                    index as int,
                    RepeaterView { thinking: true, ..a.repeaters[index as int] },
                ),
                ..a
            }
        } else {
            a
        },
        TuiEventView::SetIntercept(_) => a,
    }
}

/// The state after an event from the proxy, and the text to end with when
/// the proxy stopped: an intercepted request joins the end of the queue,
/// an error shows in a pop-up, and an answer goes to its repeater tab
/// (when the tab still exists), which stops waiting.
pub open spec fn proxy_event(a: AppView, e: ProxyEventView) -> (AppView, Option<Seq<char>>) {
    match e {
        ProxyEventView::ReceivedRequest { id, request } => (
            AppView { request_queue: a.request_queue.push((id, request)), ..a },
            None,
        ),
        ProxyEventView::Error(m) => (AppView { popups: a.popups.push(error_popup_view(m)), ..a }, None),
        ProxyEventView::FatalError(m) => (a, Some(m)),
        ProxyEventView::RepeaterResponse { index, response } => if index < a.repeaters.len() {
            let r = a.repeaters[index as int];
            (
                AppView {
                    repeaters: a.repeaters.update(
                        index as int,
                        RepeaterView { response: Some(response), thinking: false, ..r },
                    ),
                    ..a
                },
                None,
            )
        } else {
            (a, None)
        },
    }
}

/// The state after the editor returned for the first intercepted request:
/// edited text replaces the request (for the same server); an error shows
/// in a pop-up.
pub open spec fn intercepted_edit(a: AppView, edited: Result<Seq<char>, Seq<char>>) -> AppView {
    match edited {
        Ok(text) => if a.request_queue.len() > 0 {
            let (id, r) = a.request_queue[0];
            AppView {
                request_queue: a.request_queue.update(0, (id, edited_request(text, r.host, r.port))),
                ..a
            }
        } else {
            a
        },
        Err(m) => AppView { popups: a.popups.push(error_popup_view(m)), ..a },
    }
}

/// The state after the editor returned for the selected repeater tab:
/// edited text replaces the tab's request (for the same server); an error
/// shows in a pop-up.
pub open spec fn repeater_edit(a: AppView, edited: Result<Seq<char>, Seq<char>>) -> AppView {
    match edited {
        Ok(text) => if a.selected_repeater < a.repeaters.len() {
            let i = a.selected_repeater as int;
            let r = a.repeaters[i];
            AppView {
                repeaters: a.repeaters.update(
                    i,
                    RepeaterView {
                        request: edited_request(text, r.request.host, r.request.port),
                        ..r
                    },
                ),
                ..a
            }
        } else {
            a
        },
        Err(m) => AppView { popups: a.popups.push(error_popup_view(m)), ..a },
    }
}

/// The editor's outcome as text.
pub open spec fn edit_result_view(r: Result<String, String>) -> Result<Seq<char>, Seq<char>> {
    match r {
        Ok(t) => Ok(t@),
        Err(e) => Err(e@),
    }
}

// ---------------------------------------------------------------------------
// Implementation
// ---------------------------------------------------------------------------

/// Scrolls down by two lines, stopping at the largest offset.
pub fn scroll_down(scroll: &mut u16)
    ensures
        *final(scroll) == scrolled_down(*old(scroll)),
{
    *scroll = scroll.saturating_add(2);
}

/// Scrolls up by two lines, stopping at the top.
pub fn scroll_up(scroll: &mut u16)
    ensures
        *final(scroll) == scrolled_up(*old(scroll)),
{
    *scroll = scroll.saturating_sub(2);
}

fn error_title_chars() -> (v: Vec<char>)
    ensures
        v@ == error_title(),
{
    vec![' ', 'E', 'r', 'r', 'o', 'r', ' ']
}

fn rename_title_chars() -> (v: Vec<char>)
    ensures
        v@ == rename_title(),
{
    vec![' ', 'R', 'e', 'n', 'a', 'm', 'e', ' ']
}

/// Shows `error` in a pop-up on top of the others.
pub fn error_popup(app: &mut App, error: String)
    ensures
        final(app)@ == (AppView {
            popups: old(app)@.popups.push(error_popup_view(error@)),
            ..old(app)@
        }),
{
    let title = string_from_chars(error_title_chars().as_slice());
    let ghost before = app.popups@;
    let p = Popup::Text(TextPopup { message: error, title, color: PopupColor::Red });
    app.popups.push(p);
    assert(app.popups@.map_values(|p: Popup| p@) =~= before.map_values(|p: Popup| p@).push(
        error_popup_view(error@),
    ));
}

impl App {
    /// The state at start: the proxy screen, interception off, no
    /// intercepted request, no repeater tab, no pop-up, the request panel
    /// at half the width.
    pub fn new() -> (r: App)
        ensures
            r@ == (AppView {
                screen: Screen::Proxy,
                proxy_scroll: 0,
                request_queue: Seq::empty(),
                intercept: false,
                repeaters: Seq::empty(),
                selected_repeater: 0,
                repeater_focus: RepeaterFocus::Request,
                request_size: 50,
                renaming_repeater: None,
                popups: Seq::empty(),
            }),
            app_wf(r@),
    {
        let r = App {
            screen: Screen::Proxy,
            proxy_scroll: 0,
            request_queue: Vec::new(),
            intercept: false,
            repeaters: Vec::new(),
            selected_repeater: 0,
            repeater_focus: RepeaterFocus::Request,
            request_size: 50,
            renaming_repeater: None,
            popups: Vec::new(),
        };
        assert(r@.request_queue =~= Seq::empty());
        assert(r@.repeaters =~= Seq::empty());
        assert(r@.popups =~= Seq::empty());
        r
    }

    /// Takes repeater tab `i` out for a change; [`App::put_repeater`]
    /// puts it back.
    fn take_repeater(&mut self, i: usize) -> (r: Repeater)
        requires
            i < old(self).repeaters@.len(),
        ensures
            r == old(self).repeaters@[i as int],
            final(self).repeaters@ == old(self).repeaters@.remove(i as int),
            final(self).screen == old(self).screen,
            final(self).proxy_scroll == old(self).proxy_scroll,
            final(self).request_queue == old(self).request_queue,
            final(self).intercept == old(self).intercept,
            final(self).selected_repeater == old(self).selected_repeater,
            final(self).repeater_focus == old(self).repeater_focus,
            final(self).request_size == old(self).request_size,
            final(self).renaming_repeater == old(self).renaming_repeater,
            final(self).popups == old(self).popups,
    {
        self.repeaters.remove(i)
    }

    /// Puts a repeater tab back at `i` after [`App::take_repeater`].
    fn put_repeater(&mut self, i: usize, r: Repeater, Ghost(before): Ghost<Seq<Repeater>>)
        requires
            i < before.len(),
            old(self).repeaters@ == before.remove(i as int),
        ensures
            final(self)@ == (AppView {
                repeaters: before.map_values(|r: Repeater| r@).update(i as int, r@),
                ..old(self)@
            }),
    {
        self.repeaters.insert(i, r);
        assert(self.repeaters@ =~= before.update(i as int, r));
        assert(self.repeaters@.map_values(|r: Repeater| r@) =~= before.map_values(
            |r: Repeater| r@,
        ).update(i as int, r@));
    }

    /// Answers a key on the proxy screen.
    pub fn handle_proxy_key(&mut self, key: Key) -> (r: InputAction)
        requires
            app_wf(old(self)@),
        ensures
            (final(self)@, r@) == proxy_key(old(self)@, key),
    {
        let ghost a = self@;
        match key {
            Key::Char('i') => {
                self.intercept = !self.intercept;
                InputAction::Send(TuiEvents::SetIntercept(self.intercept))
            },
            Key::Enter => {
                if self.request_queue.len() > 0 {
                    let id = self.request_queue[0].id;
                    let request = self.request_queue[0].request.clone();
                    InputAction::Send(TuiEvents::Forward { id, request })
                } else {
                    InputAction::Nothing
                }
            },
            Key::Char('e') => {
                if self.request_queue.len() > 0 {
                    InputAction::EditIntercepted
                } else {
                    InputAction::ResetTerminal
                }
            },
            Key::Char('r') => {
                if self.request_queue.len() > 0 {
                    let request = self.request_queue[0].request.clone();
                    let name = string_from_chars(
                        decimal(self.repeaters.len() as u128 + 1).as_slice(),
                    );
                    let ghost before = self.repeaters@;
                    let rep = Repeater::new(request, name);
                    self.repeaters.push(rep);
                    assert(self.repeaters@.map_values(|r: Repeater| r@) =~= before.map_values(
                        |r: Repeater| r@,
                    ).push(new_repeater_view(a.request_queue[0].1, dec(before.len() + 1))));
                    self.selected_repeater = self.repeaters.len() - 1;
                    self.screen = Screen::Repeater;
                }
                InputAction::Nothing
            },
            Key::Tab => {
                self.screen = Screen::Repeater;
                InputAction::Nothing
            },
            Key::Down | Key::Char('j') => {
                scroll_down(&mut self.proxy_scroll);
                InputAction::Nothing
            },
            Key::Up | Key::Char('k') => {
                scroll_up(&mut self.proxy_scroll);
                InputAction::Nothing
            },
            _ => InputAction::Nothing,
        }
    }
}

impl App {
    /// Answers a key on the repeater screen.
    pub fn handle_repeater_key(&mut self, key: Key) -> (r: InputAction)
        requires
            app_wf(old(self)@),
        ensures
            (final(self)@, r@) == repeater_key(old(self)@, key),
    {
        let ghost a = self@;
        let sel = self.selected_repeater;
        let n = self.repeaters.len();
        match key {
            Key::Enter => {
                if sel < n {
                    let request = self.repeaters[sel].request.clone();
                    InputAction::Send(TuiEvents::SendRepeater { index: sel, request })
                } else {
                    InputAction::Nothing
                }
            },
            Key::Char('e') => {
                if sel < n {
                    InputAction::EditRepeater
                } else {
                    InputAction::Nothing
                }
            },
            Key::Char('x') => {
                if sel < n {
                    let ghost before = self.repeaters@;
                    let _ = self.repeaters.remove(sel);
                    assert(self.repeaters@.map_values(|r: Repeater| r@) =~= a.repeaters.remove(
                        sel as int,
                    ));
                    self.selected_repeater = self.selected_repeater.saturating_sub(1);
                }
                InputAction::Nothing
            },
            Key::Char('n') => {
                if n > 0 {
                    self.selected_repeater = (sel + 1) % n;
                }
                InputAction::Nothing
            },
            Key::Char('p') => {
                if n > 0 {
                    if sel == 0 {
                        self.selected_repeater = n - 1;
                        assert((sel + n - 1) % (n as int) == n - 1) by (nonlinear_arith)
                            requires
                                sel == 0,
                                n > 0,
                        ;
                    } else {
                        self.selected_repeater = sel - 1;
                        assert((sel + n - 1) % (n as int) == sel - 1) by (nonlinear_arith)
                            requires
                                0 < sel < n,
                        ;
                    }
                }
                InputAction::Nothing
            },
            Key::Char('r') => {
                if sel < n {
                    self.renaming_repeater = Some(sel);
                    let title = string_from_chars(rename_title_chars().as_slice());
                    let p = Popup::Input(InputPopup { input: String::new(), title, color: PopupColor::Reset });
                    let ghost before = self.popups@;
                    self.popups.push(p);
                    assert(self.popups@.map_values(|p: Popup| p@) =~= before.map_values(
                        |p: Popup| p@,
                    ).push(
                        PopupView::Input {
                            input: Seq::empty(),
                            title: rename_title(),
                            color: PopupColor::Reset,
                        },
                    ));
                }
                InputAction::Nothing
            },
            Key::Down | Key::Char('j') | Key::Up | Key::Char('k') => {
                let down = match key {
                    Key::Down | Key::Char('j') => true,
                    _ => false,
                };
                if sel < n {
                    let ghost before = self.repeaters@;
                    let mut rep = self.take_repeater(sel);
                    match self.repeater_focus {
                        RepeaterFocus::Request => {
                            if down {
                                scroll_down(&mut rep.request_scroll);
                            } else {
                                scroll_up(&mut rep.request_scroll);
                            }
                        },
                        RepeaterFocus::Response => {
                            if down {
                                scroll_down(&mut rep.response_scroll);
                            } else {
                                scroll_up(&mut rep.response_scroll);
                            }
                        },
                    }
                    self.put_repeater(sel, rep, Ghost(before));
                }
                InputAction::Nothing
            },
            Key::Left | Key::Right | Key::Char('h') | Key::Char('l') => {
                self.repeater_focus = match self.repeater_focus {
                    RepeaterFocus::Request => RepeaterFocus::Response,
                    RepeaterFocus::Response => RepeaterFocus::Request,
                };
                InputAction::Nothing
            },
            Key::Char('H') => {
                let v = self.request_size - 10;
                self.request_size = if v < 20 {
                    20
                } else if v > 80 {
                    80
                } else {
                    v
                };
                InputAction::Nothing
            },
            Key::Char('L') => {
                let v = self.request_size + 10;
                self.request_size = if v < 20 {
                    20
                } else if v > 80 {
                    80
                } else {
                    v
                };
                InputAction::Nothing
            },
            Key::Tab => {
                self.screen = Screen::Proxy;
                InputAction::Nothing
            },
            _ => InputAction::Nothing,
        }
    }
}

impl App {
    /// Answers a key while a pop-up is open.
    pub fn handle_popup_key(&mut self, key: Key) -> (r: InputAction)
        requires
            old(self).popups@.len() > 0,
        ensures
            final(self)@ == popup_key(old(self)@, key),
            r@ == InputActionView::Nothing,
    {
        let ghost a = self@;
        let ghost before = self.popups@;
        let mut p = self.popups.pop().unwrap();
        assert(self.popups@.map_values(|p: Popup| p@) =~= a.popups.drop_last());
        assert(a.popups[a.popups.len() - 1] == p@);
        match p.handle_input(key) {
            PopupAction::Close => {},
            PopupAction::Input(name) => {
                let chars = chars_of(name.as_str());
                let t = trim_chars(chars.as_slice());
                if t.len() > 0 {
                    if let Some(i) = self.renaming_repeater {
                        if i < self.repeaters.len() {
                            let ghost reps = self.repeaters@;
                            let mut rep = self.take_repeater(i);
                            rep.name = string_from_chars(t.as_slice());
                            self.put_repeater(i, rep, Ghost(reps));
                        }
                    }
                }
                self.renaming_repeater = None;
            },
            PopupAction::Nothing => {
                let ghost mid = self.popups@;
                self.popups.push(p);
                assert(self.popups@.map_values(|p: Popup| p@) =~= a.popups.update(
                    a.popups.len() - 1,
                    p@,
                ));
            },
        }
        InputAction::Nothing
    }

    /// Answers a key: an open pop-up takes it; otherwise the screen on show
    /// does, and `q` quits.
    pub fn handle_key(&mut self, key: Key) -> (r: InputAction)
        requires
            app_wf(old(self)@),
        ensures
            (final(self)@, r@) == app_key(old(self)@, key),
            app_wf(final(self)@),
    {
        proof {
            lemma_app_key_keeps_wf(self@, key);
        }
        if self.popups.len() > 0 {
            self.handle_popup_key(key)
        } else {
            let act = match self.screen {
                Screen::Proxy => self.handle_proxy_key(key),
                Screen::Repeater => self.handle_repeater_key(key),
            };
            if key == Key::Char('q') {
                InputAction::Quit
            } else {
                act
            }
        }
    }

    /// Answers an event from the proxy; `Err` carries the text to end with
    /// when the proxy stopped.
    pub fn handle_proxy_event(&mut self, event: ProxyEvents) -> (r: Result<(), String>)
        requires
            app_wf(old(self)@),
        ensures
            (final(self)@, match r {
                Ok(_) => None,
                Err(m) => Some(m@),
            }) == proxy_event(old(self)@, event@),
            app_wf(final(self)@),
    {
        let ghost a = self@;
        match event {
            ProxyEvents::ReceivedRequest { id, request } => {
                let ghost before = self.request_queue@;
                let ghost rv = request@;
                self.request_queue.push(InterceptedRequest { id, request });
                assert(self.request_queue@.map_values(|q: InterceptedRequest| (q.id, q.request@))
                    =~= a.request_queue.push((id, rv)));
                Ok(())
            },
            ProxyEvents::Error(m) => {
                error_popup(self, m);
                Ok(())
            },
            ProxyEvents::FatalError(m) => Err(m),
            ProxyEvents::RepeaterResponse { index, response } => {
                if index < self.repeaters.len() {
                    let ghost reps = self.repeaters@;
                    let mut rep = self.take_repeater(index);
                    rep.response = Some(response);
                    rep.thinking = false;
                    self.put_repeater(index, rep, Ghost(reps));
                }
                Ok(())
            },
        }
    }

    /// Takes the editor's outcome for the first intercepted request.
    pub fn finish_intercepted_edit(&mut self, edited: Result<String, String>)
        requires
            app_wf(old(self)@),
        ensures
            final(self)@ == intercepted_edit(old(self)@, edit_result_view(edited)),
            app_wf(final(self)@),
    {
        let ghost a = self@;
        match edited {
            Ok(text) => {
                if self.request_queue.len() > 0 {
                    let ghost before = self.request_queue@;
                    let mut q = self.request_queue.remove(0);
                    let host = q.request.host.clone();
                    q.request = Request::from_edited(text.as_str(), host, q.request.port);
                    let ghost qv = (q.id, q.request@);
                    self.request_queue.insert(0, q);
                    assert(self.request_queue@.map_values(
                        |q: InterceptedRequest| (q.id, q.request@),
                    ) =~= a.request_queue.update(0, qv));
                }
            },
            Err(m) => error_popup(self, m),
        }
    }

    /// Commits what a message to the proxy changes, once it was sent: the
    /// forwarded request leaves the queue, or the repeater tab starts
    /// waiting. A message that could not be sent leaves the state as it is.
    pub fn after_send(&mut self, event: &TuiEvents)
        requires
            app_wf(old(self)@),
        ensures
            final(self)@ == after_send(old(self)@, event@),
            app_wf(final(self)@),
    {
        let ghost a = self@;
        match event {
            TuiEvents::Forward { .. } => {
                if self.request_queue.len() > 0 {
                    let _ = self.request_queue.remove(0);
                    assert(self.request_queue@.map_values(|q: InterceptedRequest| (q.id, q.request@))
                        =~= a.request_queue.drop_first());
                }
            },
            TuiEvents::SendRepeater { index, .. } => {
                let i = *index;
                if i < self.repeaters.len() {
                    let ghost before = self.repeaters@;
                    let mut rep = self.take_repeater(i);
                    rep.thinking = true;
                    self.put_repeater(i, rep, Ghost(before));
                }
            },
            TuiEvents::SetIntercept(_) => {},
        }
    }

    /// Takes the editor's outcome for the selected repeater tab.
    pub fn finish_repeater_edit(&mut self, edited: Result<String, String>)
        requires
            app_wf(old(self)@),
        ensures
            final(self)@ == repeater_edit(old(self)@, edit_result_view(edited)),
            app_wf(final(self)@),
    {
        match edited {
            Ok(text) => {
                let sel = self.selected_repeater;
                if sel < self.repeaters.len() {
                    let ghost reps = self.repeaters@;
                    let mut rep = self.take_repeater(sel);
                    rep.edit(text.as_str());
                    self.put_repeater(sel, rep, Ghost(reps));
                }
            },
            Err(m) => error_popup(self, m),
        }
    }
}

/// Every key keeps the state's invariant.
pub proof fn lemma_app_key_keeps_wf(a: AppView, key: Key)
    requires
        app_wf(a),
    ensures
        app_wf(app_key(a, key).0),
{
    if a.popups.len() == 0 && a.screen == Screen::Repeater {
        let n = a.repeaters.len();
        let sel = a.selected_repeater;
        if n > 0 {
            assert((sel + 1) % (n as int) < n) by (nonlinear_arith)
                requires
                    n > 0,
            ;
            assert((sel + n - 1) % (n as int) < n) by (nonlinear_arith)
                requires
                    n > 0,
            ;
        }
    }
}

/// The tab widths that the repeater screen lays out: each name's length in
/// bytes plus 4, summed over the tabs.
pub open spec fn tabs_total(reps: Seq<RepeaterView>) -> nat
    decreases reps.len(),
{
    if reps.len() == 0 {
        0
    } else {
        tabs_total(reps.drop_last()) + encode_utf8(reps.last().name).len() + 4
    }
}

/// The first repeater tab on show when `available` columns hold the tabs:
/// the tabs take their average width (4 without tabs), at least one fits,
/// and the selected tab is the last one on show when it would lie beyond.
pub open spec fn first_visible_tab(a: AppView, available: nat) -> nat {
    let n = a.repeaters.len();
    let tab_width: nat = if n == 0 {
        4
    } else {
        tabs_total(a.repeaters) / n
    };
    let max_tabs: nat = if available / tab_width > 1 {
        available / tab_width
    } else {
        1
    };
    if a.selected_repeater >= max_tabs {
        (a.selected_repeater - max_tabs + 1) as nat
    } else {
        0
    }
}

/// Every tab adds at least 4 to the total.
pub proof fn lemma_tabs_total_lower(reps: Seq<RepeaterView>)
    ensures
        tabs_total(reps) >= 4 * reps.len(),
    decreases reps.len(),
{
    if reps.len() > 0 {
        lemma_tabs_total_lower(reps.drop_last());
    }
}

impl App {
    /// The first repeater tab on show when `available_width` columns hold
    /// the tabs.
    pub fn first_visible_tab(&self, available_width: usize) -> (r: usize)
        requires
            tabs_total(self@.repeaters) <= usize::MAX,
        ensures
            r == first_visible_tab(self@, available_width as nat),
    {
        let ghost reps = self@.repeaters;
        let n = self.repeaters.len();
        let mut total: usize = 0;
        let mut k: usize = 0;
        assert(reps.subrange(0, 0) =~= Seq::<RepeaterView>::empty());
        while k < n
            invariant
                n == self.repeaters@.len(),
                reps == self@.repeaters,
                k <= n,
                total == tabs_total(reps.subrange(0, k as int)),
                tabs_total(reps) <= usize::MAX,
            decreases n - k,
        {
            assert(reps.subrange(0, k + 1).drop_last() =~= reps.subrange(0, k as int));
            proof {
                lemma_tabs_total_prefix(reps, k + 1);
            }
            let len = self.repeaters[k].name.as_str().len();
            total = total + len + 4;
            k += 1;
        }
        assert(reps.subrange(0, k as int) =~= reps);
        let tab_width: usize = if n == 0 {
            4
        } else {
            proof {
                lemma_tabs_total_lower(reps);
                assert(total as int / n as int >= 4) by (nonlinear_arith)
                    requires
                        total >= 4 * n,
                        n > 0,
                ;
            }
            total / n
        };
        let fit = available_width / tab_width;
        let max_tabs: usize = if fit > 1 {
            fit
        } else {
            1
        };
        if self.selected_repeater >= max_tabs {
            self.selected_repeater - max_tabs + 1
        } else {
            0
        }
    }
}

/// A prefix of the tabs totals no more than all of them.
pub proof fn lemma_tabs_total_prefix(reps: Seq<RepeaterView>, k: int)
    requires
        0 <= k <= reps.len(),
    ensures
        tabs_total(reps.subrange(0, k)) <= tabs_total(reps),
    decreases reps.len(),
{
    if k < reps.len() {
        assert(reps.drop_last().subrange(0, k) =~= reps.subrange(0, k));
        lemma_tabs_total_prefix(reps.drop_last(), k);
    } else {
        assert(reps.subrange(0, k) =~= reps);
    }
}

/// Scrolling up undoes scrolling down, short of the largest offset.
pub proof fn lemma_scroll_up_undoes_down(s: u16)
    requires
        s <= u16::MAX - 2,
    ensures
        scrolled_up(scrolled_down(s)) == s,
{
}

/// Scrolling down undoes scrolling up, away from the top.
pub proof fn lemma_scroll_down_undoes_up(s: u16)
    requires
        s >= 2,
    ensures
        scrolled_down(scrolled_up(s)) == s,
{
}

/// On the repeater screen with no pop-up open, `n` then `p` comes back to
/// the tab that was selected, and so does `p` then `n`.
pub proof fn lemma_next_then_previous_tab(a: AppView)
    requires
        app_wf(a),
        a.repeaters.len() <= usize::MAX,
        a.popups.len() == 0,
        a.screen == Screen::Repeater,
    ensures
        app_key(app_key(a, Key::Char('n')).0, Key::Char('p')).0 == a,
        app_key(app_key(a, Key::Char('p')).0, Key::Char('n')).0 == a,
{
    let n = a.repeaters.len();
    let sel = a.selected_repeater as int;
    if n > 0 {
        let next = (sel + 1) % (n as int);
        let prev = (sel + n - 1) % (n as int);
        assert(0 <= next < n && (next + n - 1) % (n as int) == sel) by (nonlinear_arith)
            requires
                0 <= sel < n,
                next == (sel + 1) % (n as int),
        ;
        assert(0 <= prev < n && (prev + 1) % (n as int) == sel) by (nonlinear_arith)
            requires
                0 <= sel < n,
                prev == (sel + n - 1) % (n as int),
        ;
        let b = app_key(a, Key::Char('n')).0;
        assert(b.selected_repeater as int == next);
        assert(app_key(b, Key::Char('p')).0.selected_repeater as int == sel);
        assert(app_key(b, Key::Char('p')).0 == a);
        let c = app_key(a, Key::Char('p')).0;
        assert(c.selected_repeater as int == prev);
        assert(app_key(c, Key::Char('n')).0.selected_repeater as int == sel);
        assert(app_key(c, Key::Char('n')).0 == a);
    }
}

/// With no pop-up open, Tab switches between the two screens, and pressing
/// it twice comes back to the screen and state one started from.
pub proof fn lemma_tab_twice(a: AppView)
    requires
        a.popups.len() == 0,
    ensures
        app_key(a, Key::Tab).0.screen != a.screen,
        app_key(a, Key::Tab).1 == InputActionView::Nothing,
        app_key(app_key(a, Key::Tab).0, Key::Tab).0 == a,
{
}

/// With no pop-up open, `q` quits from either screen; with a pop-up open
/// the key goes to the pop-up instead.
pub proof fn lemma_q_quits(a: AppView)
    ensures
        a.popups.len() == 0 ==> app_key(a, Key::Char('q')).1 == InputActionView::Quit,
        a.popups.len() > 0 ==> app_key(a, Key::Char('q')).1 == InputActionView::Nothing,
{
}

/// On the repeater screen with no pop-up open, moving the focus twice
/// brings it back.
pub proof fn lemma_focus_twice(a: AppView, k1: Key, k2: Key)
    requires
        a.popups.len() == 0,
        a.screen == Screen::Repeater,
        k1 == Key::Left || k1 == Key::Right || k1 == Key::Char('h') || k1 == Key::Char('l'),
        k2 == Key::Left || k2 == Key::Right || k2 == Key::Char('h') || k2 == Key::Char('l'),
    ensures
        app_key(app_key(a, k1).0, k2).0 == a,
{
}

/// On the proxy screen with no pop-up open, `i` switches interception and
/// tells the proxy the new setting; pressing it twice restores the state
/// and tells the proxy the setting it had at first.
pub proof fn lemma_intercept_toggle(a: AppView)
    requires
        a.popups.len() == 0,
        a.screen == Screen::Proxy,
    ensures
        app_key(a, Key::Char('i')).0.intercept == !a.intercept,
        app_key(a, Key::Char('i')).1 == InputActionView::Send(TuiEventView::SetIntercept(!a.intercept)),
        app_key(app_key(a, Key::Char('i')).0, Key::Char('i')).0 == a,
        app_key(app_key(a, Key::Char('i')).0, Key::Char('i')).1 == InputActionView::Send(
            TuiEventView::SetIntercept(a.intercept),
        ),
{
}

/// Enter on a repeater tab asks to send the tab's request and changes
/// nothing yet; once the message went out, that tab, and only it, waits
/// for the answer, and the answer stops the wait.
pub proof fn lemma_repeater_waits_after_send(a: AppView, response: Seq<u8>)
    requires
        a.popups.len() == 0,
        a.screen == Screen::Repeater,
        a.selected_repeater < a.repeaters.len(),
    ensures
        ({
            let i = a.selected_repeater as int;
            let (b, act) = app_key(a, Key::Enter);
            let c = after_send(b, act->Send_0);
            let d = proxy_event(
                c,
                ProxyEventView::RepeaterResponse { index: a.selected_repeater, response },
            ).0;
            &&& b == a
            &&& act == InputActionView::Send(
                TuiEventView::SendRepeater { index: a.selected_repeater, request: a.repeaters[i].request },
            )
            &&& c.repeaters == a.repeaters.update(i, RepeaterView { thinking: true, ..a.repeaters[i] })
            &&& d.repeaters[i].thinking == false
            &&& d.repeaters[i].response == Some(response)
        }),
{
}

/// Intercepted requests are forwarded in the order they came: Enter on
/// the proxy screen forwards the oldest held request, and a request that
/// arrives meanwhile does not change which one that is; with none held,
/// the arriving request is the one forwarded. The key itself keeps the
/// request held; it leaves the queue, and only it, once the message went
/// out.
pub proof fn lemma_forward_in_arrival_order(a: AppView, id: usize, request: RequestView)
    requires
        a.popups.len() == 0,
        a.screen == Screen::Proxy,
    ensures
        ({
            let b = proxy_event(a, ProxyEventView::ReceivedRequest { id, request }).0;
            let sent = app_key(b, Key::Enter).1;
            &&& a.request_queue.len() > 0 ==> sent == app_key(a, Key::Enter).1
            &&& a.request_queue.len() > 0 ==> sent == InputActionView::Send(
                TuiEventView::Forward { id: a.request_queue[0].0, request: a.request_queue[0].1 },
            )
            &&& a.request_queue.len() == 0 ==> sent == InputActionView::Send(
                TuiEventView::Forward { id, request },
            )
        }),
        app_key(a, Key::Enter).0 == a,
        a.request_queue.len() > 0 ==> after_send(a, app_key(a, Key::Enter).1->Send_0).request_queue
            == a.request_queue.drop_first(),
{
    let b = proxy_event(a, ProxyEventView::ReceivedRequest { id, request }).0;
    assert(b.request_queue == a.request_queue.push((id, request)));
    assert(b.request_queue[0] == (if a.request_queue.len() > 0 {
        a.request_queue[0]
    } else {
        (id, request)
    }));
}


/// `r` on the proxy screen copies the oldest held request, the one on show
/// and the one Enter forwards, into a new tab at the end, named by its
/// position, and shows that tab; the queue and the other tabs stay.
pub proof fn lemma_repeater_copies_oldest(a: AppView)
    requires
        a.popups.len() == 0,
        a.screen == Screen::Proxy,
        a.request_queue.len() > 0,
        a.repeaters.len() < usize::MAX,
    ensures
        ({
            let b = app_key(a, Key::Char('r')).0;
            let n = a.repeaters.len();
            &&& b.repeaters.len() == n + 1
            &&& b.repeaters.subrange(0, n as int) == a.repeaters
            &&& b.repeaters[n as int].request == a.request_queue[0].1
            &&& app_key(a, Key::Enter).1 == InputActionView::Send(
                TuiEventView::Forward { id: a.request_queue[0].0, request: b.repeaters[n as int].request },
            )
            &&& b.repeaters[n as int].name == dec(n + 1)
            &&& b.repeaters[n as int].response is None
            &&& !b.repeaters[n as int].thinking
            &&& b.selected_repeater == n
            &&& b.screen == Screen::Repeater
            &&& b.request_queue == a.request_queue
        }),
{
    let b = app_key(a, Key::Char('r')).0;
    assert(b.repeaters.subrange(0, a.repeaters.len() as int) =~= a.repeaters);
}

/// Finishing the edit of an intercepted request replaces the oldest held
/// request, the one the editor was opened on, by the edited text read for
/// the same server, under the same number; every other held request stays
/// where and as it was.
pub proof fn lemma_intercepted_edit_replaces_oldest(a: AppView, text: Seq<char>)
    requires
        a.request_queue.len() > 0,
    ensures
        ({
            let b = intercepted_edit(a, Ok(text));
            let (id, r) = a.request_queue[0];
            &&& b.request_queue.len() == a.request_queue.len()
            &&& b.request_queue[0] == (id, edited_request(text, r.host, r.port))
            &&& forall|k: int| 1 <= k < a.request_queue.len() ==> #[trigger] b.request_queue[k] == a.request_queue[k]
            &&& b.repeaters == a.repeaters
            &&& b.popups == a.popups
        }),
{
}

/// On the repeater screen, `j`/Down and `k`/Up move only the selected tab's
/// offset on the focused panel, by two lines and within `u16`; every other
/// tab, the other panel's offset and the rest of the tab stay.
pub proof fn lemma_scroll_moves_selected_tab(a: AppView, key: Key)
    requires
        a.popups.len() == 0,
        a.screen == Screen::Repeater,
        a.selected_repeater < a.repeaters.len(),
        key == Key::Down || key == Key::Char('j') || key == Key::Up || key == Key::Char('k'),
    ensures
        ({
            let b = app_key(a, key).0;
            let i = a.selected_repeater as int;
            let old = a.repeaters[i];
            let new = b.repeaters[i];
            let down = key == Key::Down || key == Key::Char('j');
            let moved = |s: u16|
                if down {
                    if s + 2 > u16::MAX {
                        u16::MAX as int
                    } else {
                        s + 2
                    }
                } else {
                    if s < 2 {
                        0int
                    } else {
                        s - 2
                    }
                };
            &&& b.repeaters.len() == a.repeaters.len()
            &&& forall|k: int| 0 <= k < a.repeaters.len() && k != i ==> #[trigger] b.repeaters[k] == a.repeaters[k]
            &&& a.repeater_focus == RepeaterFocus::Request ==> new.request_scroll == moved(old.request_scroll)
                && new.response_scroll == old.response_scroll
            &&& a.repeater_focus == RepeaterFocus::Response ==> new.response_scroll == moved(old.response_scroll)
                && new.request_scroll == old.request_scroll
            &&& new.name == old.name && new.request == old.request && new.response == old.response
                && new.thinking == old.thinking
            &&& b.selected_repeater == a.selected_repeater
        }),
{
}


/// `n` selects the next tab and `p` the previous one, wrapping around at
/// the ends; nothing else changes.
pub proof fn lemma_next_previous_select(a: AppView)
    requires
        a.popups.len() == 0,
        a.screen == Screen::Repeater,
        a.selected_repeater < a.repeaters.len(),
        a.repeaters.len() <= usize::MAX,
    ensures
        ({
            let n = a.repeaters.len() as int;
            let s = a.selected_repeater as int;
            let next = app_key(a, Key::Char('n')).0;
            let prev = app_key(a, Key::Char('p')).0;
            &&& next.selected_repeater == if s + 1 == n {
                0
            } else {
                s + 1
            }
            &&& prev.selected_repeater == if s == 0 {
                n - 1
            } else {
                s - 1
            }
            &&& next == AppView { selected_repeater: next.selected_repeater, ..a }
            &&& prev == AppView { selected_repeater: prev.selected_repeater, ..a }
        }),
{
    let n = a.repeaters.len() as int;
    let s = a.selected_repeater as int;
    assert((s + 1) % n == if s + 1 == n {
        0
    } else {
        s + 1
    }) by (nonlinear_arith)
        requires
            0 <= s < n,
    ;
    assert((s + n - 1) % n == if s == 0 {
        n - 1
    } else {
        s - 1
    }) by (nonlinear_arith)
        requires
            0 <= s < n,
    ;
}

/// `x` closes the selected tab: the tabs before and after it stay in
/// order, and the selection moves to the tab before it (or stays at 0).
pub proof fn lemma_close_selected_tab(a: AppView)
    requires
        a.popups.len() == 0,
        a.screen == Screen::Repeater,
        a.selected_repeater < a.repeaters.len(),
    ensures
        ({
            let b = app_key(a, Key::Char('x')).0;
            let s = a.selected_repeater as int;
            &&& b.repeaters.len() + 1 == a.repeaters.len()
            &&& forall|k: int| 0 <= k < s ==> #[trigger] b.repeaters[k] == a.repeaters[k]
            &&& forall|k: int| s <= k < b.repeaters.len() ==> #[trigger] b.repeaters[k] == a.repeaters[k + 1]
            &&& b.selected_repeater == if s > 0 {
                s - 1
            } else {
                0
            }
        }),
{
}

/// Confirming a rename gives the tab being renamed the trimmed text as its
/// name, unless that is empty; no other tab changes, and the pop-up and the
/// renaming end.
pub proof fn lemma_rename_tab(a: AppView, i: usize, title: Seq<char>, color: PopupColor)
    requires
        a.popups.len() > 0,
        a.popups.last() == (PopupView::Input { input: a.popups.last()->Input_input, title, color }),
        a.renaming_repeater == Some(i),
        i < a.repeaters.len(),
    ensures
        ({
            let b = app_key(a, Key::Enter).0;
            let t = trim(a.popups.last()->Input_input);
            &&& b.repeaters.len() == a.repeaters.len()
            &&& forall|k: int| 0 <= k < a.repeaters.len() && k != i ==> #[trigger] b.repeaters[k] == a.repeaters[k]
            &&& b.repeaters[i as int].name == if t.len() > 0 {
                t
            } else {
                a.repeaters[i as int].name
            }
            &&& b.repeaters[i as int].request == a.repeaters[i as int].request
            &&& b.renaming_repeater is None
            &&& b.popups == a.popups.drop_last()
        }),
{
}

/// An answer from the proxy goes to the tab it was asked for, which stops
/// waiting; every other tab stays, and an answer for a tab that is gone
/// changes nothing.
pub proof fn lemma_answer_goes_to_its_tab(a: AppView, index: usize, response: Seq<u8>)
    ensures
        ({
            let (b, end) = proxy_event(a, ProxyEventView::RepeaterResponse { index, response });
            &&& end is None
            &&& b.repeaters.len() == a.repeaters.len()
            &&& forall|k: int| 0 <= k < a.repeaters.len() && k != index ==> #[trigger] b.repeaters[k] == a.repeaters[k]
            &&& index < a.repeaters.len() ==> b.repeaters[index as int].response == Some(response)
                && !b.repeaters[index as int].thinking && b.repeaters[index as int].request
                == a.repeaters[index as int].request && b.repeaters[index as int].name
                == a.repeaters[index as int].name
            &&& index >= a.repeaters.len() ==> b == a
        }),
{
}

/// Finishing the edit of a repeater tab replaces the selected tab's
/// request by the edited text read for the same server; nothing else in
/// any tab changes.
pub proof fn lemma_repeater_edit_selected(a: AppView, text: Seq<char>)
    requires
        a.selected_repeater < a.repeaters.len(),
    ensures
        ({
            let b = repeater_edit(a, Ok(text));
            let i = a.selected_repeater as int;
            let r = a.repeaters[i];
            &&& b.repeaters.len() == a.repeaters.len()
            &&& forall|k: int| 0 <= k < a.repeaters.len() && k != i ==> #[trigger] b.repeaters[k] == a.repeaters[k]
            &&& b.repeaters[i] == RepeaterView {
                request: edited_request(text, r.request.host, r.request.port),
                ..r
            }
            &&& b.request_queue == a.request_queue
        }),
{
}

/// A held request joins the end of the queue; an error joins the top of
/// the pop-ups as a red message.
pub proof fn lemma_proxy_events_append(a: AppView, id: usize, request: RequestView, m: Seq<char>)
    ensures
        proxy_event(a, ProxyEventView::ReceivedRequest { id, request }).0.request_queue == a.request_queue.push(
            (id, request),
        ),
        proxy_event(a, ProxyEventView::Error(m)).0.popups == a.popups.push(
            PopupView::Text { message: m, title: error_title(), color: PopupColor::Red },
        ),
        proxy_event(a, ProxyEventView::FatalError(m)) == (a, Some(m)),
{
}

/// `H` narrows and `L` widens the request panel by 10, never past 20 and 80.
pub proof fn lemma_resize_panel(a: AppView)
    requires
        app_wf(a),
        a.popups.len() == 0,
        a.screen == Screen::Repeater,
    ensures
        app_key(a, Key::Char('H')).0.request_size == if a.request_size >= 30 {
            a.request_size - 10
        } else {
            20
        },
        app_key(a, Key::Char('L')).0.request_size == if a.request_size <= 70 {
            a.request_size + 10
        } else {
            80
        },
{
}

/// The selected tab is always among the tabs on show: the first tab on
/// show is at most the selected one, and fewer tabs than fit lie between.
pub proof fn lemma_selected_tab_on_show(a: AppView, available: nat)
    ensures
        ({
            let first = first_visible_tab(a, available);
            let n = a.repeaters.len();
            let w: nat = if n == 0 {
                4
            } else {
                tabs_total(a.repeaters) / n
            };
            &&& first <= a.selected_repeater
            &&& a.selected_repeater - first < if available / w > 1 {
                available / w
            } else {
                1
            }
            &&& a.selected_repeater < (if available / w > 1 {
                available / w
            } else {
                1
            }) ==> first == 0
        }),
{
}


/// `e` asks for the editor only when there is a request to edit: on the
/// proxy screen the oldest held one (otherwise the terminal is set up
/// again), on the repeater screen the selected tab's; the key changes no
/// state.
pub proof fn lemma_edit_key(a: AppView)
    requires
        a.popups.len() == 0,
    ensures
        app_key(a, Key::Char('e')).0 == a,
        a.screen == Screen::Proxy ==> app_key(a, Key::Char('e')).1 == if a.request_queue.len() > 0 {
            InputActionView::EditIntercepted
        } else {
            InputActionView::ResetTerminal
        },
        a.screen == Screen::Repeater ==> app_key(a, Key::Char('e')).1 == if a.selected_repeater
            < a.repeaters.len() {
            InputActionView::EditRepeater
        } else {
            InputActionView::Nothing
        },
{
}


/// Once a message went out, only what it concerns changes: a forward takes
/// the oldest held request off the queue, a repeater request makes its own
/// tab wait, and a change of interception changes nothing more.
pub proof fn lemma_after_send_frame(a: AppView, id: usize, index: usize, request: RequestView, v: bool)
    ensures
        ({
            let f = after_send(a, TuiEventView::Forward { id, request });
            &&& f.request_queue == if a.request_queue.len() > 0 {
                a.request_queue.subrange(1, a.request_queue.len() as int)
            } else {
                a.request_queue
            }
            &&& f == AppView { request_queue: f.request_queue, ..a }
        }),
        ({
            let g = after_send(a, TuiEventView::SendRepeater { index, request });
            &&& g.repeaters.len() == a.repeaters.len()
            &&& forall|k: int| 0 <= k < a.repeaters.len() && k != index ==> #[trigger] g.repeaters[k] == a.repeaters[k]
            &&& index < a.repeaters.len() ==> g.repeaters[index as int] == RepeaterView {
                thinking: true,
                ..a.repeaters[index as int]
            }
            &&& g == AppView { repeaters: g.repeaters, ..a }
        }),
        after_send(a, TuiEventView::SetIntercept(v)) == a,
{
}

} // verus!
