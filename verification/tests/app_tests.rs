use roxy::app::{error_popup, scroll_down, scroll_up, App, InputAction, Screen};
use roxy::events::{Key, ProxyEvents, TuiEvents};
use roxy::http::{Request, Response};
use roxy::popups::{Popup, PopupColor};
use roxy::repeater::{Repeater, RepeaterFocus};

fn request(target: &str) -> Request {
    Request {
        method: "GET".to_string(),
        target: target.to_string(),
        version: 1,
        headers: vec![("Host".to_string(), "example.com".to_string())],
        body: Vec::new(),
        host: "example.com".to_string(),
        port: 80,
    }
}

fn received(app: &mut App, id: usize, target: &str) {
    assert!(app.handle_proxy_event(ProxyEvents::ReceivedRequest { id, request: request(target) }).is_ok());
}

fn with_tabs(n: usize) -> App {
    let mut app = App::new();
    for k in 0..n {
        app.repeaters.push(Repeater::new(request("/"), (k + 1).to_string()));
    }
    app.screen = Screen::Repeater;
    app
}

fn forward(app: &mut App) -> usize {
    match app.handle_key(Key::Enter) {
        InputAction::Send(event) => {
            let id = match &event {
                TuiEvents::Forward { id, .. } => *id,
                _ => panic!("expected a forward"),
            };
            app.after_send(&event);
            id
        },
        _ => panic!("expected a forward"),
    }
}

#[test]
fn new_app_starts_on_the_proxy_screen() {
    let app = App::new();
    assert!(app.screen == Screen::Proxy);
    assert_eq!(app.proxy_scroll, 0);
    assert!(app.request_queue.is_empty());
    assert!(!app.intercept);
    assert!(app.repeaters.is_empty());
    assert_eq!(app.selected_repeater, 0);
    assert!(app.repeater_focus == RepeaterFocus::Request);
    assert_eq!(app.request_size, 50);
    assert_eq!(app.renaming_repeater, None);
    assert!(app.popups.is_empty());
}

#[test]
fn scrolling_saturates() {
    let mut s: u16 = 65534;
    scroll_down(&mut s);
    assert_eq!(s, 65535);
    scroll_down(&mut s);
    assert_eq!(s, 65535);
    let mut s: u16 = 1;
    scroll_up(&mut s);
    assert_eq!(s, 0);
    let mut s: u16 = 7;
    scroll_down(&mut s);
    assert_eq!(s, 9);
    scroll_up(&mut s);
    assert_eq!(s, 7);
    scroll_up(&mut s);
    scroll_down(&mut s);
    assert_eq!(s, 7);
}

#[test]
fn proxy_screen_scrolls_with_j_and_k() {
    let mut app = App::new();
    assert!(matches!(app.handle_key(Key::Char('j')), InputAction::Nothing));
    assert!(matches!(app.handle_key(Key::Down), InputAction::Nothing));
    assert_eq!(app.proxy_scroll, 4);
    app.handle_key(Key::Char('k'));
    assert_eq!(app.proxy_scroll, 2);
    app.handle_key(Key::Up);
    app.handle_key(Key::Up);
    assert_eq!(app.proxy_scroll, 0);
}

#[test]
fn i_toggles_interception_and_tells_the_proxy() {
    let mut app = App::new();
    assert!(matches!(app.handle_key(Key::Char('i')), InputAction::Send(TuiEvents::SetIntercept(true))));
    assert!(app.intercept);
    assert!(matches!(app.handle_key(Key::Char('i')), InputAction::Send(TuiEvents::SetIntercept(false))));
    assert!(!app.intercept);
}

#[test]
fn intercepted_requests_are_forwarded_in_arrival_order() {
    let mut app = App::new();
    received(&mut app, 4, "/first");
    received(&mut app, 9, "/second");
    match app.handle_key(Key::Enter) {
        InputAction::Send(event) => {
            match &event {
                TuiEvents::Forward { id, request } => {
                    assert_eq!(*id, 4);
                    assert_eq!(request.target, "/first");
                },
                _ => panic!("expected a forward"),
            }
            assert_eq!(app.request_queue.len(), 2);
            app.after_send(&event);
            assert_eq!(app.request_queue.len(), 1);
            assert_eq!(app.request_queue[0].id, 9);
        },
        _ => panic!("expected a forward"),
    }
    received(&mut app, 11, "/third");
    assert_eq!(forward(&mut app), 9);
    assert_eq!(forward(&mut app), 11);
    assert!(matches!(app.handle_key(Key::Enter), InputAction::Nothing));
}

#[test]
fn a_request_that_was_not_sent_stays_held() {
    let mut app = App::new();
    received(&mut app, 1, "/a");
    assert!(matches!(app.handle_key(Key::Enter), InputAction::Send(TuiEvents::Forward { id: 1, .. })));
    assert_eq!(app.request_queue.len(), 1);
    assert!(matches!(app.handle_key(Key::Enter), InputAction::Send(TuiEvents::Forward { id: 1, .. })));
    assert_eq!(app.request_queue.len(), 1);
    app.after_send(&TuiEvents::SetIntercept(true));
    assert_eq!(app.request_queue.len(), 1);
    assert!(!app.intercept);
}

#[test]
fn r_copies_the_first_intercepted_request_to_a_new_tab() {
    let mut app = App::new();
    assert!(matches!(app.handle_key(Key::Char('r')), InputAction::Nothing));
    assert!(app.repeaters.is_empty());
    assert!(app.screen == Screen::Proxy);
    received(&mut app, 1, "/a");
    app.handle_key(Key::Char('r'));
    assert!(app.screen == Screen::Repeater);
    assert_eq!(app.repeaters.len(), 1);
    assert_eq!(app.repeaters[0].name, "1");
    assert_eq!(app.repeaters[0].request.target, "/a");
    assert!(app.repeaters[0].response.is_none());
    assert!(!app.repeaters[0].thinking);
    assert_eq!(app.selected_repeater, 0);
    assert_eq!(app.request_queue.len(), 1);
    app.handle_key(Key::Tab);
    assert!(app.screen == Screen::Proxy);
    app.handle_key(Key::Char('r'));
    assert_eq!(app.repeaters[1].name, "2");
    assert_eq!(app.selected_repeater, 1);
}

#[test]
fn e_asks_for_the_editor_only_when_there_is_something_to_edit() {
    let mut app = App::new();
    assert!(matches!(app.handle_key(Key::Char('e')), InputAction::ResetTerminal));
    received(&mut app, 1, "/a");
    assert!(matches!(app.handle_key(Key::Char('e')), InputAction::EditIntercepted));
    let mut tabs = with_tabs(0);
    assert!(matches!(tabs.handle_key(Key::Char('e')), InputAction::Nothing));
    let mut tabs = with_tabs(1);
    assert!(matches!(tabs.handle_key(Key::Char('e')), InputAction::EditRepeater));
}

#[test]
fn edited_intercepted_request_keeps_its_server() {
    let mut app = App::new();
    received(&mut app, 3, "/a");
    app.finish_intercepted_edit(Ok("POST /b HTTP/1.1\r\nHost: other\r\n\r\nxy".to_string()));
    let q = &app.request_queue[0];
    assert_eq!(q.id, 3);
    assert_eq!(q.request.method, "POST");
    assert_eq!(q.request.target, "/b");
    assert_eq!(q.request.body, b"xy".to_vec());
    assert_eq!(q.request.host, "example.com");
    assert_eq!(q.request.port, 80);
    app.finish_intercepted_edit(Err("no editor".to_string()));
    assert_eq!(app.popups.len(), 1);
    match &app.popups[0] {
        Popup::Text(p) => assert_eq!(p.message, "no editor"),
        _ => panic!("expected a message"),
    }
}

#[test]
fn edited_repeater_request_replaces_the_tab_request() {
    let mut app = with_tabs(2);
    app.selected_repeater = 1;
    app.finish_repeater_edit(Ok("DELETE /x HTTP/1.0".to_string()));
    assert_eq!(app.repeaters[1].request.method, "DELETE");
    assert_eq!(app.repeaters[1].request.version, 0);
    assert_eq!(app.repeaters[1].request.host, "example.com");
    assert_eq!(app.repeaters[0].request.method, "GET");
    app.finish_repeater_edit(Err("failed".to_string()));
    assert_eq!(app.popups.len(), 1);
}

#[test]
fn n_and_p_cycle_through_the_tabs() {
    let mut app = with_tabs(3);
    app.handle_key(Key::Char('n'));
    assert_eq!(app.selected_repeater, 1);
    app.handle_key(Key::Char('n'));
    app.handle_key(Key::Char('n'));
    assert_eq!(app.selected_repeater, 0);
    app.handle_key(Key::Char('p'));
    assert_eq!(app.selected_repeater, 2);
    app.handle_key(Key::Char('n'));
    assert_eq!(app.selected_repeater, 0);
    let mut empty = with_tabs(0);
    empty.handle_key(Key::Char('n'));
    empty.handle_key(Key::Char('p'));
    assert_eq!(empty.selected_repeater, 0);
}

#[test]
fn focus_moves_between_the_panels() {
    let mut app = with_tabs(1);
    app.handle_key(Key::Left);
    assert!(app.repeater_focus == RepeaterFocus::Response);
    app.handle_key(Key::Char('l'));
    assert!(app.repeater_focus == RepeaterFocus::Request);
    app.handle_key(Key::Char('h'));
    app.handle_key(Key::Right);
    assert!(app.repeater_focus == RepeaterFocus::Request);
}

#[test]
fn scrolling_a_tab_moves_the_focused_panel() {
    let mut app = with_tabs(1);
    app.handle_key(Key::Down);
    assert_eq!(app.repeaters[0].request_scroll, 2);
    app.handle_key(Key::Right);
    app.handle_key(Key::Char('j'));
    app.handle_key(Key::Char('j'));
    app.handle_key(Key::Char('k'));
    assert_eq!(app.repeaters[0].response_scroll, 2);
    assert_eq!(app.repeaters[0].request_scroll, 2);
}

#[test]
fn panel_width_stays_between_20_and_80() {
    let mut app = with_tabs(0);
    for _ in 0..5 {
        app.handle_key(Key::Char('H'));
    }
    assert_eq!(app.request_size, 20);
    app.handle_key(Key::Char('L'));
    assert_eq!(app.request_size, 30);
    for _ in 0..10 {
        app.handle_key(Key::Char('L'));
    }
    assert_eq!(app.request_size, 80);
}

#[test]
fn x_closes_the_selected_tab() {
    let mut app = with_tabs(3);
    app.selected_repeater = 2;
    app.handle_key(Key::Char('x'));
    assert_eq!(app.repeaters.len(), 2);
    assert_eq!(app.selected_repeater, 1);
    app.selected_repeater = 0;
    app.handle_key(Key::Char('x'));
    assert_eq!(app.repeaters.len(), 1);
    assert_eq!(app.repeaters[0].name, "2");
    assert_eq!(app.selected_repeater, 0);
    app.handle_key(Key::Char('x'));
    app.handle_key(Key::Char('x'));
    assert!(app.repeaters.is_empty());
}

#[test]
fn renaming_a_tab_through_the_input_popup() {
    let mut app = with_tabs(2);
    app.selected_repeater = 1;
    app.handle_key(Key::Char('r'));
    assert_eq!(app.renaming_repeater, Some(1));
    match &app.popups[0] {
        Popup::Input(p) => {
            assert_eq!(p.title, " Rename ");
            assert!(p.color == PopupColor::Reset);
            assert_eq!(p.input, "");
        },
        _ => panic!("expected an input pop-up"),
    }
    for c in " abx".chars() {
        assert!(matches!(app.handle_key(Key::Char(c)), InputAction::Nothing));
    }
    app.handle_key(Key::Backspace);
    app.handle_key(Key::Char(' '));
    assert!(matches!(app.handle_key(Key::Char('q')), InputAction::Nothing));
    app.handle_key(Key::Backspace);
    app.handle_key(Key::Enter);
    assert_eq!(app.repeaters[1].name, "ab");
    assert_eq!(app.renaming_repeater, None);
    assert!(app.popups.is_empty());
}

#[test]
fn a_blank_name_leaves_the_tab_as_it_was() {
    let mut app = with_tabs(1);
    app.handle_key(Key::Char('r'));
    app.handle_key(Key::Char(' '));
    app.handle_key(Key::Enter);
    assert_eq!(app.repeaters[0].name, "1");
    assert_eq!(app.renaming_repeater, None);
    assert!(app.popups.is_empty());
    app.handle_key(Key::Char('r'));
    app.handle_key(Key::Esc);
    assert!(app.popups.is_empty());
    assert_eq!(app.renaming_repeater, Some(0));
}

#[test]
fn enter_sends_the_tab_request_and_the_answer_comes_back() {
    let mut app = with_tabs(2);
    app.selected_repeater = 1;
    match app.handle_key(Key::Enter) {
        InputAction::Send(event) => {
            match &event {
                TuiEvents::SendRepeater { index, request } => {
                    assert_eq!(*index, 1);
                    assert_eq!(request.target, "/");
                },
                _ => panic!("expected a repeater request"),
            }
            assert!(!app.repeaters[1].thinking);
            app.after_send(&event);
        },
        _ => panic!("expected a repeater request"),
    }
    assert!(app.repeaters[1].thinking);
    assert!(!app.repeaters[0].thinking);
    let answer = Response { raw: b"HTTP/1.1 200 OK\r\n\r\n".to_vec() };
    assert!(app.handle_proxy_event(ProxyEvents::RepeaterResponse { index: 1, response: answer }).is_ok());
    assert!(!app.repeaters[1].thinking);
    assert_eq!(app.repeaters[1].response.as_ref().unwrap().raw, b"HTTP/1.1 200 OK\r\n\r\n".to_vec());
    let late = Response { raw: b"x".to_vec() };
    assert!(app.handle_proxy_event(ProxyEvents::RepeaterResponse { index: 5, response: late }).is_ok());
    assert!(app.repeaters[0].response.is_none());
}

#[test]
fn errors_show_in_a_red_popup_that_enter_closes() {
    let mut app = App::new();
    assert!(app.handle_proxy_event(ProxyEvents::Error("Missing Host".to_string())).is_ok());
    match &app.popups[0] {
        Popup::Text(p) => {
            assert_eq!(p.message, "Missing Host");
            assert_eq!(p.title, " Error ");
            assert!(p.color == PopupColor::Red);
        },
        _ => panic!("expected a message"),
    }
    assert!(matches!(app.handle_key(Key::Char('i')), InputAction::Nothing));
    assert!(!app.intercept);
    assert!(matches!(app.handle_key(Key::Char('q')), InputAction::Nothing));
    app.handle_key(Key::Enter);
    assert!(app.popups.is_empty());
    assert!(matches!(app.handle_key(Key::Char('q')), InputAction::Quit));
}

#[test]
fn a_fatal_error_ends_the_interface() {
    let mut app = App::new();
    match app.handle_proxy_event(ProxyEvents::FatalError("bind failed".to_string())) {
        Err(m) => assert_eq!(m, "bind failed"),
        Ok(()) => panic!("expected the interface to end"),
    }
}

#[test]
fn q_quits_from_either_screen() {
    let mut app = App::new();
    assert!(matches!(app.handle_key(Key::Char('q')), InputAction::Quit));
    let mut app = with_tabs(1);
    assert!(matches!(app.handle_key(Key::Char('q')), InputAction::Quit));
    assert!(matches!(app.handle_key(Key::Tab), InputAction::Nothing));
    assert!(app.screen == Screen::Proxy);
}

#[test]
fn error_popup_stacks_on_top() {
    let mut app = App::new();
    error_popup(&mut app, "one".to_string());
    error_popup(&mut app, "two".to_string());
    assert_eq!(app.popups.len(), 2);
    match &app.popups[1] {
        Popup::Text(p) => assert_eq!(p.message, "two"),
        _ => panic!("expected a message"),
    }
    app.handle_key(Key::Enter);
    assert_eq!(app.popups.len(), 1);
}

#[test]
fn first_visible_tab_keeps_the_selection_in_view() {
    let mut app = with_tabs(3);
    assert_eq!(app.first_visible_tab(10), 0);
    app.selected_repeater = 2;
    assert_eq!(app.first_visible_tab(10), 1);
    assert_eq!(app.first_visible_tab(15), 0);
    assert_eq!(app.first_visible_tab(0), 2);
    let empty = with_tabs(0);
    assert_eq!(empty.first_visible_tab(3), 0);
}
