use roxy::events::TuiEvents;
use roxy::http::Request;
use roxy::proxy::{connection_plan, ConnectionPlan, ProxyAction, ProxyState};
use roxy::repeater::{Repeater, RepeaterFocus};

fn request(method: &str) -> Request {
    Request {
        method: method.to_string(),
        target: "/".to_string(),
        version: 1,
        headers: Vec::new(),
        body: Vec::new(),
        host: "h".to_string(),
        port: 8000,
    }
}

#[test]
fn connect_tunnels_whatever_the_setting() {
    assert!(connection_plan(&request("CONNECT"), true) == ConnectionPlan::Tunnel);
    assert!(connection_plan(&request("Connect"), false) == ConnectionPlan::Tunnel);
    assert!(connection_plan(&request("GET"), true) == ConnectionPlan::Intercept);
    assert!(connection_plan(&request("GET"), false) == ConnectionPlan::Forward);
    assert!(connection_plan(&request("CONNECTX"), false) == ConnectionPlan::Forward);
}

#[test]
fn connections_are_numbered_in_order() {
    let mut s = ProxyState::new();
    assert!(!s.intercept);
    assert_eq!(s.accept(), (0, false));
    assert!(matches!(s.handle_tui_event(TuiEvents::SetIntercept(true)), ProxyAction::Nothing));
    assert_eq!(s.accept(), (1, true));
    assert_eq!(s.next_id, 2);
}

#[test]
fn interface_messages_become_actions() {
    let mut s = ProxyState::new();
    match s.handle_tui_event(TuiEvents::Forward { id: 7, request: request("GET") }) {
        ProxyAction::Deliver { id, request } => {
            assert_eq!(id, 7);
            assert_eq!(request.method, "GET");
        },
        _ => panic!("expected a delivery"),
    }
    match s.handle_tui_event(TuiEvents::SendRepeater { index: 2, request: request("POST") }) {
        ProxyAction::Repeat { index, request } => {
            assert_eq!(index, 2);
            assert_eq!(request.method, "POST");
        },
        _ => panic!("expected a repeat"),
    }
    assert!(!s.intercept);
    assert_eq!(s.next_id, 0);
}

#[test]
fn new_repeater_tab() {
    let r = Repeater::new(request("GET"), "1".to_string());
    assert_eq!(r.name, "1");
    assert_eq!(r.request.method, "GET");
    assert!(r.response.is_none());
    assert_eq!((r.request_scroll, r.response_scroll), (0, 0));
    assert!(!r.thinking);
    assert!(RepeaterFocus::Request != RepeaterFocus::Response);
}

#[test]
fn editing_a_tab_keeps_its_server() {
    let mut r = Repeater::new(request("GET"), "tab".to_string());
    r.request_scroll = 4;
    r.edit("POST /new HTTP/1.1\r\nHost: elsewhere:1\r\n\r\nabc");
    assert_eq!(r.request.method, "POST");
    assert_eq!(r.request.target, "/new");
    assert_eq!(r.request.body, b"abc".to_vec());
    assert_eq!(r.request.headers.len(), 2);
    assert_eq!(r.request.host, "h");
    assert_eq!(r.request.port, 8000);
    assert_eq!(r.name, "tab");
    assert_eq!(r.request_scroll, 4);
}

#[test]
fn a_run_numbers_connections_and_follows_the_last_setting() {
    let mut s = ProxyState::new();
    let mut seen = Vec::new();
    seen.push(s.accept());
    s.handle_tui_event(TuiEvents::SetIntercept(true));
    s.handle_tui_event(TuiEvents::Forward { id: 0, request: request("GET") });
    seen.push(s.accept());
    seen.push(s.accept());
    s.handle_tui_event(TuiEvents::SetIntercept(false));
    s.handle_tui_event(TuiEvents::SetIntercept(true));
    seen.push(s.accept());
    assert_eq!(seen, vec![(0, false), (1, true), (2, true), (3, true)]);
}

#[test]
fn interface_messages_can_be_copied() {
    match (TuiEvents::SendRepeater { index: 3, request: request("PATCH") }).clone() {
        TuiEvents::SendRepeater { index, request } => {
            assert_eq!(index, 3);
            assert_eq!(request.method, "PATCH");
        },
        _ => panic!("expected a repeater request"),
    }
    assert!(matches!(TuiEvents::SetIntercept(true).clone(), TuiEvents::SetIntercept(true)));
}
