use roxy::events::Key;
use roxy::popups::{InputPopup, Popup, PopupAction, PopupColor, TextPopup};

fn message(text: &str) -> TextPopup {
    TextPopup { message: text.to_string(), title: " Error ".to_string(), color: PopupColor::Red }
}

#[test]
fn message_popup_closes_on_enter_only() {
    let p = message("x");
    assert!(matches!(p.handle_input(Key::Enter), PopupAction::Close));
    assert!(matches!(p.handle_input(Key::Esc), PopupAction::Nothing));
    assert!(matches!(p.handle_input(Key::Char('q')), PopupAction::Nothing));
}

#[test]
fn message_popup_size_follows_the_text() {
    assert_eq!(message("hello").size(100, 50), (11, 5));
    assert_eq!(message("ab\r\nlonger line\nc").size(100, 50), (17, 7));
    assert_eq!(message("").size(100, 50), (6, 5));
    assert_eq!(message("one\n").size(100, 50), (9, 5));
    assert_eq!(message("a\r").size(100, 50), (8, 5));
    assert_eq!(message("héllo").size(100, 50), (11, 5));
}

#[test]
fn message_popup_size_is_capped_by_the_area() {
    assert_eq!(message("a long message line").size(10, 3), (10, 3));
}

#[test]
fn input_popup_edits_its_text() {
    let mut p = InputPopup { input: String::new(), title: " Rename ".to_string(), color: PopupColor::Reset };
    assert!(matches!(p.handle_input(Key::Char('a')), PopupAction::Nothing));
    p.handle_input(Key::Char('é'));
    p.handle_input(Key::Char('c'));
    assert_eq!(p.input, "aéc");
    p.handle_input(Key::Backspace);
    assert_eq!(p.input, "aé");
    p.handle_input(Key::Up);
    assert_eq!(p.input, "aé");
    match p.handle_input(Key::Enter) {
        PopupAction::Input(t) => assert_eq!(t, "aé"),
        _ => panic!("expected the typed text"),
    }
    assert!(matches!(p.handle_input(Key::Esc), PopupAction::Close));
    let mut empty = InputPopup { input: String::new(), title: String::new(), color: PopupColor::Reset };
    empty.handle_input(Key::Backspace);
    assert_eq!(empty.input, "");
}

#[test]
fn popup_passes_keys_on() {
    let mut p = Popup::Input(InputPopup { input: "x".to_string(), title: String::new(), color: PopupColor::Reset });
    p.handle_input(Key::Char('y'));
    match &p {
        Popup::Input(i) => assert_eq!(i.input, "xy"),
        _ => panic!("expected an input pop-up"),
    }
    let mut t = Popup::Text(message("m"));
    assert!(matches!(t.handle_input(Key::Enter), PopupAction::Close));
}
