use sauron::events::{
    translate_event, BrowserEvent, BrowserEventKind, Event, EventTarget, InputEvent, KeyEvent,
    MouseButton, MouseEvent,
};

fn ev(event_type: &str, kind: BrowserEventKind, target: Option<EventTarget>) -> BrowserEvent {
    BrowserEvent { event_type: event_type.to_string(), kind, target }
}

#[test]
fn click_is_a_left_press() {
    let e = ev("click", BrowserEventKind::Mouse { x: 12, y: 34 }, None);
    assert_eq!(
        translate_event(&e),
        Some(Event::MouseEvent(MouseEvent::Press(MouseButton::Left, 12, 34)))
    );
}

#[test]
fn click_coordinates_are_truncated() {
    let e = ev("click", BrowserEventKind::Mouse { x: -1, y: 65537 }, None);
    assert_eq!(
        translate_event(&e),
        Some(Event::MouseEvent(MouseEvent::Press(MouseButton::Left, 65535, 1)))
    );
}

#[test]
fn other_mouse_events_are_dropped() {
    let e = ev(
        "mousemove",
        BrowserEventKind::Mouse { x: 1, y: 2 },
        Some(EventTarget::Input { value: "v".to_string() }),
    );
    assert_eq!(translate_event(&e), None);
}

#[test]
fn keys_keep_their_modifiers() {
    let key = KeyEvent { key: "Enter".to_string(), ctrl: true, alt: false, shift: true, meta: false };
    let e = ev("keydown", BrowserEventKind::Keyboard(key), None);
    assert_eq!(
        translate_event(&e),
        Some(Event::KeyEvent(KeyEvent {
            key: "Enter".to_string(),
            ctrl: true,
            alt: false,
            shift: true,
            meta: false
        }))
    );
}

#[test]
fn input_and_textarea_give_their_value() {
    let e = ev("input", BrowserEventKind::Other, Some(EventTarget::Input { value: "abc".to_string() }));
    assert_eq!(
        translate_event(&e),
        Some(Event::InputEvent(InputEvent { value: "abc".to_string() }))
    );
    let e = ev("change", BrowserEventKind::Other, Some(EventTarget::TextArea { value: "line".to_string() }));
    assert_eq!(
        translate_event(&e),
        Some(Event::InputEvent(InputEvent { value: "line".to_string() }))
    );
}

#[test]
fn other_targets_are_generic_and_no_target_is_dropped() {
    let e = ev("scroll", BrowserEventKind::Other, Some(EventTarget::Other));
    assert_eq!(translate_event(&e), Some(Event::Generic("scroll".to_string())));
    let e = ev("scroll", BrowserEventKind::Other, None);
    assert_eq!(translate_event(&e), None);
}
