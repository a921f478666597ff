//! Turning what a browser event carries into the virtual event that a
//! listener's callback receives.
use vstd::prelude::*;

verus! {

/// The mouse button of a press.
#[derive(Debug, PartialEq, Eq)]
pub enum MouseButton {
    Left,
}

/// A mouse event as the virtual DOM sees it: the button and the position.
#[derive(Debug, PartialEq, Eq)]
pub enum MouseEvent {
    Press(MouseButton, u16, u16),
}

/// A key event with its key name and modifier keys.
#[derive(Debug, PartialEq, Eq)]
pub struct KeyEvent {
    pub key: String,
    pub ctrl: bool,
    pub alt: bool,
    pub shift: bool,
    pub meta: bool,
}

/// The new value of an input or a text area.
#[derive(Debug, PartialEq, Eq)]
pub struct InputEvent {
    pub value: String,
}

/// The event handed to a listener's callback.
#[derive(Debug, PartialEq, Eq)]
pub enum Event {
    MouseEvent(MouseEvent),
    KeyEvent(KeyEvent),
    InputEvent(InputEvent),
    /// Any other event, by its type name.
    Generic(String),
}

/// What kind of browser event it is.
#[derive(Debug, PartialEq, Eq)]
pub enum BrowserEventKind {
    /// A mouse event, with the pointer's coordinates.
    Mouse { x: i32, y: i32 },
    /// A keyboard event.
    Keyboard(KeyEvent),
    /// Any other event.
    Other,
}

/// The element an event is aimed at, as far as the translation reads it.
#[derive(Debug, PartialEq, Eq)]
pub enum EventTarget {
    /// An input element with its current value.
    Input { value: String },
    /// A text area with its current value.
    TextArea { value: String },
    /// Any other target.
    Other,
}

/// What a listener reads of a browser event.
#[derive(Debug, PartialEq, Eq)]
pub struct BrowserEvent {
    /// The event's type name, such as `click` or `input`.
    pub event_type: String,
    pub kind: BrowserEventKind,
    /// The event's target, if it has one.
    pub target: Option<EventTarget>,
}

/// The virtual event for a browser event, if any: a click of the mouse is a
/// press of the left button at the (truncated) coordinates, other mouse
/// events give none; a keyboard event passes its key and modifiers; any other
/// event whose target is an input or a text area carries the target's value;
/// one with another target is generic, by its type name; one without a
/// target gives none.
pub open spec fn event_translation(event: BrowserEvent) -> Option<Event> {
    match event.kind {
        BrowserEventKind::Mouse { x, y } => if event.event_type@ == "click"@ {
            Some(Event::MouseEvent(MouseEvent::Press(MouseButton::Left, x as u16, y as u16)))
        } else {
            None
        },
        BrowserEventKind::Keyboard(key) => Some(Event::KeyEvent(key)),
        BrowserEventKind::Other => match event.target {
            Some(EventTarget::Input { value }) => Some(Event::InputEvent(InputEvent { value })),
            Some(EventTarget::TextArea { value }) => Some(Event::InputEvent(InputEvent { value })),
            Some(EventTarget::Other) => Some(Event::Generic(event.event_type)),
            None => None,
        },
    }
}

fn clone_key_event(key: &KeyEvent) -> (k: KeyEvent)
    ensures
        k == *key,
{
    KeyEvent {
        key: key.key.clone(),
        ctrl: key.ctrl,
        alt: key.alt,
        shift: key.shift,
        meta: key.meta,
    }
}

/// A keyboard event is handed on unchanged, whatever its type name: its key
/// and all four modifiers reach the listener as they were, for `keydown`,
/// `keyup` and `keypress` alike, and whatever its target.
pub proof fn lemma_keyboard_events_pass_unchanged(event: BrowserEvent, key: KeyEvent)
    requires
        event.kind == BrowserEventKind::Keyboard(key),
    ensures
        event_translation(event) matches Some(Event::KeyEvent(out)) && out.key == key.key && out.ctrl
            == key.ctrl && out.alt == key.alt && out.shift == key.shift && out.meta == key.meta,
        forall|other: BrowserEvent|
            #![trigger event_translation(other)]
            other.kind == event.kind ==> event_translation(other) == event_translation(event),
{
}

/// A mouse event reaches the listener only as a click: a click is a press of
/// the left button at the pointer's coordinates (truncated to 16 bits), and
/// any other mouse event hands nothing on, whatever its target.
pub proof fn lemma_mouse_events_only_as_clicks(event: BrowserEvent, x: i32, y: i32)
    requires
        event.kind == (BrowserEventKind::Mouse { x, y }),
    ensures
        event.event_type@ == "click"@ ==> event_translation(event) == Some(
            Event::MouseEvent(MouseEvent::Press(MouseButton::Left, x as u16, y as u16)),
        ),
        event.event_type@ != "click"@ ==> event_translation(event) is None,
{
}

/// An event of no particular kind aimed at an input or a text area carries
/// the target's current value, whatever its type name; aimed at another
/// target it is generic, by its type name; without a target nothing is
/// handed on.
pub proof fn lemma_other_events_follow_their_target(event: BrowserEvent)
    requires
        event.kind == BrowserEventKind::Other,
    ensures
        event.target matches Some(EventTarget::Input { value }) ==> event_translation(event) == Some(
            Event::InputEvent(InputEvent { value }),
        ),
        event.target matches Some(EventTarget::TextArea { value }) ==> event_translation(event) == Some(
            Event::InputEvent(InputEvent { value }),
        ),
        event.target == Some(EventTarget::Other) ==> event_translation(event) == Some(Event::Generic(event.event_type)),
        event.target is None ==> event_translation(event) is None,
{
}

/// Translates a browser event into the virtual event for the listener's
/// callback; `None` when the callback is not to be called.
pub fn translate_event(event: &BrowserEvent) -> (out: Option<Event>)
    ensures
        out == event_translation(*event),
        event.kind matches BrowserEventKind::Keyboard(key) ==> out == Some(Event::KeyEvent(key)),
        event.kind matches BrowserEventKind::Mouse { x, y } ==> out == (if event.event_type@ == "click"@ {
            Some(Event::MouseEvent(MouseEvent::Press(MouseButton::Left, x as u16, y as u16)))
        } else {
            None
        }),
        event.kind == BrowserEventKind::Other ==> match event.target {
            Some(EventTarget::Input { value }) => out == Some(Event::InputEvent(InputEvent { value })),
            Some(EventTarget::TextArea { value }) => out == Some(Event::InputEvent(InputEvent { value })),
            Some(EventTarget::Other) => out == Some(Event::Generic(event.event_type)),
            None => out is None,
        },
{
    match &event.kind {
        BrowserEventKind::Mouse { x, y } => {
            let click = String::from_str("click");
            if event.event_type == click {
                Some(Event::MouseEvent(MouseEvent::Press(MouseButton::Left, *x as u16, *y as u16)))
            } else {
                None
            }
        },
        BrowserEventKind::Keyboard(key) => Some(Event::KeyEvent(clone_key_event(key))),
        BrowserEventKind::Other => match &event.target {
            Some(EventTarget::Input { value }) => Some(
                Event::InputEvent(InputEvent { value: value.clone() }),
            ),
            Some(EventTarget::TextArea { value }) => Some(
                Event::InputEvent(InputEvent { value: value.clone() }),
            ),
            Some(EventTarget::Other) => Some(Event::Generic(event.event_type.clone())),
            None => None,
        },
    }
}

} // verus!
