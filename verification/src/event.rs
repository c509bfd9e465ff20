//! The toolkit's logical event vocabulary and the raw platform event model.

use vstd::prelude::*;

verus! {

/// A point in logical coordinates, stored in thousandths of a logical unit
/// so that device-to-logical conversion stays in integer arithmetic.
/// Logical y increases upward.
#[derive(Clone, Copy, PartialEq, Eq, Structural, Debug)]
pub struct Point {
    pub x: i64,
    pub y: i64,
}

/// Process-wide keyboard modifier state, overwritten in place on every
/// modifier-change event and read by subsequent key and pointer events.
#[derive(Clone, Copy, PartialEq, Eq, Structural, Debug)]
pub struct KeyboardModifiers {
    pub shift: bool,
    pub control: bool,
    pub alt: bool,
    pub command: bool,
}

/// The pointer buttons the toolkit models.
#[derive(Clone, Copy, PartialEq, Eq, Structural, Debug)]
pub enum MouseButton {
    Left,
    Right,
    Center,
}

/// The closed set of logical keys delivered to the view tree.
#[derive(Clone, Copy, PartialEq, Eq, Structural, Debug)]
pub enum Key {
    Character(char),
    Enter,
    Tab,
    Space,
    ArrowDown,
    ArrowLeft,
    ArrowRight,
    ArrowUp,
    End,
    Home,
    PageDown,
    PageUp,
    Backspace,
    Delete,
    Escape,
    F1,
    F2,
    F3,
    F4,
    F5,
    F6,
    F7,
    F8,
    F9,
    F10,
    F11,
    F12,
}

/// Raw key identity as delivered by the platform. `Unidentified` stands for
/// every key outside the modeled vocabulary; it produces no logical event.
#[derive(Clone, Copy, PartialEq, Eq, Structural, Debug)]
pub enum RawKey {
    Character(char),
    Enter,
    Tab,
    Space,
    ArrowDown,
    ArrowLeft,
    ArrowRight,
    ArrowUp,
    End,
    Home,
    PageDown,
    PageUp,
    Backspace,
    Delete,
    Escape,
    F1,
    F2,
    F3,
    F4,
    F5,
    F6,
    F7,
    F8,
    F9,
    F10,
    F11,
    F12,
    Unidentified,
}

/// Raw pointer button as delivered by the platform. Only left, right and
/// middle are tracked; `Other` covers additional hardware buttons.
#[derive(Clone, Copy, PartialEq, Eq, Structural, Debug)]
pub enum RawMouseButton {
    Left,
    Right,
    Middle,
    Other,
}

/// The toolkit-level input abstraction, decoupled from the platform's raw
/// event representation. Constructed per raw event and consumed synchronously
/// by the view-tree dispatch contract.
#[derive(Debug)]
pub enum LogicalEvent {
    PointerDown { id: u64, position: Point },
    PointerMove { id: u64, position: Point },
    PointerUp { id: u64, position: Point },
    KeyPress(Key),
    Command(String),
    WindowResize { width: u32, height: u32 },
}

/// A raw platform event, reduced to plain values. The platform layer builds
/// one of these from each windowing-system event it receives.
///
/// `CursorMoved` carries the device position in thousandths of a device pixel
/// and the window's current scale factor in thousandths (1000 means a scale
/// factor of one), read from the window at the time of the event.
#[derive(Clone, Copy, PartialEq, Eq, Structural, Debug)]
pub enum RawEvent {
    CloseRequested,
    Resized { width: u32, height: u32 },
    UserWake,
    MainEventsCleared,
    RedrawRequested,
    MouseInput { pressed: bool, button: RawMouseButton },
    CursorMoved { x: i64, y: i64, scale_milli: u32 },
    KeyboardInput { pressed: bool, key: RawKey },
    ModifiersChanged { shift: bool, control: bool, alt: bool, command: bool },
    MenuEvent { id: u64 },
}

/// The logical key a raw key maps to, if any: the identity mapping on the
/// modeled vocabulary, `None` for `Unidentified`.
pub open spec fn spec_map_key(k: RawKey) -> Option<Key> {
    match k {
        RawKey::Character(c) => Some(Key::Character(c)),
        RawKey::Enter => Some(Key::Enter),
        RawKey::Tab => Some(Key::Tab),
        RawKey::Space => Some(Key::Space),
        RawKey::ArrowDown => Some(Key::ArrowDown),
        RawKey::ArrowLeft => Some(Key::ArrowLeft),
        RawKey::ArrowRight => Some(Key::ArrowRight),
        RawKey::ArrowUp => Some(Key::ArrowUp),
        RawKey::End => Some(Key::End),
        RawKey::Home => Some(Key::Home),
        RawKey::PageDown => Some(Key::PageDown),
        RawKey::PageUp => Some(Key::PageUp),
        RawKey::Backspace => Some(Key::Backspace),
        RawKey::Delete => Some(Key::Delete),
        RawKey::Escape => Some(Key::Escape),
        RawKey::F1 => Some(Key::F1),
        RawKey::F2 => Some(Key::F2),
        RawKey::F3 => Some(Key::F3),
        RawKey::F4 => Some(Key::F4),
        RawKey::F5 => Some(Key::F5),
        RawKey::F6 => Some(Key::F6),
        RawKey::F7 => Some(Key::F7),
        RawKey::F8 => Some(Key::F8),
        RawKey::F9 => Some(Key::F9),
        RawKey::F10 => Some(Key::F10),
        RawKey::F11 => Some(Key::F11),
        RawKey::F12 => Some(Key::F12),
        RawKey::Unidentified => None,
    }
}

/// Map a raw platform key to the logical key vocabulary. Press transitions
/// only reach this point; unrecognized keys produce no event.
pub fn map_key(k: RawKey) -> (r: Option<Key>)
    ensures
        r == spec_map_key(k),
{
    match k {
        RawKey::Character(c) => Some(Key::Character(c)),
        RawKey::Enter => Some(Key::Enter),
        RawKey::Tab => Some(Key::Tab),
        RawKey::Space => Some(Key::Space),
        RawKey::ArrowDown => Some(Key::ArrowDown),
        RawKey::ArrowLeft => Some(Key::ArrowLeft),
        RawKey::ArrowRight => Some(Key::ArrowRight),
        RawKey::ArrowUp => Some(Key::ArrowUp),
        RawKey::End => Some(Key::End),
        RawKey::Home => Some(Key::Home),
        RawKey::PageDown => Some(Key::PageDown),
        RawKey::PageUp => Some(Key::PageUp),
        RawKey::Backspace => Some(Key::Backspace),
        RawKey::Delete => Some(Key::Delete),
        RawKey::Escape => Some(Key::Escape),
        RawKey::F1 => Some(Key::F1),
        RawKey::F2 => Some(Key::F2),
        RawKey::F3 => Some(Key::F3),
        RawKey::F4 => Some(Key::F4),
        RawKey::F5 => Some(Key::F5),
        RawKey::F6 => Some(Key::F6),
        RawKey::F7 => Some(Key::F7),
        RawKey::F8 => Some(Key::F8),
        RawKey::F9 => Some(Key::F9),
        RawKey::F10 => Some(Key::F10),
        RawKey::F11 => Some(Key::F11),
        RawKey::F12 => Some(Key::F12),
        RawKey::Unidentified => None,
    }
}

/// The button the toolkit tracks for a raw button, if any: left, right and
/// middle map to their logical counterparts, other buttons are not tracked.
pub open spec fn spec_track_button(b: RawMouseButton) -> Option<MouseButton> {
    match b {
        RawMouseButton::Left => Some(MouseButton::Left),
        RawMouseButton::Right => Some(MouseButton::Right),
        RawMouseButton::Middle => Some(MouseButton::Center),
        RawMouseButton::Other => None,
    }
}

/// Map a raw pointer button to the tracked button state.
pub fn track_button(b: RawMouseButton) -> (r: Option<MouseButton>)
    ensures
        r == spec_track_button(b),
{
    match b {
        RawMouseButton::Left => Some(MouseButton::Left),
        RawMouseButton::Right => Some(MouseButton::Right),
        RawMouseButton::Middle => Some(MouseButton::Center),
        RawMouseButton::Other => None,
    }
}

} // verus!
