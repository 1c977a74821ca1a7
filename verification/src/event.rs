//! The input events that travel from the server to its clients.
use vstd::prelude::*;

verus! {

/// A keyboard key. Keys that no backend of this crate knows by name are
/// carried by their event code.
#[derive(Clone, Copy, Debug, PartialEq, Eq, Structural)]
pub enum Keyboard {
    A,
    B,
    C,
    D,
    E,
    F,
    G,
    H,
    I,
    J,
    K,
    L,
    M,
    N,
    O,
    P,
    Q,
    R,
    S,
    T,
    U,
    V,
    W,
    X,
    Y,
    Z,
    N0,
    N1,
    N2,
    N3,
    N4,
    N5,
    N6,
    N7,
    N8,
    N9,
    Grave,
    Minus,
    Equal,
    Backslash,
    Backspace,
    Space,
    Tab,
    CapsLock,
    LeftShift,
    LeftCtrl,
    LeftMeta,
    LeftAlt,
    RightShift,
    RightCtrl,
    RightMeta,
    RightAlt,
    Appselect,
    ContextMenu,
    Menu,
    Enter,
    Esc,
    F1,
    F2,
    F3,
    F4,
    F5,
    F6,
    F7,
    F8,
    F9,
    F10,
    F11,
    F12,
    ScrollLock,
    LeftBrace,
    Insert,
    Home,
    PageUp,
    Delete,
    End,
    PageDown,
    Up,
    Left,
    Down,
    Right,
    NumLock,
    KpSlash,
    KpAsterisk,
    KpMinus,
    KpPlus,
    KpEnter,
    KpDot,
    Kp0,
    Kp1,
    Kp2,
    Kp3,
    Kp4,
    Kp5,
    Kp6,
    Kp7,
    Kp8,
    Kp9,
    RightBrace,
    Semicolon,
    Apostrophe,
    Comma,
    Dot,
    Slash,
    Pause,
    Mute,
    VolumeDown,
    VolumeUp,
    Power,
    /// Any other key, by its event code.
    Other(u16),
}

/// A mouse button. Buttons that no backend of this crate knows by name are
/// carried by their event code.
#[derive(Clone, Copy, Debug, PartialEq, Eq, Structural)]
pub enum Button {
    Left,
    Right,
    Middle,
    Side,
    Extra,
    Forward,
    Back,
    /// Any other button, by its event code.
    Other(u16),
}

/// Anything that can be held down.
#[derive(Clone, Copy, Debug, PartialEq, Eq, Structural)]
pub enum Key {
    Key(Keyboard),
    Button(Button),
}

/// A key or button going down or up.
#[derive(Clone, Copy, Debug, PartialEq, Eq, Structural)]
pub struct KeyEvent {
    pub key: Key,
    pub down: bool,
}

/// A relative axis.
#[derive(Clone, Copy, Debug, PartialEq, Eq, Structural)]
pub enum RelAxis {
    X,
    Y,
    Z,
    Rx,
    Ry,
    Rz,
    HWheel,
    Dial,
    Wheel,
    Misc,
    WheelHiRes,
    HWheelHiRes,
}

/// A relative movement.
#[derive(Clone, Copy, Debug, PartialEq, Eq, Structural)]
pub struct RelEvent {
    pub axis: RelAxis,
    pub value: i32,
}

/// An absolute axis, by its event code.
#[derive(Clone, Copy, Debug, PartialEq, Eq, Structural)]
pub struct AbsAxis {
    pub code: u16,
}

/// What a device says about one of its absolute axes.
#[derive(Clone, Copy, Debug, PartialEq, Eq, Structural)]
pub struct AbsInfo {
    pub min: i32,
    pub max: i32,
    pub fuzz: i32,
    pub flat: i32,
    pub resolution: i32,
}

/// A position on an absolute axis.
#[derive(Clone, Copy, Debug, PartialEq, Eq, Structural)]
pub struct AbsEvent {
    pub axis: AbsAxis,
    pub value: i32,
}

/// The end of a group of simultaneous events.
#[derive(Clone, Copy, Debug, PartialEq, Eq, Structural)]
pub enum SyncEvent {
    All,
}

/// One input event.
#[derive(Clone, Copy, Debug, PartialEq, Eq, Structural)]
pub enum Event {
    Rel(RelEvent),
    Abs(AbsEvent),
    Key(KeyEvent),
    Sync(SyncEvent),
}

} // verus!
