//! How remote keys and buttons are represented on a Windows client.
use vstd::prelude::*;

use crate::event::{Button, Key, Keyboard};

verus! {

/// `VK_VOLUME_MUTE`.
pub const VK_VOLUME_MUTE: u16 = 0xad;

/// `VK_VOLUME_DOWN`.
pub const VK_VOLUME_DOWN: u16 = 0xae;

/// `VK_VOLUME_UP`.
pub const VK_VOLUME_UP: u16 = 0xaf;

/// A key or button as Windows knows it.
#[derive(Clone, Copy, Debug, PartialEq, Eq, Structural)]
pub enum NativeKey {
    /// A key with a set 1 scan code and a usage on the HID keyboard page.
    Keyboard { scan_code: u16, extended: bool, hid_usage: u8 },
    /// A volume control: a virtual key, and a bit of the consumer report.
    Consumer { virtual_key: u16, mask: u8 },
    /// A power control: a bit of the system control report.
    System { mask: u8 },
    /// A mouse button.
    Mouse(Button),
}

/// The set 1 scan code of a key, and whether it takes the extended prefix.
pub open spec fn scan_code_of(key: Keyboard) -> Option<(u16, bool)> {
    match key {
        Keyboard::A => Some((0x1eu16, false)),
        Keyboard::B => Some((0x30u16, false)),
        Keyboard::C => Some((0x2eu16, false)),
        Keyboard::D => Some((0x20u16, false)),
        Keyboard::E => Some((0x12u16, false)),
        Keyboard::F => Some((0x21u16, false)),
        Keyboard::G => Some((0x22u16, false)),
        Keyboard::H => Some((0x23u16, false)),
        Keyboard::I => Some((0x17u16, false)),
        Keyboard::J => Some((0x24u16, false)),
        Keyboard::K => Some((0x25u16, false)),
        Keyboard::L => Some((0x26u16, false)),
        Keyboard::M => Some((0x32u16, false)),
        Keyboard::N => Some((0x31u16, false)),
        Keyboard::O => Some((0x18u16, false)),
        Keyboard::P => Some((0x19u16, false)),
        Keyboard::Q => Some((0x10u16, false)),
        Keyboard::R => Some((0x13u16, false)),
        Keyboard::S => Some((0x1fu16, false)),
        Keyboard::T => Some((0x14u16, false)),
        Keyboard::U => Some((0x16u16, false)),
        Keyboard::V => Some((0x2fu16, false)),
        Keyboard::W => Some((0x11u16, false)),
        Keyboard::X => Some((0x2du16, false)),
        Keyboard::Y => Some((0x15u16, false)),
        Keyboard::Z => Some((0x2cu16, false)),
        Keyboard::N0 => Some((0x0bu16, false)),
        Keyboard::N1 => Some((0x02u16, false)),
        Keyboard::N2 => Some((0x03u16, false)),
        Keyboard::N3 => Some((0x04u16, false)),
        Keyboard::N4 => Some((0x05u16, false)),
        Keyboard::N5 => Some((0x06u16, false)),
        Keyboard::N6 => Some((0x07u16, false)),
        Keyboard::N7 => Some((0x08u16, false)),
        Keyboard::N8 => Some((0x09u16, false)),
        Keyboard::N9 => Some((0x0au16, false)),
        Keyboard::Grave => Some((0x29u16, false)),
        Keyboard::Minus => Some((0x0cu16, false)),
        Keyboard::Equal => Some((0x0du16, false)),
        Keyboard::Backslash => Some((0x2bu16, false)),
        Keyboard::Backspace => Some((0x0eu16, false)),
        Keyboard::Space => Some((0x39u16, false)),
        Keyboard::Tab => Some((0x0fu16, false)),
        Keyboard::CapsLock => Some((0x3au16, false)),
        Keyboard::LeftShift => Some((0x2au16, false)),
        Keyboard::LeftCtrl => Some((0x1du16, false)),
        Keyboard::LeftMeta => Some((0x5bu16, true)),
        Keyboard::LeftAlt => Some((0x38u16, false)),
        Keyboard::RightShift => Some((0x36u16, false)),
        Keyboard::RightCtrl => Some((0x1du16, true)),
        Keyboard::RightMeta => Some((0x5cu16, true)),
        Keyboard::RightAlt => Some((0x38u16, true)),
        Keyboard::Appselect | Keyboard::ContextMenu | Keyboard::Menu => Some((0x5du16, true)),
        Keyboard::Enter => Some((0x1cu16, false)),
        Keyboard::Esc => Some((0x01u16, false)),
        Keyboard::F1 => Some((0x3bu16, false)),
        Keyboard::F2 => Some((0x3cu16, false)),
        Keyboard::F3 => Some((0x3du16, false)),
        Keyboard::F4 => Some((0x3eu16, false)),
        Keyboard::F5 => Some((0x3fu16, false)),
        Keyboard::F6 => Some((0x40u16, false)),
        Keyboard::F7 => Some((0x41u16, false)),
        Keyboard::F8 => Some((0x42u16, false)),
        Keyboard::F9 => Some((0x43u16, false)),
        Keyboard::F10 => Some((0x44u16, false)),
        Keyboard::F11 => Some((0x57u16, false)),
        Keyboard::F12 => Some((0x58u16, false)),
        Keyboard::ScrollLock => Some((0x46u16, false)),
        Keyboard::LeftBrace => Some((0x1au16, false)),
        Keyboard::Insert => Some((0x52u16, true)),
        Keyboard::Home => Some((0x47u16, true)),
        Keyboard::PageUp => Some((0x49u16, true)),
        Keyboard::Delete => Some((0x53u16, true)),
        Keyboard::End => Some((0x4fu16, true)),
        Keyboard::PageDown => Some((0x51u16, true)),
        Keyboard::Up => Some((0x48u16, true)),
        Keyboard::Left => Some((0x4bu16, true)),
        Keyboard::Down => Some((0x50u16, true)),
        Keyboard::Right => Some((0x4du16, true)),
        Keyboard::NumLock => Some((0x45u16, false)),
        Keyboard::KpSlash => Some((0x35u16, true)),
        Keyboard::KpAsterisk => Some((0x37u16, false)),
        Keyboard::KpMinus => Some((0x4au16, false)),
        Keyboard::KpPlus => Some((0x4eu16, false)),
        Keyboard::KpEnter => Some((0x1cu16, true)),
        Keyboard::KpDot => Some((0x53u16, false)),
        Keyboard::Kp0 => Some((0x52u16, false)),
        Keyboard::Kp1 => Some((0x4fu16, false)),
        Keyboard::Kp2 => Some((0x50u16, false)),
        Keyboard::Kp3 => Some((0x51u16, false)),
        Keyboard::Kp4 => Some((0x4bu16, false)),
        Keyboard::Kp5 => Some((0x4cu16, false)),
        Keyboard::Kp6 => Some((0x4du16, false)),
        Keyboard::Kp7 => Some((0x47u16, false)),
        Keyboard::Kp8 => Some((0x48u16, false)),
        Keyboard::Kp9 => Some((0x49u16, false)),
        Keyboard::RightBrace => Some((0x1bu16, false)),
        Keyboard::Semicolon => Some((0x27u16, false)),
        Keyboard::Apostrophe => Some((0x28u16, false)),
        Keyboard::Comma => Some((0x33u16, false)),
        Keyboard::Dot => Some((0x34u16, false)),
        Keyboard::Slash => Some((0x35u16, false)),
        _ => None,
    }
}

/// The usage of a key on the HID keyboard page.
pub open spec fn hid_usage_of(key: Keyboard) -> Option<u8> {
    match key {
        Keyboard::A => Some(0x04u8),
        Keyboard::B => Some(0x05u8),
        Keyboard::C => Some(0x06u8),
        Keyboard::D => Some(0x07u8),
        Keyboard::E => Some(0x08u8),
        Keyboard::F => Some(0x09u8),
        Keyboard::G => Some(0x0au8),
        Keyboard::H => Some(0x0bu8),
        Keyboard::I => Some(0x0cu8),
        Keyboard::J => Some(0x0du8),
        Keyboard::K => Some(0x0eu8),
        Keyboard::L => Some(0x0fu8),
        Keyboard::M => Some(0x10u8),
        Keyboard::N => Some(0x11u8),
        Keyboard::O => Some(0x12u8),
        Keyboard::P => Some(0x13u8),
        Keyboard::Q => Some(0x14u8),
        Keyboard::R => Some(0x15u8),
        Keyboard::S => Some(0x16u8),
        Keyboard::T => Some(0x17u8),
        Keyboard::U => Some(0x18u8),
        Keyboard::V => Some(0x19u8),
        Keyboard::W => Some(0x1au8),
        Keyboard::X => Some(0x1bu8),
        Keyboard::Y => Some(0x1cu8),
        Keyboard::Z => Some(0x1du8),
        Keyboard::N1 => Some(0x1eu8),
        Keyboard::N2 => Some(0x1fu8),
        Keyboard::N3 => Some(0x20u8),
        Keyboard::N4 => Some(0x21u8),
        Keyboard::N5 => Some(0x22u8),
        Keyboard::N6 => Some(0x23u8),
        Keyboard::N7 => Some(0x24u8),
        Keyboard::N8 => Some(0x25u8),
        Keyboard::N9 => Some(0x26u8),
        Keyboard::N0 => Some(0x27u8),
        Keyboard::Enter => Some(0x28u8),
        Keyboard::Esc => Some(0x29u8),
        Keyboard::Backspace => Some(0x2au8),
        Keyboard::Tab => Some(0x2bu8),
        Keyboard::Space => Some(0x2cu8),
        Keyboard::Minus => Some(0x2du8),
        Keyboard::Equal => Some(0x2eu8),
        Keyboard::LeftBrace => Some(0x2fu8),
        Keyboard::RightBrace => Some(0x30u8),
        Keyboard::Backslash => Some(0x31u8),
        Keyboard::Semicolon => Some(0x33u8),
        Keyboard::Apostrophe => Some(0x34u8),
        Keyboard::Grave => Some(0x35u8),
        Keyboard::Comma => Some(0x36u8),
        Keyboard::Dot => Some(0x37u8),
        Keyboard::Slash => Some(0x38u8),
        Keyboard::CapsLock => Some(0x39u8),
        Keyboard::F1 => Some(0x3au8),
        Keyboard::F2 => Some(0x3bu8),
        Keyboard::F3 => Some(0x3cu8),
        Keyboard::F4 => Some(0x3du8),
        Keyboard::F5 => Some(0x3eu8),
        Keyboard::F6 => Some(0x3fu8),
        Keyboard::F7 => Some(0x40u8),
        Keyboard::F8 => Some(0x41u8),
        Keyboard::F9 => Some(0x42u8),
        Keyboard::F10 => Some(0x43u8),
        Keyboard::F11 => Some(0x44u8),
        Keyboard::F12 => Some(0x45u8),
        Keyboard::ScrollLock => Some(0x47u8),
        Keyboard::Insert => Some(0x49u8),
        Keyboard::Home => Some(0x4au8),
        Keyboard::PageUp => Some(0x4bu8),
        Keyboard::Delete => Some(0x4cu8),
        Keyboard::End => Some(0x4du8),
        Keyboard::PageDown => Some(0x4eu8),
        Keyboard::Right => Some(0x4fu8),
        Keyboard::Left => Some(0x50u8),
        Keyboard::Down => Some(0x51u8),
        Keyboard::Up => Some(0x52u8),
        Keyboard::NumLock => Some(0x53u8),
        Keyboard::KpSlash => Some(0x54u8),
        Keyboard::KpAsterisk => Some(0x55u8),
        Keyboard::KpMinus => Some(0x56u8),
        Keyboard::KpPlus => Some(0x57u8),
        Keyboard::KpEnter => Some(0x58u8),
        Keyboard::Kp1 => Some(0x59u8),
        Keyboard::Kp2 => Some(0x5au8),
        Keyboard::Kp3 => Some(0x5bu8),
        Keyboard::Kp4 => Some(0x5cu8),
        Keyboard::Kp5 => Some(0x5du8),
        Keyboard::Kp6 => Some(0x5eu8),
        Keyboard::Kp7 => Some(0x5fu8),
        Keyboard::Kp8 => Some(0x60u8),
        Keyboard::Kp9 => Some(0x61u8),
        Keyboard::Kp0 => Some(0x62u8),
        Keyboard::KpDot => Some(0x63u8),
        Keyboard::Appselect | Keyboard::ContextMenu | Keyboard::Menu => Some(0x65u8),
        Keyboard::LeftCtrl => Some(0xe0u8),
        Keyboard::LeftShift => Some(0xe1u8),
        Keyboard::LeftAlt => Some(0xe2u8),
        Keyboard::LeftMeta => Some(0xe3u8),
        Keyboard::RightCtrl => Some(0xe4u8),
        Keyboard::RightShift => Some(0xe5u8),
        Keyboard::RightAlt => Some(0xe6u8),
        Keyboard::RightMeta => Some(0xe7u8),
        _ => None,
    }
}

/// The volume control that a key stands for.
pub open spec fn consumer_of(key: Keyboard) -> Option<NativeKey> {
    match key {
        Keyboard::Mute => Some(NativeKey::Consumer { virtual_key: VK_VOLUME_MUTE, mask: 0x01 }),
        Keyboard::VolumeDown => Some(
            NativeKey::Consumer { virtual_key: VK_VOLUME_DOWN, mask: 0x02 },
        ),
        Keyboard::VolumeUp => Some(NativeKey::Consumer { virtual_key: VK_VOLUME_UP, mask: 0x04 }),
        _ => None,
    }
}

/// The button under which Windows reports a mouse button, if it has one.
pub open spec fn button_of(button: Button) -> Option<Button> {
    match button {
        Button::Left | Button::Right | Button::Middle => Some(button),
        Button::Side | Button::Back => Some(Button::Side),
        Button::Extra | Button::Forward => Some(Button::Extra),
        Button::Other(_) => None,
    }
}

/// What Windows makes of a key or button, if anything.
pub open spec fn native_key_of(key: Key) -> Option<NativeKey> {
    match key {
        Key::Key(key) => if consumer_of(key) is Some {
            consumer_of(key)
        } else if key == Keyboard::Power {
            Some(NativeKey::System { mask: 0x01 })
        } else {
            match (scan_code_of(key), hid_usage_of(key)) {
                (Some((scan_code, extended)), Some(hid_usage)) => Some(
                    NativeKey::Keyboard { scan_code, extended, hid_usage },
                ),
                _ => None,
            }
        },
        Key::Button(button) => match button_of(button) {
            Some(button) => Some(NativeKey::Mouse(button)),
            None => None,
        },
    }
}

/// The modifiers: Ctrl, Shift, Alt and Meta on either side.
pub open spec fn is_modifier(key: Keyboard) -> bool {
    ||| key == Keyboard::LeftCtrl || key == Keyboard::RightCtrl
    ||| key == Keyboard::LeftShift || key == Keyboard::RightShift
    ||| key == Keyboard::LeftAlt || key == Keyboard::RightAlt
    ||| key == Keyboard::LeftMeta || key == Keyboard::RightMeta
}

/// The keys that toggle a lock.
pub open spec fn is_lock(key: Keyboard) -> bool {
    key == Keyboard::CapsLock || key == Keyboard::NumLock || key == Keyboard::ScrollLock
}

/// The keys that open a context menu, which share one code.
pub open spec fn is_menu(key: Keyboard) -> bool {
    key == Keyboard::Appselect || key == Keyboard::ContextMenu || key == Keyboard::Menu
}

/// Whether a key repeats while it is held: the volume keys do, and so does
/// every key with a scan code that is no modifier, lock or menu key.
pub open spec fn is_repeatable(key: Key) -> bool {
    match key {
        Key::Button(_) => false,
        Key::Key(key) => {
            ||| key == Keyboard::VolumeDown || key == Keyboard::VolumeUp
            ||| scan_code_of(key) is Some && !is_modifier(key) && !is_lock(key) && !is_menu(key)
        },
    }
}

/// The set 1 scan code of a key, and whether it takes the extended prefix.
pub fn scan_code(key: Keyboard) -> (code: Option<(u16, bool)>)
    ensures
        code == scan_code_of(key),
{
    match key {
        Keyboard::A => Some((0x1eu16, false)),
        Keyboard::B => Some((0x30u16, false)),
        Keyboard::C => Some((0x2eu16, false)),
        Keyboard::D => Some((0x20u16, false)),
        Keyboard::E => Some((0x12u16, false)),
        Keyboard::F => Some((0x21u16, false)),
        Keyboard::G => Some((0x22u16, false)),
        Keyboard::H => Some((0x23u16, false)),
        Keyboard::I => Some((0x17u16, false)),
        Keyboard::J => Some((0x24u16, false)),
        Keyboard::K => Some((0x25u16, false)),
        Keyboard::L => Some((0x26u16, false)),
        Keyboard::M => Some((0x32u16, false)),
        Keyboard::N => Some((0x31u16, false)),
        Keyboard::O => Some((0x18u16, false)),
        Keyboard::P => Some((0x19u16, false)),
        Keyboard::Q => Some((0x10u16, false)),
        Keyboard::R => Some((0x13u16, false)),
        Keyboard::S => Some((0x1fu16, false)),
        Keyboard::T => Some((0x14u16, false)),
        Keyboard::U => Some((0x16u16, false)),
        Keyboard::V => Some((0x2fu16, false)),
        Keyboard::W => Some((0x11u16, false)),
        Keyboard::X => Some((0x2du16, false)),
        Keyboard::Y => Some((0x15u16, false)),
        Keyboard::Z => Some((0x2cu16, false)),
        Keyboard::N0 => Some((0x0bu16, false)),
        Keyboard::N1 => Some((0x02u16, false)),
        Keyboard::N2 => Some((0x03u16, false)),
        Keyboard::N3 => Some((0x04u16, false)),
        Keyboard::N4 => Some((0x05u16, false)),
        Keyboard::N5 => Some((0x06u16, false)),
        Keyboard::N6 => Some((0x07u16, false)),
        Keyboard::N7 => Some((0x08u16, false)),
        Keyboard::N8 => Some((0x09u16, false)),
        Keyboard::N9 => Some((0x0au16, false)),
        Keyboard::Grave => Some((0x29u16, false)),
        Keyboard::Minus => Some((0x0cu16, false)),
        Keyboard::Equal => Some((0x0du16, false)),
        Keyboard::Backslash => Some((0x2bu16, false)),
        Keyboard::Backspace => Some((0x0eu16, false)),
        Keyboard::Space => Some((0x39u16, false)),
        Keyboard::Tab => Some((0x0fu16, false)),
        Keyboard::CapsLock => Some((0x3au16, false)),
        Keyboard::LeftShift => Some((0x2au16, false)),
        Keyboard::LeftCtrl => Some((0x1du16, false)),
        Keyboard::LeftMeta => Some((0x5bu16, true)),
        Keyboard::LeftAlt => Some((0x38u16, false)),
        Keyboard::RightShift => Some((0x36u16, false)),
        Keyboard::RightCtrl => Some((0x1du16, true)),
        Keyboard::RightMeta => Some((0x5cu16, true)),
        Keyboard::RightAlt => Some((0x38u16, true)),
        Keyboard::Appselect | Keyboard::ContextMenu | Keyboard::Menu => Some((0x5du16, true)),
        Keyboard::Enter => Some((0x1cu16, false)),
        Keyboard::Esc => Some((0x01u16, false)),
        Keyboard::F1 => Some((0x3bu16, false)),
        Keyboard::F2 => Some((0x3cu16, false)),
        Keyboard::F3 => Some((0x3du16, false)),
        Keyboard::F4 => Some((0x3eu16, false)),
        Keyboard::F5 => Some((0x3fu16, false)),
        Keyboard::F6 => Some((0x40u16, false)),
        Keyboard::F7 => Some((0x41u16, false)),
        Keyboard::F8 => Some((0x42u16, false)),
        Keyboard::F9 => Some((0x43u16, false)),
        Keyboard::F10 => Some((0x44u16, false)),
        Keyboard::F11 => Some((0x57u16, false)),
        Keyboard::F12 => Some((0x58u16, false)),
        Keyboard::ScrollLock => Some((0x46u16, false)),
        Keyboard::LeftBrace => Some((0x1au16, false)),
        Keyboard::Insert => Some((0x52u16, true)),
        Keyboard::Home => Some((0x47u16, true)),
        Keyboard::PageUp => Some((0x49u16, true)),
        Keyboard::Delete => Some((0x53u16, true)),
        Keyboard::End => Some((0x4fu16, true)),
        Keyboard::PageDown => Some((0x51u16, true)),
        Keyboard::Up => Some((0x48u16, true)),
        Keyboard::Left => Some((0x4bu16, true)),
        Keyboard::Down => Some((0x50u16, true)),
        Keyboard::Right => Some((0x4du16, true)),
        Keyboard::NumLock => Some((0x45u16, false)),
        Keyboard::KpSlash => Some((0x35u16, true)),
        Keyboard::KpAsterisk => Some((0x37u16, false)),
        Keyboard::KpMinus => Some((0x4au16, false)),
        Keyboard::KpPlus => Some((0x4eu16, false)),
        Keyboard::KpEnter => Some((0x1cu16, true)),
        Keyboard::KpDot => Some((0x53u16, false)),
        Keyboard::Kp0 => Some((0x52u16, false)),
        Keyboard::Kp1 => Some((0x4fu16, false)),
        Keyboard::Kp2 => Some((0x50u16, false)),
        Keyboard::Kp3 => Some((0x51u16, false)),
        Keyboard::Kp4 => Some((0x4bu16, false)),
        Keyboard::Kp5 => Some((0x4cu16, false)),
        Keyboard::Kp6 => Some((0x4du16, false)),
        Keyboard::Kp7 => Some((0x47u16, false)),
        Keyboard::Kp8 => Some((0x48u16, false)),
        Keyboard::Kp9 => Some((0x49u16, false)),
        Keyboard::RightBrace => Some((0x1bu16, false)),
        Keyboard::Semicolon => Some((0x27u16, false)),
        Keyboard::Apostrophe => Some((0x28u16, false)),
        Keyboard::Comma => Some((0x33u16, false)),
        Keyboard::Dot => Some((0x34u16, false)),
        Keyboard::Slash => Some((0x35u16, false)),
        _ => None,
    }
}

/// The usage of a key on the HID keyboard page.
pub fn hid_usage(key: Keyboard) -> (usage: Option<u8>)
    ensures
        usage == hid_usage_of(key),
{
    match key {
        Keyboard::A => Some(0x04u8),
        Keyboard::B => Some(0x05u8),
        Keyboard::C => Some(0x06u8),
        Keyboard::D => Some(0x07u8),
        Keyboard::E => Some(0x08u8),
        Keyboard::F => Some(0x09u8),
        Keyboard::G => Some(0x0au8),
        Keyboard::H => Some(0x0bu8),
        Keyboard::I => Some(0x0cu8),
        Keyboard::J => Some(0x0du8),
        Keyboard::K => Some(0x0eu8),
        Keyboard::L => Some(0x0fu8),
        Keyboard::M => Some(0x10u8),
        Keyboard::N => Some(0x11u8),
        Keyboard::O => Some(0x12u8),
        Keyboard::P => Some(0x13u8),
        Keyboard::Q => Some(0x14u8),
        Keyboard::R => Some(0x15u8),
        Keyboard::S => Some(0x16u8),
        Keyboard::T => Some(0x17u8),
        Keyboard::U => Some(0x18u8),
        Keyboard::V => Some(0x19u8),
        Keyboard::W => Some(0x1au8),
        Keyboard::X => Some(0x1bu8),
        Keyboard::Y => Some(0x1cu8),
        Keyboard::Z => Some(0x1du8),
        Keyboard::N1 => Some(0x1eu8),
        Keyboard::N2 => Some(0x1fu8),
        Keyboard::N3 => Some(0x20u8),
        Keyboard::N4 => Some(0x21u8),
        Keyboard::N5 => Some(0x22u8),
        Keyboard::N6 => Some(0x23u8),
        Keyboard::N7 => Some(0x24u8),
        Keyboard::N8 => Some(0x25u8),
        Keyboard::N9 => Some(0x26u8),
        Keyboard::N0 => Some(0x27u8),
        Keyboard::Enter => Some(0x28u8),
        Keyboard::Esc => Some(0x29u8),
        Keyboard::Backspace => Some(0x2au8),
        Keyboard::Tab => Some(0x2bu8),
        Keyboard::Space => Some(0x2cu8),
        Keyboard::Minus => Some(0x2du8),
        Keyboard::Equal => Some(0x2eu8),
        Keyboard::LeftBrace => Some(0x2fu8),
        Keyboard::RightBrace => Some(0x30u8),
        Keyboard::Backslash => Some(0x31u8),
        Keyboard::Semicolon => Some(0x33u8),
        Keyboard::Apostrophe => Some(0x34u8),
        Keyboard::Grave => Some(0x35u8),
        Keyboard::Comma => Some(0x36u8),
        Keyboard::Dot => Some(0x37u8),
        Keyboard::Slash => Some(0x38u8),
        Keyboard::CapsLock => Some(0x39u8),
        Keyboard::F1 => Some(0x3au8),
        Keyboard::F2 => Some(0x3bu8),
        Keyboard::F3 => Some(0x3cu8),
        Keyboard::F4 => Some(0x3du8),
        Keyboard::F5 => Some(0x3eu8),
        Keyboard::F6 => Some(0x3fu8),
        Keyboard::F7 => Some(0x40u8),
        Keyboard::F8 => Some(0x41u8),
        Keyboard::F9 => Some(0x42u8),
        Keyboard::F10 => Some(0x43u8),
        Keyboard::F11 => Some(0x44u8),
        Keyboard::F12 => Some(0x45u8),
        Keyboard::ScrollLock => Some(0x47u8),
        Keyboard::Insert => Some(0x49u8),
        Keyboard::Home => Some(0x4au8),
        Keyboard::PageUp => Some(0x4bu8),
        Keyboard::Delete => Some(0x4cu8),
        Keyboard::End => Some(0x4du8),
        Keyboard::PageDown => Some(0x4eu8),
        Keyboard::Right => Some(0x4fu8),
        Keyboard::Left => Some(0x50u8),
        Keyboard::Down => Some(0x51u8),
        Keyboard::Up => Some(0x52u8),
        Keyboard::NumLock => Some(0x53u8),
        Keyboard::KpSlash => Some(0x54u8),
        Keyboard::KpAsterisk => Some(0x55u8),
        Keyboard::KpMinus => Some(0x56u8),
        Keyboard::KpPlus => Some(0x57u8),
        Keyboard::KpEnter => Some(0x58u8),
        Keyboard::Kp1 => Some(0x59u8),
        Keyboard::Kp2 => Some(0x5au8),
        Keyboard::Kp3 => Some(0x5bu8),
        Keyboard::Kp4 => Some(0x5cu8),
        Keyboard::Kp5 => Some(0x5du8),
        Keyboard::Kp6 => Some(0x5eu8),
        Keyboard::Kp7 => Some(0x5fu8),
        Keyboard::Kp8 => Some(0x60u8),
        Keyboard::Kp9 => Some(0x61u8),
        Keyboard::Kp0 => Some(0x62u8),
        Keyboard::KpDot => Some(0x63u8),
        Keyboard::Appselect | Keyboard::ContextMenu | Keyboard::Menu => Some(0x65u8),
        Keyboard::LeftCtrl => Some(0xe0u8),
        Keyboard::LeftShift => Some(0xe1u8),
        Keyboard::LeftAlt => Some(0xe2u8),
        Keyboard::LeftMeta => Some(0xe3u8),
        Keyboard::RightCtrl => Some(0xe4u8),
        Keyboard::RightShift => Some(0xe5u8),
        Keyboard::RightAlt => Some(0xe6u8),
        Keyboard::RightMeta => Some(0xe7u8),
        _ => None,
    }
}

/// What Windows makes of a key or button; `None` where it has nothing for it.
pub fn native_key(key: Key) -> (native: Option<NativeKey>)
    ensures
        native == native_key_of(key),
{
    match key {
        Key::Key(key) => {
            match key {
                Keyboard::Mute => {
                    return Some(NativeKey::Consumer { virtual_key: VK_VOLUME_MUTE, mask: 0x01 });
                },
                Keyboard::VolumeDown => {
                    return Some(NativeKey::Consumer { virtual_key: VK_VOLUME_DOWN, mask: 0x02 });
                },
                Keyboard::VolumeUp => {
                    return Some(NativeKey::Consumer { virtual_key: VK_VOLUME_UP, mask: 0x04 });
                },
                Keyboard::Power => {
                    return Some(NativeKey::System { mask: 0x01 });
                },
                _ => {},
            }
            match (scan_code(key), hid_usage(key)) {
                (Some((scan_code, extended)), Some(hid_usage)) => Some(
                    NativeKey::Keyboard { scan_code, extended, hid_usage },
                ),
                _ => None,
            }
        },
        Key::Button(button) => match button {
            Button::Left | Button::Right | Button::Middle => Some(NativeKey::Mouse(button)),
            Button::Side | Button::Back => Some(NativeKey::Mouse(Button::Side)),
            Button::Extra | Button::Forward => Some(NativeKey::Mouse(Button::Extra)),
            Button::Other(_) => None,
        },
    }
}

/// Whether a key repeats while it is held.
pub fn repeatable(key: Key) -> (repeats: bool)
    ensures
        repeats == is_repeatable(key),
{
    match key {
        Key::Button(_) => false,
        Key::Key(Keyboard::VolumeDown) | Key::Key(Keyboard::VolumeUp) => true,
        Key::Key(key) => match key {
            Keyboard::LeftCtrl | Keyboard::RightCtrl | Keyboard::LeftShift
            | Keyboard::RightShift | Keyboard::LeftAlt | Keyboard::RightAlt | Keyboard::LeftMeta
            | Keyboard::RightMeta | Keyboard::CapsLock | Keyboard::NumLock | Keyboard::ScrollLock
            | Keyboard::Appselect | Keyboard::ContextMenu | Keyboard::Menu | Keyboard::Mute
            => false,
            _ => scan_code(key).is_some(),
        },
    }
}

/// A key has a scan code exactly where it has a usage, so a key that one of
/// the two backends can send is never lost in the other.
pub proof fn codes_and_usages_cover_the_same_keys(key: Keyboard)
    ensures
        scan_code_of(key) is Some <==> hid_usage_of(key) is Some,
{
}

/// No usage is zero, the value of an empty place in a keyboard report, and the
/// usages from 0xe0 to 0xe7 are those of the modifiers.
pub proof fn usages_tell_modifiers_from_ordinary_keys(key: Keyboard)
    requires
        hid_usage_of(key) is Some,
    ensures
        hid_usage_of(key)->0 != 0,
        0xe0 <= hid_usage_of(key)->0 <= 0xe7 <==> is_modifier(key),
{
}

/// Two keys with one scan code are the same key or both menu keys.
pub proof fn scan_codes_are_distinct(a: Keyboard, b: Keyboard)
    requires
        scan_code_of(a) is Some,
        scan_code_of(a) == scan_code_of(b),
    ensures
        a == b || is_menu(a) && is_menu(b),
{
}

/// Two keys with one usage are the same key or both menu keys.
pub proof fn usages_are_distinct(a: Keyboard, b: Keyboard)
    requires
        hid_usage_of(a) is Some,
        hid_usage_of(a) == hid_usage_of(b),
    ensures
        a == b || is_menu(a) && is_menu(b),
{
}

/// Two inputs that Windows cannot tell apart are the same input, two menu
/// keys, or two names of one of the extra mouse buttons.
pub proof fn native_keys_are_distinct(a: Key, b: Key)
    requires
        native_key_of(a) is Some,
        native_key_of(a) == native_key_of(b),
    ensures
        match (a, b) {
            (Key::Key(a), Key::Key(b)) => a == b || is_menu(a) && is_menu(b),
            (Key::Button(a), Key::Button(b)) => a == b || {
                &&& button_of(a) == button_of(b)
                &&& button_of(a) == Some(Button::Side) || button_of(a) == Some(Button::Extra)
            },
            _ => false,
        },
{
    match (a, b) {
        (Key::Key(a), Key::Key(b)) => {
            if scan_code_of(a) is Some && scan_code_of(b) is Some {
                scan_codes_are_distinct(a, b);
            }
        },
        _ => {},
    }
}

/// Modifiers, lock keys, the mute and power keys and mouse buttons do not
/// repeat; the volume keys do; and whatever repeats is sent to Windows at all.
pub proof fn only_ordinary_keys_repeat(key: Keyboard, button: Button)
    ensures
        is_modifier(key) || is_lock(key) ==> !is_repeatable(Key::Key(key)),
        !is_repeatable(Key::Key(Keyboard::Mute)),
        !is_repeatable(Key::Key(Keyboard::Power)),
        !is_repeatable(Key::Button(button)),
        is_repeatable(Key::Key(Keyboard::VolumeUp)),
        is_repeatable(Key::Key(Keyboard::VolumeDown)),
        is_repeatable(Key::Key(key)) ==> native_key_of(Key::Key(key)) is Some,
{
}

} // verus!
