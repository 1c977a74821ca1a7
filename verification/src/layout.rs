//! Where the keys and buttons of a remote device are found on a Windows client.
//!
//! Set 1 scan codes number the keys of a keyboard row by row, as they lie on it;
//! the HID keyboard page lists them by meaning. The laws here hold the two tables
//! and the mouse buttons to these orders.
use vstd::prelude::*;

use crate::event::{Button, Key, Keyboard};
use crate::hid::mouse_bit_of;
use crate::inject::{key_input_of, mouse_button_of};
use crate::keymap::{
    button_of, hid_usage_of, is_repeatable, native_key_of, scan_code_of, NativeKey,
};

verus! {

/// The top row of a keyboard, from Escape to Backspace.
pub open spec fn number_row() -> Seq<Keyboard> {
    seq![
        Keyboard::Esc,
        Keyboard::N1,
        Keyboard::N2,
        Keyboard::N3,
        Keyboard::N4,
        Keyboard::N5,
        Keyboard::N6,
        Keyboard::N7,
        Keyboard::N8,
        Keyboard::N9,
        Keyboard::N0,
        Keyboard::Minus,
        Keyboard::Equal,
        Keyboard::Backspace,
    ]
}

/// The row from Tab to Enter.
pub open spec fn upper_row() -> Seq<Keyboard> {
    seq![
        Keyboard::Tab,
        Keyboard::Q,
        Keyboard::W,
        Keyboard::E,
        Keyboard::R,
        Keyboard::T,
        Keyboard::Y,
        Keyboard::U,
        Keyboard::I,
        Keyboard::O,
        Keyboard::P,
        Keyboard::LeftBrace,
        Keyboard::RightBrace,
        Keyboard::Enter,
    ]
}

/// The row from the left control key to the grave accent.
pub open spec fn home_row() -> Seq<Keyboard> {
    seq![
        Keyboard::LeftCtrl,
        Keyboard::A,
        Keyboard::S,
        Keyboard::D,
        Keyboard::F,
        Keyboard::G,
        Keyboard::H,
        Keyboard::J,
        Keyboard::K,
        Keyboard::L,
        Keyboard::Semicolon,
        Keyboard::Apostrophe,
        Keyboard::Grave,
    ]
}

/// The row from the left to the right shift key.
pub open spec fn lower_row() -> Seq<Keyboard> {
    seq![
        Keyboard::LeftShift,
        Keyboard::Backslash,
        Keyboard::Z,
        Keyboard::X,
        Keyboard::C,
        Keyboard::V,
        Keyboard::B,
        Keyboard::N,
        Keyboard::M,
        Keyboard::Comma,
        Keyboard::Dot,
        Keyboard::Slash,
        Keyboard::RightShift,
    ]
}

/// The bottom row and the function keys, from the asterisk of the keypad to the
/// locks.
pub open spec fn function_row() -> Seq<Keyboard> {
    seq![
        Keyboard::KpAsterisk,
        Keyboard::LeftAlt,
        Keyboard::Space,
        Keyboard::CapsLock,
        Keyboard::F1,
        Keyboard::F2,
        Keyboard::F3,
        Keyboard::F4,
        Keyboard::F5,
        Keyboard::F6,
        Keyboard::F7,
        Keyboard::F8,
        Keyboard::F9,
        Keyboard::F10,
        Keyboard::NumLock,
        Keyboard::ScrollLock,
    ]
}

/// The keypad, row by row.
pub open spec fn keypad() -> Seq<Keyboard> {
    seq![
        Keyboard::Kp7,
        Keyboard::Kp8,
        Keyboard::Kp9,
        Keyboard::KpMinus,
        Keyboard::Kp4,
        Keyboard::Kp5,
        Keyboard::Kp6,
        Keyboard::KpPlus,
        Keyboard::Kp1,
        Keyboard::Kp2,
        Keyboard::Kp3,
        Keyboard::Kp0,
        Keyboard::KpDot,
    ]
}

/// Some keys have consecutive scan codes, without the extended prefix.
pub open spec fn codes_run_on(keys: Seq<Keyboard>, first: int) -> bool {
    forall|i: int|
        0 <= i < keys.len() ==> scan_code_of(#[trigger] keys[i]) == Some(
            ((first + i) as u16, false),
        )
}

/// Scan codes number the keys of a keyboard from one on, row by row, so that no
/// key is taken for another.
pub proof fn scan_codes_number_the_rows()
    ensures
        codes_run_on(number_row(), 0x01),
        codes_run_on(upper_row(), 0x0f),
        codes_run_on(home_row(), 0x1d),
        codes_run_on(lower_row(), 0x2a),
        codes_run_on(function_row(), 0x37),
        codes_run_on(keypad(), 0x47),
        codes_run_on(seq![Keyboard::F11, Keyboard::F12], 0x57),
{
}

/// A key has the scan code of another and differs from it in the extended prefix
/// alone.
pub open spec fn extends(key: Keyboard, twin: Keyboard) -> bool {
    &&& scan_code_of(twin) matches Some((code, extended)) && !extended
    &&& scan_code_of(key) == Some(((scan_code_of(twin)->0).0, true))
}

/// The keys that came later have the codes of their twins: the right modifiers
/// those of the left ones, the second Enter and Slash those of the first, and the
/// navigation keys those of the keypad keys that they can be typed with.
pub proof fn later_keys_extend_their_twins()
    ensures
        extends(Keyboard::RightCtrl, Keyboard::LeftCtrl),
        extends(Keyboard::RightAlt, Keyboard::LeftAlt),
        extends(Keyboard::KpEnter, Keyboard::Enter),
        extends(Keyboard::KpSlash, Keyboard::Slash),
        extends(Keyboard::Home, Keyboard::Kp7),
        extends(Keyboard::Up, Keyboard::Kp8),
        extends(Keyboard::PageUp, Keyboard::Kp9),
        extends(Keyboard::Left, Keyboard::Kp4),
        extends(Keyboard::Right, Keyboard::Kp6),
        extends(Keyboard::End, Keyboard::Kp1),
        extends(Keyboard::Down, Keyboard::Kp2),
        extends(Keyboard::PageDown, Keyboard::Kp3),
        extends(Keyboard::Insert, Keyboard::Kp0),
        extends(Keyboard::Delete, Keyboard::KpDot),
        scan_code_of(Keyboard::LeftMeta) == Some((0x5bu16, true)),
        scan_code_of(Keyboard::RightMeta) == Some((0x5cu16, true)),
        scan_code_of(Keyboard::Menu) == Some((0x5du16, true)),
        scan_code_of(Keyboard::ContextMenu) == scan_code_of(Keyboard::Menu),
        scan_code_of(Keyboard::Appselect) == scan_code_of(Keyboard::Menu),
{
}

/// The letters in alphabetical order.
pub open spec fn alphabet() -> Seq<Keyboard> {
    seq![
        Keyboard::A,
        Keyboard::B,
        Keyboard::C,
        Keyboard::D,
        Keyboard::E,
        Keyboard::F,
        Keyboard::G,
        Keyboard::H,
        Keyboard::I,
        Keyboard::J,
        Keyboard::K,
        Keyboard::L,
        Keyboard::M,
        Keyboard::N,
        Keyboard::O,
        Keyboard::P,
        Keyboard::Q,
        Keyboard::R,
        Keyboard::S,
        Keyboard::T,
        Keyboard::U,
        Keyboard::V,
        Keyboard::W,
        Keyboard::X,
        Keyboard::Y,
        Keyboard::Z,
    ]
}

/// The digits, and the keys that the keyboard page lists behind them.
pub open spec fn digits_and_controls() -> Seq<Keyboard> {
    seq![
        Keyboard::N1,
        Keyboard::N2,
        Keyboard::N3,
        Keyboard::N4,
        Keyboard::N5,
        Keyboard::N6,
        Keyboard::N7,
        Keyboard::N8,
        Keyboard::N9,
        Keyboard::N0,
        Keyboard::Enter,
        Keyboard::Esc,
        Keyboard::Backspace,
        Keyboard::Tab,
        Keyboard::Space,
        Keyboard::Minus,
        Keyboard::Equal,
        Keyboard::LeftBrace,
        Keyboard::RightBrace,
        Keyboard::Backslash,
    ]
}

/// The other marks, Caps Lock and the function keys.
pub open spec fn marks_and_functions() -> Seq<Keyboard> {
    seq![
        Keyboard::Semicolon,
        Keyboard::Apostrophe,
        Keyboard::Grave,
        Keyboard::Comma,
        Keyboard::Dot,
        Keyboard::Slash,
        Keyboard::CapsLock,
        Keyboard::F1,
        Keyboard::F2,
        Keyboard::F3,
        Keyboard::F4,
        Keyboard::F5,
        Keyboard::F6,
        Keyboard::F7,
        Keyboard::F8,
        Keyboard::F9,
        Keyboard::F10,
        Keyboard::F11,
        Keyboard::F12,
    ]
}

/// The navigation keys and the keypad as the keyboard page lists them.
pub open spec fn navigation_and_keypad() -> Seq<Keyboard> {
    seq![
        Keyboard::Insert,
        Keyboard::Home,
        Keyboard::PageUp,
        Keyboard::Delete,
        Keyboard::End,
        Keyboard::PageDown,
        Keyboard::Right,
        Keyboard::Left,
        Keyboard::Down,
        Keyboard::Up,
        Keyboard::NumLock,
        Keyboard::KpSlash,
        Keyboard::KpAsterisk,
        Keyboard::KpMinus,
        Keyboard::KpPlus,
        Keyboard::KpEnter,
        Keyboard::Kp1,
        Keyboard::Kp2,
        Keyboard::Kp3,
        Keyboard::Kp4,
        Keyboard::Kp5,
        Keyboard::Kp6,
        Keyboard::Kp7,
        Keyboard::Kp8,
        Keyboard::Kp9,
        Keyboard::Kp0,
        Keyboard::KpDot,
    ]
}

/// The modifiers as the keyboard page lists them.
pub open spec fn modifiers() -> Seq<Keyboard> {
    seq![
        Keyboard::LeftCtrl,
        Keyboard::LeftShift,
        Keyboard::LeftAlt,
        Keyboard::LeftMeta,
        Keyboard::RightCtrl,
        Keyboard::RightShift,
        Keyboard::RightAlt,
        Keyboard::RightMeta,
    ]
}

/// Some keys have consecutive usages.
pub open spec fn usages_run_on(keys: Seq<Keyboard>, first: int) -> bool {
    forall|i: int|
        0 <= i < keys.len() ==> hid_usage_of(#[trigger] keys[i]) == Some((first + i) as u8)
}

/// Usages list the keys by meaning: the letters by the alphabet, the digits by
/// value, the keypad and the modifiers in their order.
pub proof fn usages_list_the_keys_by_meaning()
    ensures
        usages_run_on(alphabet(), 0x04),
        usages_run_on(digits_and_controls(), 0x1e),
        usages_run_on(marks_and_functions(), 0x33),
        usages_run_on(seq![Keyboard::ScrollLock], 0x47),
        usages_run_on(navigation_and_keypad(), 0x49),
        usages_run_on(seq![Keyboard::Menu], 0x65),
        usages_run_on(modifiers(), 0xe0),
        hid_usage_of(Keyboard::ContextMenu) == hid_usage_of(Keyboard::Menu),
        hid_usage_of(Keyboard::Appselect) == hid_usage_of(Keyboard::Menu),
{
}

/// A key of a keyboard is sent under its scan code and its usage; only the keys
/// for volume, power and pause and those that this client knows by number alone
/// have neither.
pub proof fn keys_are_sent_under_both_codes(key: Keyboard)
    ensures
        match key {
            Keyboard::Pause | Keyboard::Other(_) => native_key_of(Key::Key(key)) is None,
            Keyboard::Mute | Keyboard::VolumeDown | Keyboard::VolumeUp => native_key_of(
                Key::Key(key),
            ) matches Some(NativeKey::Consumer { .. }),
            Keyboard::Power => native_key_of(Key::Key(key)) matches Some(NativeKey::System { .. }),
            _ => native_key_of(Key::Key(key)) matches Some(
                NativeKey::Keyboard { scan_code, extended, hid_usage },
            ) && scan_code_of(key) == Some((scan_code, extended)) && hid_usage_of(key) == Some(
                hid_usage,
            ),
        },
{
}

/// The volume keys and the power key are sent as controls of their own: mute,
/// down and up under consecutive virtual keys and bits, and power as a system
/// control, which is no consumer control.
pub proof fn controls_have_a_bit_each()
    ensures
        native_key_of(Key::Key(Keyboard::Mute)) == Some(
            NativeKey::Consumer { virtual_key: 0xad, mask: 1 },
        ),
        native_key_of(Key::Key(Keyboard::VolumeDown)) == Some(
            NativeKey::Consumer { virtual_key: 0xae, mask: 2 },
        ),
        native_key_of(Key::Key(Keyboard::VolumeUp)) == Some(
            NativeKey::Consumer { virtual_key: 0xaf, mask: 4 },
        ),
        native_key_of(Key::Key(Keyboard::Power)) == Some(NativeKey::System { mask: 1 }),
{
}

/// Every keyboard key that can be sent to Windows repeats while it is held,
/// unless it is a modifier, a lock key, a menu key, Mute or Power; and nothing
/// else repeats.
pub proof fn sent_keys_repeat_but_for_a_few(key: Keyboard, button: Button)
    ensures
        is_repeatable(Key::Key(key)) <==> native_key_of(Key::Key(key)) is Some && match key {
            Keyboard::LeftCtrl | Keyboard::RightCtrl => false,
            Keyboard::LeftShift | Keyboard::RightShift => false,
            Keyboard::LeftAlt | Keyboard::RightAlt => false,
            Keyboard::LeftMeta | Keyboard::RightMeta => false,
            Keyboard::CapsLock | Keyboard::NumLock | Keyboard::ScrollLock => false,
            Keyboard::Appselect | Keyboard::ContextMenu | Keyboard::Menu => false,
            Keyboard::Mute | Keyboard::Power => false,
            _ => true,
        },
        !is_repeatable(Key::Button(button)),
{
}

/// The main buttons stay what they are, the two names of each side button are one
/// button, and other buttons are not sent.
pub proof fn buttons_stay_what_they_are(button: Button)
    ensures
        match button {
            Button::Left | Button::Right | Button::Middle => native_key_of(Key::Button(button))
                == Some(NativeKey::Mouse(button)),
            Button::Side | Button::Back => native_key_of(Key::Button(button)) == native_key_of(
                Key::Button(Button::Side),
            ),
            Button::Extra | Button::Forward => native_key_of(Key::Button(button))
                == native_key_of(Key::Button(Button::Extra)),
            Button::Other(_) => native_key_of(Key::Button(button)) is None,
        },
        native_key_of(Key::Button(Button::Side)) == Some(NativeKey::Mouse(Button::Side)),
        native_key_of(Key::Button(Button::Extra)) == Some(NativeKey::Mouse(Button::Extra)),
{
}

/// The two backends number the buttons alike. The bit of a button in the mouse
/// report gives its place among the button flags of `SendInput`, each a pair of
/// down and up; the side buttons share the last pair and are told apart by their
/// number.
pub proof fn both_backends_number_the_buttons_alike(button: Button)
    ensures
        mouse_bit_of(button) is Some <==> native_key_of(Key::Button(button)) is Some,
        mouse_bit_of(button) is Some <==> mouse_button_of(button, true) is Some,
        mouse_bit_of(button) is Some <==> mouse_button_of(button, false) is Some,
        mouse_bit_of(button) matches Some(bit) ==> {
            let (down, number) = mouse_button_of(button, true)->0;
            let (up, number_up) = mouse_button_of(button, false)->0;
            &&& bit <= 4
            &&& up == 2 * down
            &&& number_up == number
            &&& down == if bit == 0 {
                0x02u32
            } else if bit == 1 {
                0x08u32
            } else if bit == 2 {
                0x20u32
            } else {
                0x80u32
            }
            &&& number == if bit < 3 {
                0
            } else {
                bit - 2
            }
        },
        mouse_bit_of(Button::Left) == Some(0u8),
        mouse_bit_of(Button::Right) == Some(1u8),
        mouse_bit_of(Button::Middle) == Some(2u8),
        mouse_bit_of(Button::Side) == Some(3u8),
        mouse_bit_of(Button::Extra) == Some(4u8),
        button_of(button) matches Some(other) ==> mouse_bit_of(other) == mouse_bit_of(button),
{
}

/// No two inputs that Windows tells apart are sent alike, neither pressed nor let
/// up, and no press is sent like a release.
pub proof fn inputs_are_told_apart(a: Key, b: Key, down_a: bool, down_b: bool)
    requires
        native_key_of(a) is Some,
        native_key_of(b) is Some,
        key_input_of(native_key_of(a)->0, down_a) is Some,
        key_input_of(native_key_of(a)->0, down_a) == key_input_of(native_key_of(b)->0, down_b),
    ensures
        native_key_of(a) == native_key_of(b),
        down_a == down_b,
{
    crate::inject::flags_of_keys(native_key_of(a)->0, down_a);
    crate::inject::flags_of_keys(native_key_of(b)->0, down_b);
    if let (Key::Key(one), Key::Key(other)) = (a, b) {
        if scan_code_of(one) is Some && scan_code_of(other) is Some && scan_code_of(one)
            == scan_code_of(other) {
            crate::keymap::scan_codes_are_distinct(one, other);
        }
    }
}

} // verus!
