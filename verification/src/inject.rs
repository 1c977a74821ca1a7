//! What is injected on a Windows desktop: reports for the virtual HID driver
//! where it is there, and input structures for `SendInput` where it is not.
use vstd::prelude::*;

use crate::error::InputError;
use crate::event::{Button, Key, RelAxis};
use crate::hid::{
    hid_at_rest, key_steps, movement_reports, report_views, step_views, HidStep, HidView,
    VirtualHid,
};
use crate::keymap::{native_key_of, NativeKey};

verus! {

/// One notch of a wheel.
pub const WHEEL_DELTA: i32 = 120;

/// `KEYEVENTF_EXTENDEDKEY`.
pub const KEYEVENTF_EXTENDEDKEY: u32 = 0x0001;

/// `KEYEVENTF_KEYUP`.
pub const KEYEVENTF_KEYUP: u32 = 0x0002;

/// `KEYEVENTF_SCANCODE`.
pub const KEYEVENTF_SCANCODE: u32 = 0x0008;

/// `MOUSEEVENTF_MOVE`.
pub const MOUSEEVENTF_MOVE: u32 = 0x0001;

/// `MOUSEEVENTF_LEFTDOWN`.
pub const MOUSEEVENTF_LEFTDOWN: u32 = 0x0002;

/// `MOUSEEVENTF_LEFTUP`.
pub const MOUSEEVENTF_LEFTUP: u32 = 0x0004;

/// `MOUSEEVENTF_RIGHTDOWN`.
pub const MOUSEEVENTF_RIGHTDOWN: u32 = 0x0008;

/// `MOUSEEVENTF_RIGHTUP`.
pub const MOUSEEVENTF_RIGHTUP: u32 = 0x0010;

/// `MOUSEEVENTF_MIDDLEDOWN`.
pub const MOUSEEVENTF_MIDDLEDOWN: u32 = 0x0020;

/// `MOUSEEVENTF_MIDDLEUP`.
pub const MOUSEEVENTF_MIDDLEUP: u32 = 0x0040;

/// `MOUSEEVENTF_XDOWN`.
pub const MOUSEEVENTF_XDOWN: u32 = 0x0080;

/// `MOUSEEVENTF_XUP`.
pub const MOUSEEVENTF_XUP: u32 = 0x0100;

/// `MOUSEEVENTF_WHEEL`.
pub const MOUSEEVENTF_WHEEL: u32 = 0x0800;

/// `MOUSEEVENTF_HWHEEL`.
pub const MOUSEEVENTF_HWHEEL: u32 = 0x1000;

/// `XBUTTON1`.
pub const XBUTTON1: u32 = 0x0001;

/// `XBUTTON2`.
pub const XBUTTON2: u32 = 0x0002;

/// An `INPUT` structure: a `KEYBDINPUT` or a `MOUSEINPUT` whose time and extra
/// information are zero.
#[derive(Clone, Copy, Debug, PartialEq, Eq, Structural)]
pub enum RawInput {
    Keyboard { virtual_key: u16, scan_code: u16, flags: u32 },
    Mouse { dx: i32, dy: i32, data: u32, flags: u32 },
}

/// The flags and data with which a mouse button is sent, if it can be.
pub open spec fn mouse_button_of(button: Button, down: bool) -> Option<(u32, u32)> {
    match button {
        Button::Left => Some(
            (
                if down {
                    MOUSEEVENTF_LEFTDOWN
                } else {
                    MOUSEEVENTF_LEFTUP
                },
                0,
            ),
        ),
        Button::Right => Some(
            (
                if down {
                    MOUSEEVENTF_RIGHTDOWN
                } else {
                    MOUSEEVENTF_RIGHTUP
                },
                0,
            ),
        ),
        Button::Middle => Some(
            (
                if down {
                    MOUSEEVENTF_MIDDLEDOWN
                } else {
                    MOUSEEVENTF_MIDDLEUP
                },
                0,
            ),
        ),
        Button::Side | Button::Back => Some(
            (
                if down {
                    MOUSEEVENTF_XDOWN
                } else {
                    MOUSEEVENTF_XUP
                },
                XBUTTON1,
            ),
        ),
        Button::Extra | Button::Forward => Some(
            (
                if down {
                    MOUSEEVENTF_XDOWN
                } else {
                    MOUSEEVENTF_XUP
                },
                XBUTTON2,
            ),
        ),
        Button::Other(_) => None,
    }
}

/// Whether a key is one that `native_key` can give: a mouse button has to be
/// one that Windows knows.
pub open spec fn is_normalized(key: NativeKey) -> bool {
    key matches NativeKey::Mouse(button) ==> mouse_button_of(button, true) is Some
}

/// The flag that tells a release from a press.
pub open spec fn key_up_flag(down: bool) -> u32 {
    if down {
        0
    } else {
        KEYEVENTF_KEYUP
    }
}

/// The input structure that takes a key down or up. `SendInput` has none for
/// the power control.
pub open spec fn key_input_of(key: NativeKey, down: bool) -> Option<RawInput> {
    match key {
        NativeKey::Consumer { virtual_key, .. } => Some(
            RawInput::Keyboard { virtual_key, scan_code: 0, flags: key_up_flag(down) },
        ),
        NativeKey::Keyboard { scan_code, extended, .. } => Some(
            RawInput::Keyboard {
                virtual_key: 0,
                scan_code,
                flags: KEYEVENTF_SCANCODE | (if extended {
                    KEYEVENTF_EXTENDEDKEY
                } else {
                    0
                }) | key_up_flag(down),
            },
        ),
        NativeKey::System { .. } => None,
        NativeKey::Mouse(button) => match mouse_button_of(button, down) {
            Some((flags, data)) => Some(RawInput::Mouse { dx: 0, dy: 0, data, flags }),
            None => None,
        },
    }
}

/// A number of wheel notches as wheel data: in units of a notch's size, held
/// within the range of the signed field, in two's complement.
pub open spec fn wheel_data(notches: int) -> u32 {
    let amount = notches * WHEEL_DELTA;
    if amount > i32::MAX {
        i32::MAX as u32
    } else if amount < i32::MIN {
        (i32::MIN + 0x1_0000_0000) as u32
    } else if amount < 0 {
        (amount + 0x1_0000_0000) as u32
    } else {
        amount as u32
    }
}

/// The input structure that moves an axis, if `SendInput` has one.
pub open spec fn relative_input_of(axis: RelAxis, value: i32) -> Option<RawInput> {
    match axis {
        RelAxis::X => Some(
            RawInput::Mouse { dx: value, dy: 0, data: 0, flags: MOUSEEVENTF_MOVE },
        ),
        RelAxis::Y => Some(
            RawInput::Mouse { dx: 0, dy: value, data: 0, flags: MOUSEEVENTF_MOVE },
        ),
        RelAxis::Wheel => Some(
            RawInput::Mouse {
                dx: 0,
                dy: 0,
                data: wheel_data(value as int),
                flags: MOUSEEVENTF_WHEEL,
            },
        ),
        RelAxis::HWheel => Some(
            RawInput::Mouse {
                dx: 0,
                dy: 0,
                data: wheel_data(value as int),
                flags: MOUSEEVENTF_HWHEEL,
            },
        ),
        _ => None,
    }
}

/// The flags and data with which a mouse button is sent, if it can be.
pub fn mouse_button(button: Button, down: bool) -> (sent: Option<(u32, u32)>)
    ensures
        sent == mouse_button_of(button, down),
{
    let flags: u32 = match button {
        Button::Left => if down {
            MOUSEEVENTF_LEFTDOWN
        } else {
            MOUSEEVENTF_LEFTUP
        },
        Button::Right => if down {
            MOUSEEVENTF_RIGHTDOWN
        } else {
            MOUSEEVENTF_RIGHTUP
        },
        Button::Middle => if down {
            MOUSEEVENTF_MIDDLEDOWN
        } else {
            MOUSEEVENTF_MIDDLEUP
        },
        Button::Side | Button::Back | Button::Extra | Button::Forward => if down {
            MOUSEEVENTF_XDOWN
        } else {
            MOUSEEVENTF_XUP
        },
        Button::Other(_) => {
            return None;
        },
    };
    let data: u32 = match button {
        Button::Side | Button::Back => XBUTTON1,
        Button::Extra | Button::Forward => XBUTTON2,
        _ => 0,
    };
    Some((flags, data))
}

/// The input structure that takes a key down or up; `None` for the power
/// control, which `SendInput` cannot send.
pub fn key_input(key: NativeKey, down: bool) -> (input: Option<RawInput>)
    requires
        is_normalized(key),
    ensures
        input == key_input_of(key, down),
        input is None <==> key is System,
{
    match key {
        NativeKey::Consumer { virtual_key, .. } => Some(
            RawInput::Keyboard {
                virtual_key,
                scan_code: 0,
                flags: if down {
                    0
                } else {
                    KEYEVENTF_KEYUP
                },
            },
        ),
        NativeKey::Keyboard { scan_code, extended, .. } => {
            let extended_flag: u32 = if extended {
                KEYEVENTF_EXTENDEDKEY
            } else {
                0
            };
            let up_flag: u32 = if down {
                0
            } else {
                KEYEVENTF_KEYUP
            };
            Some(
                RawInput::Keyboard {
                    virtual_key: 0,
                    scan_code,
                    flags: KEYEVENTF_SCANCODE | extended_flag | up_flag,
                },
            )
        },
        NativeKey::System { .. } => None,
        NativeKey::Mouse(button) => match mouse_button(button, down) {
            Some((flags, data)) => Some(RawInput::Mouse { dx: 0, dy: 0, data, flags }),
            None => None,
        },
    }
}

/// The input structure that moves an axis. Linux may report high-resolution
/// wheel events in addition to the legacy ones; ignoring these avoids
/// scrolling twice.
pub fn relative_input(axis: RelAxis, value: i32) -> (input: Option<RawInput>)
    ensures
        input == relative_input_of(axis, value),
{
    match axis {
        RelAxis::X => Some(RawInput::Mouse { dx: value, dy: 0, data: 0, flags: MOUSEEVENTF_MOVE }),
        RelAxis::Y => Some(RawInput::Mouse { dx: 0, dy: value, data: 0, flags: MOUSEEVENTF_MOVE }),
        RelAxis::Wheel => Some(
            RawInput::Mouse { dx: 0, dy: 0, data: scale_wheel(value), flags: MOUSEEVENTF_WHEEL },
        ),
        RelAxis::HWheel => Some(
            RawInput::Mouse { dx: 0, dy: 0, data: scale_wheel(value), flags: MOUSEEVENTF_HWHEEL },
        ),
        _ => None,
    }
}

fn scale_wheel(notches: i32) -> (data: u32)
    ensures
        data == wheel_data(notches as int),
{
    let wide: i64 = notches as i64 * WHEEL_DELTA as i64;
    let amount: i32 = if wide > i32::MAX as i64 {
        i32::MAX
    } else if wide < i32::MIN as i64 {
        i32::MIN
    } else {
        wide as i32
    };
    assert(amount >= 0 ==> amount as u32 == amount) by (bit_vector);
    assert(amount < 0 ==> amount as u32 == amount + 0x1_0000_0000) by (bit_vector);
    amount as u32
}

/// What came of a call of `SendInput`, from how many of the events it took and the
/// error number that the system then holds.
pub open spec fn write_outcome(written: usize, expected: usize, os_error: i32) -> Result<
    (),
    InputError,
> {
    if written == expected {
        Ok(())
    } else if written == 0 && os_error != 0 {
        Err(InputError::Os { code: os_error })
    } else if written == 0 {
        Err(InputError::Rejected)
    } else {
        Err(InputError::Partial { written, expected })
    }
}

/// What `SendInput` has to say: how many of the events it took, and the error
/// number that the system then holds.
///
/// Input can be rejected without any error number being set; that is never
/// reported as a success.
pub fn write_raw_result(written: usize, expected: usize, os_error: i32) -> (result: Result<
    (),
    InputError,
>)
    ensures
        result == write_outcome(written, expected, os_error),
{
    if written == expected {
        return Ok(());
    }
    if written == 0 {
        if os_error != 0 {
            return Err(InputError::Os { code: os_error });
        }
        return Err(InputError::Rejected);
    }
    Err(InputError::Partial { written, expected })
}

/// How a key is to be injected.
#[derive(Debug)]
pub enum Injection {
    /// Submit these reports one after the other.
    Hid(Vec<HidStep>),
    /// Send this structure.
    Raw(RawInput),
    /// Send nothing: the desktop has no way to take this key.
    Ignored,
}

/// How a movement is to be injected.
#[derive(Debug)]
pub enum Motion {
    /// Submit these reports one after the other.
    Hid(Vec<Vec<u8>>),
    /// Send this structure.
    Raw(RawInput),
    /// Send nothing: the desktop has no such axis.
    Ignored,
}

/// How a key is to be taken down or up on a desktop, with or without the driver.
pub open spec fn key_injected(
    sink: Option<HidView>,
    key: NativeKey,
    down: bool,
    injection: Result<Injection, InputError>,
) -> bool {
    match sink {
        Some(hid) => match key_steps(hid, key, down) {
            Some(expected) => injection matches Ok(Injection::Hid(steps)) && step_views(steps@)
                == expected,
            None => injection == Err::<Injection, InputError>(InputError::TooManyKeys),
        },
        None => match key_input_of(key, down) {
            Some(input) => injection == Ok::<Injection, InputError>(Injection::Raw(input)),
            None => injection == Ok::<Injection, InputError>(Injection::Ignored),
        },
    }
}

/// How an axis is to be moved on a desktop, with or without the driver.
pub open spec fn axis_moved(
    sink: Option<HidView>,
    axis: RelAxis,
    value: i32,
    motion: Motion,
) -> bool {
    match sink {
        Some(hid) => motion matches Motion::Hid(reports) && report_views(reports@)
            == movement_reports(hid.buttons, axis, value as int),
        None => match relative_input_of(axis, value) {
            Some(input) => motion == Motion::Raw(input),
            None => motion == Motion::Ignored,
        },
    }
}

/// The backend of a Windows desktop. The virtual HID driver is preferred where
/// it could be opened.
#[derive(Debug)]
pub struct WindowsSink {
    virtual_hid: Option<VirtualHid>,
}

impl View for WindowsSink {
    type V = Option<HidView>;

    closed spec fn view(&self) -> Option<HidView> {
        match self.virtual_hid {
            Some(hid) => Some(hid@),
            None => None,
        }
    }
}

impl WindowsSink {
    /// A backend at rest, with or without the driver.
    pub fn new(driver: bool) -> (sink: Self)
        ensures
            sink@ == if driver {
                Some(hid_at_rest())
            } else {
                None
            },
    {
        if driver {
            WindowsSink { virtual_hid: Some(VirtualHid::new()) }
        } else {
            WindowsSink { virtual_hid: None }
        }
    }

    /// How to take a key down or up.
    pub fn key(&self, key: NativeKey, down: bool) -> (injection: Result<Injection, InputError>)
        requires
            self@ is None ==> is_normalized(key),
        ensures
            key_injected(self@, key, down, injection),
    {
        match &self.virtual_hid {
            Some(hid) => match hid.key(key, down) {
                Ok(steps) => Ok(Injection::Hid(steps)),
                Err(error) => Err(error),
            },
            None => match key_input(key, down) {
                Some(input) => Ok(Injection::Raw(input)),
                None => Ok(Injection::Ignored),
            },
        }
    }

    /// How to move an axis.
    pub fn relative(&self, axis: RelAxis, value: i32) -> (motion: Motion)
        ensures
            axis_moved(self@, axis, value, motion),
    {
        match &self.virtual_hid {
            Some(hid) => Motion::Hid(hid.relative(axis, value)),
            None => match relative_input(axis, value) {
                Some(input) => Motion::Raw(input),
                None => Motion::Ignored,
            },
        }
    }

    /// Take note that the driver has accepted the report of a step.
    pub fn accepted(&mut self, step: &HidStep)
        requires
            old(self)@ is Some,
        ensures
            final(self)@ == Some(step@.1),
    {
        self.virtual_hid = Some(step.after);
    }
}

/// Every key that `native_key` gives can be sent.
pub proof fn native_keys_are_normalized(key: Key)
    ensures
        native_key_of(key) matches Some(native) ==> is_normalized(native),
{
}

/// The release of a key names the same key as its press did and differs in the
/// key-up flag alone.
pub proof fn releases_name_the_pressed_key(key: NativeKey)
    requires
        key is Keyboard || key is Consumer,
    ensures
        match (key_input_of(key, true), key_input_of(key, false)) {
            (
                Some(RawInput::Keyboard { virtual_key: down_key, scan_code: down_code, flags: down }),
                Some(RawInput::Keyboard { virtual_key: up_key, scan_code: up_code, flags: up }),
            ) => down_key == up_key && down_code == up_code && down & KEYEVENTF_KEYUP == 0 && up
                == down | KEYEVENTF_KEYUP,
            _ => false,
        },
{
    assert(0u32 & 2u32 == 0 && (0u32 | 2u32) == 2u32) by (bit_vector);
    assert(forall|extended: u32|
        (extended == 0 || extended == 1) ==> (#[trigger] (8u32 | extended) | 0u32) & 2u32 == 0 && (
        8u32 | extended | 2u32) == ((8u32 | extended | 0u32) | 2u32)) by (bit_vector);
}

/// What the flags of a key say: that it is sent by its scan code, whether it takes
/// the extended prefix, and whether it goes up. A control is sent by its virtual
/// key instead.
pub proof fn flags_of_keys(key: NativeKey, down: bool)
    ensures
        match key {
            NativeKey::Keyboard { scan_code, extended, .. } => key_input_of(key, down) == Some(
                RawInput::Keyboard {
                    virtual_key: 0,
                    scan_code,
                    flags: (8 + (if extended {
                        1int
                    } else {
                        0int
                    }) + (if down {
                        0int
                    } else {
                        2int
                    })) as u32,
                },
            ),
            NativeKey::Consumer { virtual_key, .. } => key_input_of(key, down) == Some(
                RawInput::Keyboard {
                    virtual_key,
                    scan_code: 0,
                    flags: if down {
                        0
                    } else {
                        2
                    },
                },
            ),
            NativeKey::System { .. } => key_input_of(key, down) is None,
            NativeKey::Mouse(_) => key_input_of(key, down) matches Some(input) ==> input matches
                RawInput::Mouse { dx, dy, .. } && dx == 0 && dy == 0,
        },
{
    assert(8u32 | 0u32 | 0u32 == 8u32 && 8u32 | 1u32 | 0u32 == 9u32 && 8u32 | 0u32 | 2u32 == 10u32
        && 8u32 | 1u32 | 2u32 == 11u32) by (bit_vector);
}

/// The number that wheel data stands for, read as a signed field.
pub open spec fn signed_data(data: u32) -> int {
    if data < 0x8000_0000 {
        data as int
    } else {
        data - 0x1_0000_0000
    }
}

/// A movement moves what it names by its amount and nothing else: horizontal
/// movements the pointer sideways, vertical ones up or down, and the two wheels
/// by notches of 120, or as far as the field goes.
pub proof fn movements_move_one_axis(axis: RelAxis, value: i32)
    ensures
        relative_input_of(axis, value) matches Some(input) ==> {
            &&& input matches RawInput::Mouse { dx, dy, data, flags }
            &&& dx == if axis == RelAxis::X {
                value
            } else {
                0
            }
            &&& dy == if axis == RelAxis::Y {
                value
            } else {
                0
            }
            &&& flags == 0x0001 <==> axis == RelAxis::X || axis == RelAxis::Y
            &&& flags == 0x0800 <==> axis == RelAxis::Wheel
            &&& flags == 0x1000 <==> axis == RelAxis::HWheel
            &&& axis == RelAxis::X || axis == RelAxis::Y ==> data == 0
            &&& axis == RelAxis::Wheel || axis == RelAxis::HWheel ==> {
                &&& i32::MIN <= value * 120 <= i32::MAX ==> signed_data(data) == value * 120
                &&& value * 120 > i32::MAX ==> signed_data(data) == i32::MAX
                &&& value * 120 < i32::MIN ==> signed_data(data) == i32::MIN
            }
        },
        relative_input_of(axis, value) is None <==> axis != RelAxis::X && axis != RelAxis::Y && axis
            != RelAxis::Wheel && axis != RelAxis::HWheel,
{
}

/// Two movements that are sent alike are the same movement, but for a wheel that
/// turns further than the field goes.
pub proof fn movements_are_told_apart(a: RelAxis, b: RelAxis, value_a: i32, value_b: i32)
    requires
        relative_input_of(a, value_a) is Some,
        relative_input_of(a, value_a) == relative_input_of(b, value_b),
    ensures
        a == b || value_a == 0 && value_b == 0,
        value_a == value_b || value_a * 120 > i32::MAX || value_a * 120 < i32::MIN,
{
    movements_move_one_axis(a, value_a);
    movements_move_one_axis(b, value_b);
}

/// An input counts as taken only where Windows took all of it: a system that took
/// less reports a failure, with its own error number if it gave one.
pub proof fn only_complete_writes_succeed(written: usize, expected: usize, os_error: i32)
    ensures
        write_outcome(written, expected, os_error) is Ok <==> written == expected,
        written != expected && written == 0 && os_error != 0 ==> write_outcome(
            written,
            expected,
            os_error,
        ) == Err::<(), InputError>(InputError::Os { code: os_error }),
        written != expected && written == 0 && os_error == 0 ==> write_outcome(
            written,
            expected,
            os_error,
        ) == Err::<(), InputError>(InputError::Rejected),
        written != expected && written != 0 ==> write_outcome(written, expected, os_error) == Err::<
            (),
            InputError,
        >(InputError::Partial { written, expected }),
{
}

/// Where the virtual driver is there everything goes through it, and where it is not
/// everything goes through `SendInput`; what that cannot send is left out, and only a
/// key too many is refused.
pub proof fn one_backend_takes_everything(
    sink: Option<HidView>,
    key: NativeKey,
    down: bool,
    injection: Result<Injection, InputError>,
    axis: RelAxis,
    value: i32,
    motion: Motion,
)
    ensures
        key_injected(sink, key, down, injection) ==> match injection {
            Ok(Injection::Hid(steps)) => sink is Some && key_steps(sink->0, key, down) == Some(
                step_views(steps@),
            ),
            Ok(Injection::Raw(input)) => sink is None && key_input_of(key, down) == Some(input),
            Ok(Injection::Ignored) => sink is None && key_input_of(key, down) is None,
            Err(error) => sink is Some && key_steps(sink->0, key, down) is None && error
                == InputError::TooManyKeys,
        },
        axis_moved(sink, axis, value, motion) ==> match motion {
            Motion::Hid(reports) => sink is Some && report_views(reports@) == movement_reports(
                (sink->0).buttons,
                axis,
                value as int,
            ),
            Motion::Raw(input) => sink is None && relative_input_of(axis, value) == Some(input),
            Motion::Ignored => sink is None && relative_input_of(axis, value) is None,
        },
{
}

} // verus!
