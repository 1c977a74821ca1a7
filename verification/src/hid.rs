//! The reports of the virtual HID driver.
//!
//! The driver takes full-state reports, so the state that was last reported is
//! kept here. Writing a report may fail; a transition is therefore handed out
//! as steps, each a report to submit and the state that holds once it has been
//! accepted.
use vstd::prelude::*;

use crate::error::InputError;
use crate::event::{Button, RelAxis};
use crate::keymap::NativeKey;

verus! {

/// The report that carries modifiers and up to six ordinary keys.
pub const KEYBOARD_REPORT_ID: u8 = 1;

/// The report that carries mouse buttons and movement.
pub const MOUSE_REPORT_ID: u8 = 2;

/// The report that carries the volume controls.
pub const CONSUMER_REPORT_ID: u8 = 3;

/// The report that carries the power control.
pub const SYSTEM_REPORT_ID: u8 = 4;

/// `byte` with one of its bits set or cleared.
pub open spec fn with_bit(byte: u8, bit: u8, on: bool) -> u8 {
    if on {
        byte | (1u8 << bit)
    } else {
        byte & !(1u8 << bit)
    }
}

/// `byte` with the bits of a mask set or cleared.
pub open spec fn with_mask(byte: u8, mask: u8, on: bool) -> u8 {
    if on {
        (byte & !mask) | mask
    } else {
        byte & !mask
    }
}

/// The usages of the eight modifiers.
pub open spec fn is_modifier_usage(usage: u8) -> bool {
    0xe0 <= usage <= 0xe7
}

/// The modifiers and ordinary keys after a key has gone down or up; `None`
/// where it is a key too many. Zero marks a free place among the keys.
pub open spec fn keyboard_after(modifiers: u8, keys: Seq<u8>, usage: u8, down: bool) -> Option<
    (u8, Seq<u8>),
> {
    if is_modifier_usage(usage) {
        Some((with_bit(modifiers, (usage - 0xe0) as u8, down), keys))
    } else if down {
        if keys.contains(usage) {
            Some((modifiers, keys))
        } else {
            match keys.index_of_first(0) {
                Some(free) => Some((modifiers, keys.update(free, usage))),
                None => None,
            }
        }
    } else {
        match keys.index_of_first(usage) {
            Some(place) => Some((modifiers, keys.update(place, 0))),
            None => Some((modifiers, keys)),
        }
    }
}

/// The keyboard report for a state.
pub open spec fn keyboard_report_of(modifiers: u8, keys: Seq<u8>) -> Seq<u8> {
    seq![KEYBOARD_REPORT_ID, modifiers, 0u8] + keys
}

/// The bit of a mouse button in the mouse report.
pub open spec fn mouse_bit_of(button: Button) -> Option<u8> {
    match button {
        Button::Left => Some(0),
        Button::Right => Some(1),
        Button::Middle => Some(2),
        Button::Side | Button::Back => Some(3),
        Button::Extra | Button::Forward => Some(4),
        Button::Other(_) => None,
    }
}

/// A small signed number in two's complement.
pub open spec fn signed_byte(value: int) -> u8 {
    if value < 0 {
        (value + 256) as u8
    } else {
        value as u8
    }
}

/// The mouse report for a state, moving one axis where `delta` says so.
pub open spec fn mouse_report_of(buttons: u8, delta: Option<(int, int)>) -> Seq<u8> {
    let still = seq![MOUSE_REPORT_ID, buttons, 0u8, 0u8, 0u8, 0u8];
    match delta {
        Some((index, value)) => still.update(index, signed_byte(value)),
        None => still,
    }
}

/// Where the mouse report carries an axis, if it does.
pub open spec fn axis_index_of(axis: RelAxis) -> Option<int> {
    match axis {
        RelAxis::X => Some(2),
        RelAxis::Y => Some(3),
        RelAxis::Wheel => Some(4),
        RelAxis::HWheel => Some(5),
        _ => None,
    }
}

/// The largest part of a movement that one report can carry.
pub open spec fn clamped_delta(value: int) -> int {
    if value < -127 {
        -127
    } else if value > 127 {
        127
    } else {
        value
    }
}

/// The parts into which a movement is split, largest first.
pub open spec fn deltas(value: int) -> Seq<int>
    decreases
            if value < 0 {
                -value
            } else {
                value
            },
{
    if value == 0 {
        Seq::empty()
    } else {
        seq![clamped_delta(value)] + deltas(value - clamped_delta(value))
    }
}

/// The reports that move an axis; none for an axis that the report lacks.
pub open spec fn movement_reports(buttons: u8, axis: RelAxis, value: int) -> Seq<Seq<u8>> {
    match axis_index_of(axis) {
        Some(index) => deltas(value).map_values(
            |delta: int| mouse_report_of(buttons, Some((index, delta))),
        ),
        None => Seq::empty(),
    }
}

/// What the driver was last told.
#[verifier::ext_equal]
pub struct HidView {
    pub modifiers: u8,
    pub keys: Seq<u8>,
    pub buttons: u8,
    pub consumer_buttons: u8,
    pub system_buttons: u8,
}

/// A report and the state after it.
pub type StepView = (Seq<u8>, HidView);

/// The steps that take a volume control down or up.
///
/// A held control that goes down again is let up first, since a repeated
/// identical report is no second press; the other controls stay as they are.
pub open spec fn consumer_steps(hid: HidView, mask: u8, down: bool) -> Seq<StepView> {
    let released = with_mask(hid.consumer_buttons, mask, false);
    let buttons = with_mask(hid.consumer_buttons, mask, down);
    let let_up = (
        seq![CONSUMER_REPORT_ID, released],
        HidView { consumer_buttons: released, ..hid },
    );
    let last = (seq![CONSUMER_REPORT_ID, buttons], HidView { consumer_buttons: buttons, ..hid });
    if down && hid.consumer_buttons & mask != 0 {
        seq![let_up, last]
    } else {
        seq![last]
    }
}

/// The steps that take a key down or up; `None` where it is a key too many.
pub open spec fn key_steps(hid: HidView, key: NativeKey, down: bool) -> Option<Seq<StepView>> {
    match key {
        NativeKey::Keyboard { hid_usage, .. } => match keyboard_after(
            hid.modifiers,
            hid.keys,
            hid_usage,
            down,
        ) {
            Some((modifiers, keys)) => Some(
                seq![(keyboard_report_of(modifiers, keys), HidView { modifiers, keys, ..hid })],
            ),
            None => None,
        },
        NativeKey::Consumer { mask, .. } => Some(consumer_steps(hid, mask, down)),
        NativeKey::System { mask } => {
            let buttons = with_mask(hid.system_buttons, mask, down);
            Some(
                seq![
                    (
                        seq![SYSTEM_REPORT_ID, buttons],
                        HidView { system_buttons: buttons, ..hid },
                    ),
                ],
            )
        },
        NativeKey::Mouse(button) => match mouse_bit_of(button) {
            Some(bit) => {
                let buttons = with_bit(hid.buttons, bit, down);
                Some(seq![(mouse_report_of(buttons, None), HidView { buttons, ..hid })])
            },
            None => Some(Seq::empty()),
        },
    }
}

/// The state of the virtual keyboard after a key has gone down or up, with the
/// report that tells the driver. Only modifiers and six further keys fit.
pub fn keyboard_transition(modifiers: u8, keys: [u8; 6], usage: u8, down: bool) -> (after: Result<
    (u8, [u8; 6], [u8; 9]),
    InputError,
>)
    ensures
        match keyboard_after(modifiers, keys@, usage, down) {
            Some((new_modifiers, new_keys)) => {
                &&& after is Ok
                &&& after->Ok_0.0 == new_modifiers
                &&& after->Ok_0.1@ == new_keys
                &&& after->Ok_0.2@ == keyboard_report_of(new_modifiers, new_keys)
            },
            None => after == Err::<(u8, [u8; 6], [u8; 9]), InputError>(InputError::TooManyKeys),
        },
{
    let mut modifiers = modifiers;
    let mut keys = keys;
    let ghost before = keys@;
    if usage >= 0xe0 && usage <= 0xe7 {
        let bit: u8 = usage - 0xe0;
        if down {
            modifiers = modifiers | (1u8 << bit);
        } else {
            modifiers = modifiers & !(1u8 << bit);
        }
    } else if down {
        match position(&keys, usage) {
            Some(_) => {},
            None => match position(&keys, 0) {
                Some(free) => {
                    keys[free] = usage;
                },
                None => {
                    return Err(InputError::TooManyKeys);
                },
            },
        }
    } else {
        match position(&keys, usage) {
            Some(place) => {
                keys[place] = 0;
            },
            None => {},
        }
    }
    let report: [u8; 9] = [
        KEYBOARD_REPORT_ID,
        modifiers,
        0,
        keys[0],
        keys[1],
        keys[2],
        keys[3],
        keys[4],
        keys[5],
    ];
    assert(report@ =~= keyboard_report_of(modifiers, keys@));
    Ok((modifiers, keys, report))
}

/// The first place that holds a value.
fn position(keys: &[u8; 6], value: u8) -> (place: Option<usize>)
    ensures
        keys@.contains(value) <==> place is Some,
        match place {
            Some(place) => place < 6 && keys@.index_of_first(value) == Some(place as int),
            None => keys@.index_of_first(value) == None::<int>,
        },
{
    proof {
        keys@.index_of_first_ensures(value);
    }
    let mut i: usize = 0;
    while i < 6
        invariant
            i <= 6,
            forall|j: int| 0 <= j < i ==> keys@[j] != value,
        decreases 6 - i,
    {
        if keys[i] == value {
            proof {
                keys@.index_of_first_ensures(value);
            }
            return Some(i);
        }
        i += 1;
    }
    None
}

/// The bit of a mouse button in the mouse report.
pub fn mouse_button_bit(button: Button) -> (bit: Option<u8>)
    ensures
        bit == mouse_bit_of(button),
{
    match button {
        Button::Left => Some(0),
        Button::Right => Some(1),
        Button::Middle => Some(2),
        Button::Side | Button::Back => Some(3),
        Button::Extra | Button::Forward => Some(4),
        Button::Other(_) => None,
    }
}

/// A mouse report, moving one axis where `delta` names a place and an amount.
pub fn mouse_report(buttons: u8, delta: Option<(usize, i8)>) -> (report: [u8; 6])
    requires
        delta matches Some((index, _)) ==> index < 6,
    ensures
        report@ == mouse_report_of(
            buttons,
            match delta {
                Some((index, value)) => Some((index as int, value as int)),
                None => None,
            },
        ),
{
    let mut report: [u8; 6] = [MOUSE_REPORT_ID, buttons, 0, 0, 0, 0];
    assert(report@ =~= mouse_report_of(buttons, None));
    if let Some((index, value)) = delta {
        let byte: u8 = value as u8;
        assert(byte == signed_byte(value as int)) by {
            assert(value >= 0 ==> value as u8 == value) by (bit_vector);
            assert(value < 0 ==> value as u8 == value + 256) by (bit_vector);
        }
        report[index] = byte;
    }
    report
}

/// What the driver was last told.
#[derive(Clone, Copy, Debug)]
pub struct VirtualHid {
    modifiers: u8,
    keys: [u8; 6],
    buttons: u8,
    consumer_buttons: u8,
    system_buttons: u8,
}

/// A report to submit, and the state once it has been accepted.
#[derive(Debug)]
pub struct HidStep {
    pub report: Vec<u8>,
    pub after: VirtualHid,
}

impl View for VirtualHid {
    type V = HidView;

    closed spec fn view(&self) -> HidView {
        HidView {
            modifiers: self.modifiers,
            keys: self.keys@,
            buttons: self.buttons,
            consumer_buttons: self.consumer_buttons,
            system_buttons: self.system_buttons,
        }
    }
}

impl View for HidStep {
    type V = StepView;

    open spec fn view(&self) -> StepView {
        (self.report@, self.after@)
    }
}

/// The state in which nothing is held.
pub open spec fn hid_at_rest() -> HidView {
    HidView {
        modifiers: 0,
        keys: seq![0u8, 0u8, 0u8, 0u8, 0u8, 0u8],
        buttons: 0,
        consumer_buttons: 0,
        system_buttons: 0,
    }
}

/// The views of a list of steps.
pub open spec fn step_views(steps: Seq<HidStep>) -> Seq<StepView> {
    steps.map_values(|step: HidStep| step@)
}

/// The bytes of a list of reports.
pub open spec fn report_views(reports: Seq<Vec<u8>>) -> Seq<Seq<u8>> {
    reports.map_values(|report: Vec<u8>| report@)
}

impl VirtualHid {
    /// A driver that has just been opened: nothing is held.
    pub fn new() -> (hid: Self)
        ensures
            hid@ == hid_at_rest(),
    {
        let hid = VirtualHid {
            modifiers: 0,
            keys: [0, 0, 0, 0, 0, 0],
            buttons: 0,
            consumer_buttons: 0,
            system_buttons: 0,
        };
        assert(hid@ =~= hid_at_rest());
        hid
    }

    /// The steps that take a key or button down or up. The list is empty for a
    /// button that the driver does not have.
    pub fn key(&self, key: NativeKey, down: bool) -> (steps: Result<Vec<HidStep>, InputError>)
        ensures
            match key_steps(self@, key, down) {
                Some(expected) => steps is Ok && step_views(steps->Ok_0@) == expected,
                None => steps == Err::<Vec<HidStep>, InputError>(InputError::TooManyKeys),
            },
    {
        match key {
            NativeKey::Keyboard { hid_usage, .. } => self.keyboard(hid_usage, down),
            NativeKey::Consumer { mask, .. } => Ok(self.consumer(mask, down)),
            NativeKey::System { mask } => Ok(self.system(mask, down)),
            NativeKey::Mouse(button) => Ok(self.mouse_button(button, down)),
        }
    }

    fn consumer(&self, mask: u8, down: bool) -> (steps: Vec<HidStep>)
        ensures
            step_views(steps@) == consumer_steps(self@, mask, down),
    {
        let released: u8 = self.consumer_buttons & !mask;
        let mut steps: Vec<HidStep> = Vec::new();
        // A repeated identical HID state is not another press. Pulse only this
        // control so holding volume repeats without toggling a held mute key.
        if down && self.consumer_buttons & mask != 0 {
            steps.push(
                HidStep {
                    report: vec![CONSUMER_REPORT_ID, released],
                    after: VirtualHid { consumer_buttons: released, ..*self },
                },
            );
        }
        let buttons: u8 = if down {
            released | mask
        } else {
            released
        };
        steps.push(
            HidStep {
                report: vec![CONSUMER_REPORT_ID, buttons],
                after: VirtualHid { consumer_buttons: buttons, ..*self },
            },
        );
        assert(step_views(steps@) =~~= consumer_steps(self@, mask, down));
        steps
    }

    fn system(&self, mask: u8, down: bool) -> (steps: Vec<HidStep>)
        ensures
            key_steps(self@, NativeKey::System { mask }, down) == Some(step_views(steps@)),
    {
        let released: u8 = self.system_buttons & !mask;
        let buttons: u8 = if down {
            released | mask
        } else {
            released
        };
        let mut steps: Vec<HidStep> = Vec::new();
        steps.push(
            HidStep {
                report: vec![SYSTEM_REPORT_ID, buttons],
                after: VirtualHid { system_buttons: buttons, ..*self },
            },
        );
        assert(step_views(steps@) =~~= key_steps(self@, NativeKey::System { mask }, down)->0);
        steps
    }

    fn keyboard(&self, usage: u8, down: bool) -> (steps: Result<Vec<HidStep>, InputError>)
        ensures
            match keyboard_after(self@.modifiers, self@.keys, usage, down) {
                Some((modifiers, keys)) => {
                    &&& steps is Ok
                    &&& step_views(steps->Ok_0@) == seq![
                        (keyboard_report_of(modifiers, keys), HidView { modifiers, keys, ..self@ }),
                    ]
                },
                None => steps == Err::<Vec<HidStep>, InputError>(InputError::TooManyKeys),
            },
    {
        match keyboard_transition(self.modifiers, self.keys, usage, down) {
            Ok((modifiers, keys, report)) => {
                let mut steps: Vec<HidStep> = Vec::new();
                steps.push(
                    HidStep {
                        report: bytes(&report),
                        after: VirtualHid { modifiers, keys, ..*self },
                    },
                );
                assert(step_views(steps@) =~~= seq![
                    (
                        keyboard_report_of(modifiers, keys@),
                        HidView { modifiers, keys: keys@, ..self@ },
                    ),
                ]);
                Ok(steps)
            },
            Err(error) => Err(error),
        }
    }

    fn mouse_button(&self, button: Button, down: bool) -> (steps: Vec<HidStep>)
        ensures
            key_steps(self@, NativeKey::Mouse(button), down) == Some(step_views(steps@)),
    {
        let mut steps: Vec<HidStep> = Vec::new();
        if let Some(bit) = mouse_button_bit(button) {
            let buttons: u8 = if down {
                self.buttons | (1u8 << bit)
            } else {
                self.buttons & !(1u8 << bit)
            };
            steps.push(
                HidStep {
                    report: bytes(&mouse_report(buttons, None)),
                    after: VirtualHid { buttons, ..*self },
                },
            );
        }
        assert(step_views(steps@) =~~= key_steps(self@, NativeKey::Mouse(button), down)->0);
        steps
    }

    /// The reports that move an axis, none of which changes the state. The
    /// high-resolution wheel axes are left out: the server also forwards the
    /// matching legacy event, so taking both would scroll twice.
    pub fn relative(&self, axis: RelAxis, value: i32) -> (reports: Vec<Vec<u8>>)
        ensures
            report_views(reports@) == movement_reports(self@.buttons, axis, value as int),
    {
        let index: usize = match axis {
            RelAxis::X => 2,
            RelAxis::Y => 3,
            RelAxis::Wheel => 4,
            RelAxis::HWheel => 5,
            _ => {
                let none: Vec<Vec<u8>> = Vec::new();
                assert(report_views(none@) =~= Seq::<Seq<u8>>::empty());
                return none;
            },
        };
        let mut reports: Vec<Vec<u8>> = Vec::new();
        let mut remaining: i32 = value;
        let ghost to_report = |delta: int|
            mouse_report_of(self@.buttons, Some((index as int, delta)));
        assert(report_views(reports@) + deltas(remaining as int).map_values(to_report)
            =~= deltas(value as int).map_values(to_report));
        while remaining != 0
            invariant
                2 <= index < 6,
                to_report == (|delta: int|
                    mouse_report_of(self@.buttons, Some((index as int, delta)))),
                report_views(reports@) + deltas(remaining as int).map_values(to_report) == deltas(
                    value as int,
                ).map_values(to_report),
            decreases
                    if remaining < 0 {
                        -remaining
                    } else {
                        remaining as int
                    },
        {
            let delta: i8 = if remaining < -127 {
                -127
            } else if remaining > 127 {
                127
            } else {
                remaining as i8
            };
            let ghost rest = deltas(remaining - delta);
            let ghost so_far = report_views(reports@);
            proof {
                assert(deltas(remaining as int) =~= seq![delta as int] + rest);
                assert(deltas(remaining as int).map_values(to_report) =~= seq![
                    to_report(delta as int),
                ] + rest.map_values(to_report));
            }
            reports.push(bytes(&mouse_report(self.buttons, Some((index, delta)))));
            assert(report_views(reports@) =~= so_far.push(to_report(delta as int)));
            remaining = remaining - delta as i32;
            assert(report_views(reports@) + rest.map_values(to_report) =~= so_far + (seq![
                to_report(delta as int),
            ] + rest.map_values(to_report)));
        }
        assert(deltas(0).map_values(to_report) =~= Seq::<Seq<u8>>::empty());
        assert(report_views(reports@) =~= deltas(value as int).map_values(to_report));
        reports
    }
}

/// The bytes of a report.
fn bytes<const N: usize>(report: &[u8; N]) -> (out: Vec<u8>)
    ensures
        out@ == report@,
{
    let mut out: Vec<u8> = Vec::new();
    let mut i: usize = 0;
    while i < N
        invariant
            i <= N,
            out@ == report@.take(i as int),
        decreases N - i,
    {
        out.push(report[i]);
        i += 1;
        assert(out@ =~= report@.take(i as int));
    }
    assert(report@.take(N as int) =~= report@);
    out
}

/// The sum of the parts of a movement.
pub open spec fn total(parts: Seq<int>) -> int
    decreases parts.len(),
{
    if parts.len() == 0 {
        0
    } else {
        parts[0] + total(parts.skip(1))
    }
}

/// The parts of a movement add up to it, and each of them moves and fits in a
/// report.
pub proof fn deltas_add_up(value: int)
    ensures
        total(deltas(value)) == value,
        forall|i: int|
            0 <= i < deltas(value).len() ==> -127 <= #[trigger] deltas(value)[i] <= 127
                && deltas(value)[i] != 0,
    decreases
            if value < 0 {
                -value
            } else {
                value
            },
{
    if value != 0 {
        let rest = deltas(value - clamped_delta(value));
        deltas_add_up(value - clamped_delta(value));
        assert(deltas(value).skip(1) =~= rest);
        assert forall|i: int| 0 <= i < deltas(value).len() implies -127 <= #[trigger] deltas(
            value,
        )[i] <= 127 && deltas(value)[i] != 0 by {
            if i > 0 {
                assert(deltas(value)[i] == rest[i - 1]);
            }
        }
    }
}

/// No ordinary key is listed twice.
pub open spec fn lists_each_key_once(keys: Seq<u8>) -> bool {
    forall|i: int, j: int|
        0 <= i < j < keys.len() && keys[i] == keys[j] ==> #[trigger] keys[i] == 0
            && #[trigger] keys[j] == 0
}

/// A key too many is refused, and only that: one more ordinary key while every
/// place is taken by another.
pub proof fn rollover_is_refused_only_when_every_place_is_taken(
    modifiers: u8,
    keys: Seq<u8>,
    usage: u8,
    down: bool,
)
    ensures
        keyboard_after(modifiers, keys, usage, down) is None <==> {
            &&& down
            &&& !is_modifier_usage(usage)
            &&& !keys.contains(usage)
            &&& !keys.contains(0)
        },
{
    keys.index_of_first_ensures(0);
    keys.index_of_first_ensures(usage);
}

/// An ordinary key going down or up changes whether that key is listed and
/// nothing else, and keeps each key listed once.
pub proof fn ordinary_keys_are_listed_while_down(
    modifiers: u8,
    keys: Seq<u8>,
    usage: u8,
    down: bool,
    other: u8,
)
    requires
        lists_each_key_once(keys),
        usage != 0,
        !is_modifier_usage(usage),
        keyboard_after(modifiers, keys, usage, down) is Some,
    ensures
        (keyboard_after(modifiers, keys, usage, down)->0).0 == modifiers,
        ({
            let after = (keyboard_after(modifiers, keys, usage, down)->0).1;
            &&& after.len() == keys.len()
            &&& lists_each_key_once(after)
            &&& after.contains(usage) == down
            &&& other != 0 && other != usage ==> after.contains(other) == keys.contains(other)
        }),
{
    keys.index_of_first_ensures(0);
    keys.index_of_first_ensures(usage);
    let after = (keyboard_after(modifiers, keys, usage, down)->0).1;
    if after != keys {
        let place = if down {
            keys.index_of_first(0)->0
        } else {
            keys.index_of_first(usage)->0
        };
        assert(after[place] == if down {
            usage
        } else {
            0
        });
        if keys.contains(other) {
            let at = choose|i: int| 0 <= i < keys.len() && keys[i] == other;
            assert(after[at] == if at == place {
                after[place]
            } else {
                other
            });
        }
        if after.contains(other) {
            let at = choose|i: int| 0 <= i < after.len() && after[i] == other;
            assert(keys[at] == other || at == place);
        }
        if !down && after.contains(usage) {
            let at = choose|i: int| 0 <= i < after.len() && after[i] == usage;
            assert(keys[at] == usage && at != place);
            assert(keys[place] == usage);
            if at < place {
                assert(keys[at] == keys[place]);
            } else {
                assert(keys[place] == keys[at]);
            }
        }
    }
}

/// Letting go of an ordinary key that was up before it went down brings back
/// the state from before.
pub proof fn release_undoes_press(modifiers: u8, keys: Seq<u8>, usage: u8)
    requires
        usage != 0,
        !is_modifier_usage(usage),
        !keys.contains(usage),
        keys.contains(0),
    ensures
        ({
            let pressed = keyboard_after(modifiers, keys, usage, true);
            &&& pressed is Some
            &&& keyboard_after(modifiers, (pressed->0).1, usage, false) == Some((modifiers, keys))
        }),
{
    keys.index_of_first_ensures(0);
    let free = keys.index_of_first(0)->0;
    let pressed = keys.update(free, usage);
    assert(pressed[free] == usage);
    pressed.index_of_first_ensures(usage);
    let place = pressed.index_of_first(usage)->0;
    if place != free {
        assert(keys[place] == usage);
    }
    assert(pressed.update(free, 0) =~= keys);
}

/// A modifier has a bit of its own, which follows the key while the other bits
/// stay.
pub proof fn modifiers_have_a_bit_each(modifiers: u8, keys: Seq<u8>, usage: u8, down: bool)
    requires
        is_modifier_usage(usage),
    ensures
        ({
            let after = keyboard_after(modifiers, keys, usage, down);
            let bit = 1u8 << ((usage - 0xe0) as u8);
            &&& after is Some
            &&& (after->0).1 == keys
            &&& ((after->0).0 & bit != 0) == down
            &&& (after->0).0 & !bit == modifiers & !bit
        }),
{
    let place = (usage - 0xe0) as u8;
    assert((modifiers | (1u8 << place)) & (1u8 << place) != 0 && (modifiers & !(1u8 << place)) & (
    1u8 << place) == 0 && (modifiers | (1u8 << place)) & !(1u8 << place) == modifiers & !(1u8
        << place) && (modifiers & !(1u8 << place)) & !(1u8 << place) == modifiers & !(1u8
        << place)) by (bit_vector)
        requires
            place < 8,
    ;
}

/// A volume control going down or up leaves the others as they are, in every
/// report that is sent for it, and the last report shows it as it now is.
pub proof fn volume_controls_do_not_disturb_each_other(hid: HidView, mask: u8, down: bool)
    requires
        mask != 0,
    ensures
        ({
            let steps = consumer_steps(hid, mask, down);
            &&& steps.len() >= 1
            &&& forall|i: int|
                0 <= i < steps.len() ==> (#[trigger] steps[i]).1.consumer_buttons & !mask
                    == hid.consumer_buttons & !mask
            &&& down ==> steps.last().1.consumer_buttons & mask == mask
            &&& !down ==> steps.last().1.consumer_buttons & mask == 0
            &&& down && hid.consumer_buttons & mask != 0 ==> steps.len() == 2
                && steps[0].1.consumer_buttons & mask == 0
        }),
{
    let held = hid.consumer_buttons;
    assert((held & !mask) & !mask == held & !mask && (held & !mask) & mask == 0 && ((held & !mask)
        | mask) & !mask == held & !mask && ((held & !mask) | mask) & mask == mask) by (bit_vector);
}

/// The number that a byte of a report stands for, read as a signed one.
pub open spec fn signed_value(byte: u8) -> int {
    if byte < 128 {
        byte as int
    } else {
        byte - 256
    }
}

/// What some reports say at a place, one after the other.
pub open spec fn column(reports: Seq<Seq<u8>>, place: int) -> Seq<int> {
    reports.map_values(|report: Seq<u8>| signed_value(report[place]))
}

proof fn lemma_total_of_zeros(parts: Seq<int>)
    requires
        forall|i: int| 0 <= i < parts.len() ==> #[trigger] parts[i] == 0,
    ensures
        total(parts) == 0,
    decreases parts.len(),
{
    if parts.len() > 0 {
        lemma_total_of_zeros(parts.skip(1));
    }
}

/// The reports of a movement add up to it at the place of its axis: the third byte
/// for horizontal, the fourth for vertical movements, and the last two for the
/// wheels. Elsewhere they say nothing but which buttons are held, and an axis
/// without a place is not reported at all.
pub proof fn movements_add_up_at_their_place(buttons: u8, axis: RelAxis, value: int, place: int)
    requires
        2 <= place < 6,
    ensures
        ({
            let reports = movement_reports(buttons, axis, value);
            let moves = match axis {
                RelAxis::X => place == 2,
                RelAxis::Y => place == 3,
                RelAxis::Wheel => place == 4,
                RelAxis::HWheel => place == 5,
                _ => false,
            };
            &&& total(column(reports, place)) == if moves {
                value
            } else {
                0
            }
            &&& forall|i: int|
                0 <= i < reports.len() ==> {
                    &&& (#[trigger] reports[i]).len() == 6
                    &&& reports[i][0] == 2
                    &&& reports[i][1] == buttons
                    &&& !moves ==> reports[i][place] == 0
                }
        }),
        axis != RelAxis::X && axis != RelAxis::Y && axis != RelAxis::Wheel && axis
            != RelAxis::HWheel ==> movement_reports(buttons, axis, value).len() == 0,
{
    let reports = movement_reports(buttons, axis, value);
    deltas_add_up(value);
    match axis_index_of(axis) {
        Some(index) => {
            let parts = deltas(value);
            assert forall|i: int| 0 <= i < reports.len() implies (#[trigger] reports[i])
                == mouse_report_of(buttons, Some((index, parts[i]))) by {}
            if place == index {
                assert(column(reports, place) =~= parts) by {
                    assert forall|i: int| 0 <= i < parts.len() implies #[trigger] column(
                        reports,
                        place,
                    )[i] == parts[i] by {
                        assert(-127 <= parts[i] <= 127);
                        assert(reports[i][place] == signed_byte(parts[i]));
                    }
                }
            } else {
                lemma_total_of_zeros(column(reports, place));
            }
        },
        None => {},
    }
}

/// What a report is to say of a state, for a key of some kind: a keyboard report
/// the modifiers and the ordinary keys, any other the controls or buttons of its
/// kind.
pub open spec fn tells(report: Seq<u8>, key: NativeKey, state: HidView) -> bool {
    match key {
        NativeKey::Keyboard { .. } => {
            &&& report.len() == 3 + state.keys.len()
            &&& report[0] == 1
            &&& report[1] == state.modifiers
            &&& report[2] == 0
            &&& forall|i: int|
                0 <= i < state.keys.len() ==> #[trigger] report[3 + i] == state.keys[i]
        },
        NativeKey::Mouse(_) => {
            &&& report.len() == 6
            &&& report[0] == 2
            &&& report[1] == state.buttons
            &&& forall|i: int| 2 <= i < 6 ==> #[trigger] report[i] == 0
        },
        NativeKey::Consumer { .. } => report == seq![3u8, state.consumer_buttons],
        NativeKey::System { .. } => report == seq![4u8, state.system_buttons],
    }
}

/// Every report for a key tells the driver the state that it leads to, and keeps
/// what other kinds of keys hold. The last one shows the key as it now is: an
/// ordinary key is listed while it is down and only then, and a modifier, button
/// or control has its bits set while it is down and only then.
pub proof fn reports_show_the_key_as_it_is(hid: HidView, key: NativeKey, down: bool)
    requires
        lists_each_key_once(hid.keys),
        match key {
            NativeKey::Keyboard { hid_usage, .. } => hid_usage != 0,
            NativeKey::Consumer { mask, .. } => mask != 0,
            NativeKey::System { mask } => mask != 0,
            NativeKey::Mouse(button) => mouse_bit_of(button) is Some,
        },
        key_steps(hid, key, down) is Some,
    ensures
        ({
            let steps = key_steps(hid, key, down)->0;
            let last = steps.last().1;
            &&& steps.len() > 0
            &&& forall|i: int|
                0 <= i < steps.len() ==> {
                    let after = (#[trigger] steps[i]).1;
                    &&& tells(steps[i].0, key, after)
                    &&& key !is Keyboard ==> after.modifiers == hid.modifiers && after.keys
                        == hid.keys
                    &&& key !is Mouse ==> after.buttons == hid.buttons
                    &&& key !is Consumer ==> after.consumer_buttons == hid.consumer_buttons
                    &&& key !is System ==> after.system_buttons == hid.system_buttons
                }
            &&& match key {
                NativeKey::Keyboard { hid_usage, .. } => if 0xe0 <= hid_usage <= 0xe7 {
                    let bit = 1u8 << ((hid_usage - 0xe0) as u8);
                    &&& (last.modifiers & bit != 0) == down
                    &&& last.modifiers & !bit == hid.modifiers & !bit
                    &&& last.keys == hid.keys
                } else {
                    &&& last.keys.contains(hid_usage) == down
                    &&& last.modifiers == hid.modifiers
                },
                NativeKey::Mouse(button) => {
                    let bit = 1u8 << (mouse_bit_of(button)->0);
                    &&& (last.buttons & bit != 0) == down
                    &&& last.buttons & !bit == hid.buttons & !bit
                },
                NativeKey::Consumer { mask, .. } => {
                    &&& last.consumer_buttons & mask == if down {
                        mask
                    } else {
                        0
                    }
                    &&& last.consumer_buttons & !mask == hid.consumer_buttons & !mask
                },
                NativeKey::System { mask } => {
                    &&& last.system_buttons & mask == if down {
                        mask
                    } else {
                        0
                    }
                    &&& last.system_buttons & !mask == hid.system_buttons & !mask
                },
            }
        }),
{
    match key {
        NativeKey::Keyboard { hid_usage, .. } => {
            if is_modifier_usage(hid_usage) {
                modifiers_have_a_bit_each(hid.modifiers, hid.keys, hid_usage, down);
            } else {
                ordinary_keys_are_listed_while_down(
                    hid.modifiers,
                    hid.keys,
                    hid_usage,
                    down,
                    hid_usage,
                );
            }
        },
        NativeKey::Consumer { mask, .. } => {
            volume_controls_do_not_disturb_each_other(hid, mask, down);
        },
        NativeKey::System { mask } => {
            let held = hid.system_buttons;
            assert((held & !mask) & !mask == held & !mask && (held & !mask) & mask == 0 && ((held
                & !mask) | mask) & !mask == held & !mask && ((held & !mask) | mask) & mask == mask)
                by (bit_vector);
        },
        NativeKey::Mouse(button) => {
            let bit = mouse_bit_of(button)->0;
            let held = hid.buttons;
            assert((held | (1u8 << bit)) & (1u8 << bit) != 0 && (held & !(1u8 << bit)) & (1u8
                << bit) == 0 && (held | (1u8 << bit)) & !(1u8 << bit) == held & !(1u8 << bit) && (
            held & !(1u8 << bit)) & !(1u8 << bit) == held & !(1u8 << bit)) by (bit_vector)
                requires
                    bit < 8,
            ;
        },
    }
}

/// A control that is held and goes down again is let up in between, so that each
/// repeat counts as a press of its own; nothing else takes a second report.
pub proof fn held_controls_are_pressed_anew(hid: HidView, key: NativeKey, down: bool)
    requires
        key_steps(hid, key, down) is Some,
    ensures
        ({
            let steps = key_steps(hid, key, down)->0;
            &&& steps.len() <= 2
            &&& steps.len() == 2 <==> (key matches NativeKey::Consumer { mask, .. } && down
                && hid.consumer_buttons & mask != 0)
            &&& steps.len() == 2 ==> (key matches NativeKey::Consumer { mask, .. }
                && steps[0].1.consumer_buttons & mask == 0)
        }),
{
    if let NativeKey::Consumer { mask, .. } = key {
        let held = hid.consumer_buttons;
        assert((held & !mask) & mask == 0) by (bit_vector);
    }
}

/// A mouse report says which buttons are held, and moves one axis at most: the byte at
/// its place stands for the movement, and all others are zero.
pub proof fn mouse_reports_move_one_axis(buttons: u8, index: int, value: int, place: int)
    requires
        2 <= index < 6,
        -128 <= value <= 127,
        2 <= place < 6,
    ensures
        ({
            let moving = mouse_report_of(buttons, Some((index, value)));
            let still = mouse_report_of(buttons, None);
            &&& moving.len() == 6 && still.len() == 6
            &&& moving[0] == 2 && still[0] == 2
            &&& moving[1] == buttons && still[1] == buttons
            &&& still[place] == 0
            &&& signed_value(moving[place]) == if place == index {
                value
            } else {
                0
            }
        }),
{
}

/// At first nothing is held: no modifier, none of six keys, no button and no control.
pub proof fn nothing_is_held_at_first(place: int)
    requires
        0 <= place < 6,
    ensures
        hid_at_rest().modifiers == 0,
        hid_at_rest().keys.len() == 6,
        hid_at_rest().keys[place] == 0,
        hid_at_rest().buttons == 0,
        hid_at_rest().consumer_buttons == 0,
        hid_at_rest().system_buttons == 0,
{
}

/// A key that goes down takes the first free place and moves no other, and one that
/// goes up leaves its place free.
pub proof fn keys_keep_their_places(
    modifiers: u8,
    keys: Seq<u8>,
    usage: u8,
    down: bool,
    place: int,
)
    requires
        usage != 0,
        !is_modifier_usage(usage),
        lists_each_key_once(keys),
        keyboard_after(modifiers, keys, usage, down) is Some,
        0 <= place < keys.len(),
    ensures
        ({
            let after = (keyboard_after(modifiers, keys, usage, down)->0).1;
            &&& after.len() == keys.len()
            &&& keys[place] != 0 && keys[place] != usage ==> after[place] == keys[place]
            &&& keys[place] == usage ==> after[place] == if down {
                usage
            } else {
                0
            }
            &&& keys[place] == 0 ==> (after[place] == usage <==> down && !keys.contains(usage)
                && forall|i: int| 0 <= i < place ==> #[trigger] keys[i] != 0)
            &&& keys[place] == 0 && after[place] != usage ==> after[place] == 0
        }),
{
    keys.index_of_first_ensures(0);
    keys.index_of_first_ensures(usage);
    if keys[place] == usage {
        let first = keys.index_of_first(usage)->0;
        if first < place {
            assert(keys[first] == keys[place]);
        }
    }
}

/// Reports and steps are seen one by one, each in its place and with all of its
/// bytes.
pub proof fn every_report_is_seen(reports: Seq<Vec<u8>>, steps: Seq<HidStep>)
    ensures
        report_views(reports).len() == reports.len(),
        forall|i: int|
            0 <= i < reports.len() ==> (#[trigger] report_views(reports)[i]) == reports[i]@,
        step_views(steps).len() == steps.len(),
        forall|i: int|
            0 <= i < steps.len() ==> (#[trigger] step_views(steps)[i]).0 == steps[i].report@,
        forall|i: int|
            0 <= i < steps.len() ==> (#[trigger] step_views(steps)[i]).1 == steps[i].after@,
{
}

impl VirtualHid {
    /// The state is seen in full: two keyboards and mice that look the same hold the
    /// same.
    pub proof fn all_that_is_held_is_seen(self, other: Self)
        requires
            self@ == other@,
        ensures
            self == other,
    {
        assert(self.keys =~= other.keys);
    }
}

/// A movement takes as few reports as it can: all but the last move as far as a
/// report can, in the direction of the movement, and the last moves what is left.
pub proof fn movements_take_few_reports(buttons: u8, axis: RelAxis, value: int, i: int)
    requires
        0 <= i < movement_reports(buttons, axis, value).len(),
    ensures
        ({
            let reports = movement_reports(buttons, axis, value);
            let moved = signed_value(reports[i][axis_index_of(axis)->0]);
            &&& value > 0 ==> 0 < moved <= 127
            &&& value < 0 ==> -127 <= moved < 0
            &&& i < reports.len() - 1 && value > 0 ==> moved == 127
            &&& i < reports.len() - 1 && value < 0 ==> moved == -127
        }),
{
    lemma_far_steps(value, i);
    let part = deltas(value)[i];
    assert(movement_reports(buttons, axis, value)[i] == mouse_report_of(
        buttons,
        Some((axis_index_of(axis)->0, part)),
    ));
}

proof fn lemma_far_steps(value: int, i: int)
    requires
        0 <= i < deltas(value).len(),
    ensures
        ({
            let moved = deltas(value)[i];
            &&& value != 0
            &&& value > 0 ==> 0 < moved <= 127
            &&& value < 0 ==> -127 <= moved < 0
            &&& i < deltas(value).len() - 1 && value > 0 ==> moved == 127
            &&& i < deltas(value).len() - 1 && value < 0 ==> moved == -127
        }),
    decreases i,
{
    let rest = value - clamped_delta(value);
    if i > 0 {
        lemma_far_steps(rest, i - 1);
    } else if rest == 0 {
        assert(deltas(rest).len() == 0);
    }
}

} // verus!
