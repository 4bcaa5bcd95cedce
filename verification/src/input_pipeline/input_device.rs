//! Input devices and their events.

use vstd::prelude::*;

verus! {

/// The buffer size for the stream that InputEvents are sent over.
pub const INPUT_EVENT_BUFFER_SIZE: usize = 100;

/// The path to the input-report directory.
pub const INPUT_REPORT_PATH: &'static str = "/dev/class/input-report";

/// An `EventTime` indicates the time in nanoseconds when an event was first recorded.
pub type EventTime = u64;

/// An [`InputEvent`] holds information about an input event and the device that produced the
/// event.
#[derive(Clone, Debug, PartialEq)]
pub struct InputEvent<E, D> {
    /// The `device_event` contains the device-specific input event information.
    pub device_event: E,
    /// The `device_descriptor` contains static information about the device that generated the
    /// input event.
    pub device_descriptor: D,
    /// The time in nanoseconds when the event was first recorded.
    pub event_time: EventTime,
}

/// An [`InputDeviceEvent`] represents an input event from an input device. What the events of each
/// kind of device hold is up to the devices.
///
/// Each binding generates the type of [`InputDeviceEvent`]s that are appropriate for its device.
#[derive(Clone, Debug, PartialEq)]
pub enum InputDeviceEvent<K, B, M, T> {
    Keyboard(K),
    MediaButtons(B),
    Mouse(M),
    Touch(T),
}

/// An [`InputDeviceDescriptor`] describes the ranges of values a particular input device can
/// generate.
///
/// The descriptor is sent alongside [`InputDeviceEvent`]s so clients can, for example, convert a
/// touch coordinate to a display coordinate. The descriptor is not expected to change for the
/// lifetime of a device binding.
#[derive(Clone, Debug, PartialEq)]
pub enum InputDeviceDescriptor<K, B, M, T> {
    Keyboard(K),
    MediaButtons(B),
    Mouse(M),
    Touch(T),
}

#[derive(Clone, Copy, Debug, PartialEq, Eq, Structural)]
pub enum InputDeviceType {
    Keyboard,
    MediaButtons,
    Mouse,
    Touch,
}

/// Identifies a button of a consumer control.
#[derive(Clone, Copy, Debug, PartialEq, Eq, Structural)]
pub struct ConsumerControlButton {
    pub id: u32,
}

#[derive(Debug)]
pub struct ConsumerControlInputDescriptor {
    pub buttons: Option<Vec<ConsumerControlButton>>,
}

#[derive(Debug)]
pub struct ConsumerControlDescriptor {
    pub input: Option<ConsumerControlInputDescriptor>,
}

/// What a device says of itself.
#[derive(Debug)]
pub struct DeviceDescriptor {
    pub has_mouse: bool,
    pub has_touch: bool,
    pub has_keyboard: bool,
    pub consumer_control: Option<ConsumerControlDescriptor>,
}

impl DeviceDescriptor {
    /// The buttons of the device.
    pub open spec fn buttons(self) -> Seq<ConsumerControlButton> {
        match self.consumer_control {
            Some(control) => match control.input {
                Some(input) => match input.buttons {
                    Some(buttons) => buttons@,
                    None => seq![],
                },
                None => seq![],
            },
            None => seq![],
        }
    }

    /// Whether the device is of the given type. It is one with media buttons if it has any of those
    /// that are supported.
    pub open spec fn is_of_type(
        self,
        device_type: InputDeviceType,
        supported_buttons: Seq<ConsumerControlButton>,
    ) -> bool {
        match device_type {
            InputDeviceType::MediaButtons => exists|i: int|
                0 <= i < self.buttons().len() && supported_buttons.contains(
                    #[trigger] self.buttons()[i],
                ),
            InputDeviceType::Mouse => self.has_mouse,
            InputDeviceType::Touch => self.has_touch,
            InputDeviceType::Keyboard => self.has_keyboard,
        }
    }
}

fn is_supported(
    supported_buttons: &[ConsumerControlButton],
    button: ConsumerControlButton,
) -> (r: bool)
    ensures
        r == supported_buttons@.contains(button),
{
    let mut i: usize = 0;
    while i < supported_buttons.len()
        invariant
            i <= supported_buttons@.len(),
            forall|j: int| 0 <= j < i ==> supported_buttons@[j] != button,
        decreases supported_buttons@.len() - i,
    {
        if supported_buttons[i] == button {
            return true;
        }
        i += 1;
    }
    false
}

/// Returns true if the device type of `device_descriptor` matches `device_type`. A device that has
/// not given a descriptor matches none.
///
/// # Parameters
/// - `device_descriptor`: What the device says of itself.
/// - `device_type`: The type of the device to compare to.
/// - `supported_buttons`: The buttons that make a device one with media buttons.
pub fn is_device_type(
    device_descriptor: &Option<DeviceDescriptor>,
    device_type: InputDeviceType,
    supported_buttons: &[ConsumerControlButton],
) -> (r: bool)
    ensures
        r == match *device_descriptor {
            Some(descriptor) => descriptor.is_of_type(device_type, supported_buttons@),
            None => false,
        },
{
    let descriptor = match device_descriptor {
        Some(descriptor) => descriptor,
        None => {
            return false;
        },
    };
    // Return if the device type matches the desired `device_type`.
    match device_type {
        InputDeviceType::MediaButtons => {
            let buttons = match &descriptor.consumer_control {
                Some(ConsumerControlDescriptor { input: Some(input) }) => match &input.buttons {
                    Some(buttons) => buttons,
                    None => {
                        return false;
                    },
                },
                _ => {
                    return false;
                },
            };
            let mut i: usize = 0;
            while i < buttons.len()
                invariant
                    i <= buttons.len(),
                    *device_descriptor == Some(*descriptor),
                    device_type is MediaButtons,
                    buttons@ == descriptor.buttons(),
                    forall|j: int|
                        0 <= j < i ==> !supported_buttons@.contains(#[trigger] buttons@[j]),
                decreases buttons.len() - i,
            {
                if is_supported(supported_buttons, buttons[i]) {
                    assert(supported_buttons@.contains(descriptor.buttons()[i as int]));
                    return true;
                }
                i += 1;
            }
            false
        },
        InputDeviceType::Mouse => descriptor.has_mouse,
        InputDeviceType::Touch => descriptor.has_touch,
        InputDeviceType::Keyboard => descriptor.has_keyboard,
    }
}

/// How a device is bound.
#[derive(Clone, Copy, Debug, PartialEq, Eq, Structural)]
pub enum DeviceBinding {
    Keyboard,
    MediaButtons,
    Mouse { device_id: u32 },
    Touch { device_id: u32 },
}

/// Returns how a device of the given type is bound. The events of a mouse or a touch screen tell
/// which device they come from.
///
/// # Parameters
/// - `device_type`: The type of the input device.
/// - `device_id`: The id of the connected input device.
pub fn get_device_binding(device_type: InputDeviceType, device_id: u32) -> (r: DeviceBinding)
    ensures
        match device_type {
            InputDeviceType::MediaButtons => r is MediaButtons,
            InputDeviceType::Mouse => r == (DeviceBinding::Mouse { device_id }),
            InputDeviceType::Touch => r == (DeviceBinding::Touch { device_id }),
            InputDeviceType::Keyboard => r is Keyboard,
        },
{
    match device_type {
        InputDeviceType::MediaButtons => DeviceBinding::MediaButtons,
        InputDeviceType::Mouse => DeviceBinding::Mouse { device_id },
        InputDeviceType::Touch => DeviceBinding::Touch { device_id },
        InputDeviceType::Keyboard => DeviceBinding::Keyboard,
    }
}

/// Whether processing `reports` in their order, each with what became of the report before it, may
/// end with `last` and generate `events`.
pub open spec fn may_process<R, D, E, F: Fn(R, Option<R>, &D) -> (Option<R>, Vec<E>)>(
    process_report: F,
    reports: Seq<R>,
    previous: Option<R>,
    device_descriptor: D,
    last: Option<R>,
    events: Seq<E>,
) -> bool
    decreases reports.len(),
{
    if reports.len() == 0 {
        last == previous && events.len() == 0
    } else {
        exists|next: Option<R>, generated: Vec<E>, rest: Seq<E>|
            {
                &&& #[trigger] call_ensures(
                    process_report,
                    (reports[0], previous, &device_descriptor),
                    (next, generated),
                )
                &&& may_process(
                    process_report,
                    reports.drop_first(),
                    next,
                    device_descriptor,
                    last,
                    rest,
                )
                &&& #[trigger] is_joined(events, generated@, rest)
            }
    }
}

/// Whether `events` are those of `a`, and then those of `b`.
pub open spec fn is_joined<E>(events: Seq<E>, a: Seq<E>, b: Seq<E>) -> bool {
    events == a + b
}

/// Reports that come one batch after the other are processed as if they had come at once: the first
/// of a batch is compared to the last of the batch before.
pub proof fn law_batches_are_processed_as_one<
    R,
    D,
    E,
    F: Fn(R, Option<R>, &D) -> (Option<R>, Vec<E>),
>(
    process_report: F,
    first: Seq<R>,
    second: Seq<R>,
    previous: Option<R>,
    device_descriptor: D,
    between: Option<R>,
    last: Option<R>,
    first_events: Seq<E>,
    second_events: Seq<E>,
)
    requires
        may_process(process_report, first, previous, device_descriptor, between, first_events),
        may_process(process_report, second, between, device_descriptor, last, second_events),
    ensures
        may_process(
            process_report,
            first + second,
            previous,
            device_descriptor,
            last,
            first_events + second_events,
        ),
    decreases first.len(),
{
    let reports = first + second;
    let events = first_events + second_events;
    if first.len() == 0 {
        assert(reports =~= second);
        assert(events =~= second_events);
    } else {
        let (next, generated, rest) = choose|next: Option<R>, generated: Vec<E>, rest: Seq<E>|
            {
                &&& #[trigger] call_ensures(
                    process_report,
                    (first[0], previous, &device_descriptor),
                    (next, generated),
                )
                &&& may_process(
                    process_report,
                    first.drop_first(),
                    next,
                    device_descriptor,
                    between,
                    rest,
                )
                &&& #[trigger] is_joined(first_events, generated@, rest)
            };
        law_batches_are_processed_as_one(
            process_report,
            first.drop_first(),
            second,
            next,
            device_descriptor,
            between,
            last,
            rest,
            second_events,
        );
        assert(reports.drop_first() =~= first.drop_first() + second);
        assert(events =~= generated@ + (rest + second_events));
        assert(is_joined(events, generated@, rest + second_events));
        assert(call_ensures(
            process_report,
            (reports[0], previous, &device_descriptor),
            (next, generated),
        ));
    }
}

/// What has come of waiting for reports.
#[derive(Debug)]
pub enum ReadResult<R> {
    /// The reports, in the order in which they were made.
    Reports(Vec<R>),
    /// The device has refused to send any.
    ServiceError,
    /// The device could not be asked.
    FidlError,
    /// There will be none any more.
    Ended,
}

/// Generates events from what a device has sent, and returns the report that the next one is to be
/// compared to, or nothing when no more reports are to be waited for.
///
/// # Parameters
/// - `read`: What has come of waiting for reports.
/// - `previous_report`: What became of the report before.
/// - `device_descriptor`: The descriptor of the device.
/// - `event_sender`: Where the events are added.
/// - `process_reports`: A function that generates events from a report and the report that precedes
///                      it. Each type of input device defines how it processes reports.
pub fn initialize_report_stream<R, D, E, F: Fn(R, Option<R>, &D) -> (Option<R>, Vec<E>)>(
    read: ReadResult<R>,
    previous_report: Option<R>,
    device_descriptor: &D,
    event_sender: &mut Vec<E>,
    process_reports: &F,
) -> (r: Option<Option<R>>)
    requires
        forall|report: R, previous: Option<R>| #[trigger]
            call_requires(*process_reports, (report, previous, device_descriptor)),
    ensures
        match read {
            ReadResult::Reports(reports) => r is Some && exists|events: Seq<E>|
                {
                    &&& #[trigger] may_process(
                        *process_reports,
                        reports@,
                        previous_report,
                        *device_descriptor,
                        r->0,
                        events,
                    )
                    &&& final(event_sender)@ == old(event_sender)@ + events
                },
            _ => r is None && final(event_sender)@ == old(event_sender)@,
        },
{
    match read {
        ReadResult::Reports(reports) => {
            let r = Some(
                process_in_order(
                    reports,
                    previous_report,
                    device_descriptor,
                    event_sender,
                    process_reports,
                ),
            );
            proof {
                let events = choose|events: Seq<E>|
                    {
                        &&& #[trigger] may_process(
                            *process_reports,
                            reports@,
                            previous_report,
                            *device_descriptor,
                            r->0,
                            events,
                        )
                        &&& event_sender@ == old(event_sender)@ + events
                    };
                assert(may_process(
                    *process_reports,
                    reports@,
                    previous_report,
                    *device_descriptor,
                    r->0,
                    events,
                ));
            }
            r
        },
        ReadResult::ServiceError => None,
        ReadResult::FidlError => None,
        ReadResult::Ended => None,
    }
}

fn process_in_order<R, D, E, F: Fn(R, Option<R>, &D) -> (Option<R>, Vec<E>)>(
    reports: Vec<R>,
    previous_report: Option<R>,
    device_descriptor: &D,
    event_sender: &mut Vec<E>,
    process_report: &F,
) -> (r: Option<R>)
    requires
        forall|report: R, previous: Option<R>| #[trigger]
            call_requires(*process_report, (report, previous, device_descriptor)),
    ensures
        exists|events: Seq<E>|
            {
                &&& #[trigger] may_process(
                    *process_report,
                    reports@,
                    previous_report,
                    *device_descriptor,
                    r,
                    events,
                )
                &&& final(event_sender)@ == old(event_sender)@ + events
            },
{
    let mut reports = reports;
    let mut previous_report = previous_report;
    let ghost all = reports@;
    let ghost first = previous_report;
    let ghost mut done: Seq<E> = Seq::empty();
    proof {
        assert forall|last: Option<R>, events: Seq<E>| #[trigger]
            may_process(*process_report, all, first, *device_descriptor, last, events) implies may_process(
            *process_report,
            all,
            first,
            *device_descriptor,
            last,
            done + events,
        ) by {
            assert(done + events =~= events);
        }
        assert(event_sender@ =~= old(event_sender)@ + done);
    }
    while reports.len() > 0
        invariant
            forall|report: R, previous: Option<R>| #[trigger]
                call_requires(*process_report, (report, previous, device_descriptor)),
            forall|last: Option<R>, events: Seq<E>| #[trigger]
                may_process(
                    *process_report,
                    reports@,
                    previous_report,
                    *device_descriptor,
                    last,
                    events,
                ) ==> may_process(
                    *process_report,
                    all,
                    first,
                    *device_descriptor,
                    last,
                    done + events,
                ),
            event_sender@ == old(event_sender)@ + done,
        decreases reports.len(),
    {
        let ghost before = reports@;
        let ghost compared = previous_report;
        let ghost earlier = done;
        let report = reports.remove(0);
        let (next, mut generated) = process_report(report, previous_report, device_descriptor);
        let ghost made = generated;
        event_sender.append(&mut generated);
        previous_report = next;
        proof {
            assert(reports@ =~= before.drop_first());
            done = earlier + made@;
            assert forall|last: Option<R>, events: Seq<E>| #[trigger]
                may_process(
                    *process_report,
                    reports@,
                    next,
                    *device_descriptor,
                    last,
                    events,
                ) implies may_process(
                *process_report,
                all,
                first,
                *device_descriptor,
                last,
                done + events,
            ) by {
                assert(call_ensures(
                    *process_report,
                    (before[0], compared, device_descriptor),
                    (next, made),
                ));
                assert(is_joined(made@ + events, made@, events));
                assert(may_process(
                    *process_report,
                    before,
                    compared,
                    *device_descriptor,
                    last,
                    made@ + events,
                ));
                assert(earlier + (made@ + events) =~= done + events);
            }
            assert(event_sender@ =~= old(event_sender)@ + done);
        }
    }
    proof {
        let none: Seq<E> = Seq::empty();
        assert(may_process(
            *process_report,
            reports@,
            previous_report,
            *device_descriptor,
            previous_report,
            none,
        ));
        assert(done + none =~= done);
    }
    previous_report
}

/// A time in nanoseconds as an [`EventTime`]: one before the origin counts back from the end.
pub open spec fn nanos(time: i64) -> int {
    if time < 0 {
        time + 0x1_0000_0000_0000_0000
    } else {
        time as int
    }
}

/// Returns the event time if it exists, otherwise returns the current time.
///
/// # Parameters
/// - `event_time`: The event time from an InputReport.
/// - `now`: The current time.
pub fn event_time_or_now(event_time: Option<i64>, now: i64) -> (r: EventTime)
    ensures
        r == (match event_time {
            Some(time) => nanos(time),
            None => nanos(now),
        }),
{
    let time = match event_time {
        Some(time) => time,
        None => now,
    };
    assert(time >= 0 ==> time as u64 == time) by (bit_vector);
    assert(time < 0 ==> time as u64 == time + 0x1_0000_0000_0000_0000) by (bit_vector);
    #[verifier::truncate]
    (time as EventTime)
}

} // verus!
