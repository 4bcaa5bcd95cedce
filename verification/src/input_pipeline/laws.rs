//! What holds of input devices and their reports.

use crate::input_pipeline::input_device::{
    event_time_or_now, get_device_binding, initialize_report_stream, is_device_type,
    ConsumerControlButton, ConsumerControlDescriptor, ConsumerControlInputDescriptor, DeviceBinding,
    DeviceDescriptor, EventTime, InputDeviceType, ReadResult,
};
use vstd::prelude::*;

verus! {

/// A device is a keyboard, a mouse or a touch screen if and only if its descriptor has that part,
/// whatever else it has and whichever buttons are supported. A device without a descriptor is of no
/// type.
pub proof fn law_each_type_depends_on_its_own_part(
    descriptor: Option<DeviceDescriptor>,
    device_type: InputDeviceType,
    supported_buttons: &[ConsumerControlButton],
    r: bool,
)
    requires
        call_ensures(is_device_type, (&descriptor, device_type, supported_buttons), r),
    ensures
        descriptor is None ==> !r,
        descriptor is Some && device_type is Keyboard ==> r == descriptor->0.has_keyboard,
        descriptor is Some && device_type is Mouse ==> r == descriptor->0.has_mouse,
        descriptor is Some && device_type is Touch ==> r == descriptor->0.has_touch,
{
}

/// A device has media buttons if and only if one of its buttons is one of those that are supported.
pub proof fn law_media_buttons_are_shared_with_the_supported_ones(
    descriptor: DeviceDescriptor,
    supported_buttons: &[ConsumerControlButton],
    r: bool,
)
    requires
        call_ensures(
            is_device_type,
            (&Some(descriptor), InputDeviceType::MediaButtons, supported_buttons),
            r,
        ),
    ensures
        match descriptor.consumer_control {
            Some(
                ConsumerControlDescriptor {
                    input: Some(ConsumerControlInputDescriptor { buttons: Some(buttons) }),
                },
            ) => r == exists|i: int, j: int|
                0 <= i < buttons@.len() && 0 <= j < supported_buttons@.len() && (
                #[trigger] buttons@[i]).id == (#[trigger] supported_buttons@[j]).id,
            _ => !r,
        },
{
    if let Some(control) = descriptor.consumer_control {
        if let Some(input) = control.input {
            if let Some(buttons) = input.buttons {
                if exists|i: int, j: int|
                    0 <= i < buttons@.len() && 0 <= j < supported_buttons@.len() && (
                    #[trigger] buttons@[i]).id == (#[trigger] supported_buttons@[j]).id {
                    let (i, j) = choose|i: int, j: int|
                        0 <= i < buttons@.len() && 0 <= j < supported_buttons@.len() && (
                        #[trigger] buttons@[i]).id == (#[trigger] supported_buttons@[j]).id;
                    assert(buttons@[i] == supported_buttons@[j]);
                    assert(supported_buttons@.contains(descriptor.buttons()[i]));
                }
                if r {
                    let i = choose|i: int|
                        0 <= i < descriptor.buttons().len() && supported_buttons@.contains(
                            #[trigger] descriptor.buttons()[i],
                        );
                    let j = choose|j: int|
                        0 <= j < supported_buttons@.len() && supported_buttons@[j]
                            == descriptor.buttons()[i];
                    assert(buttons@[i].id == supported_buttons@[j].id);
                }
            }
        }
    }
}

/// Supporting more buttons, or having more of them, does not make a device lose its media buttons.
pub proof fn law_more_buttons_lose_nothing(
    descriptor: DeviceDescriptor,
    fewer: &[ConsumerControlButton],
    more: &[ConsumerControlButton],
    with_fewer: bool,
    with_more: bool,
)
    requires
        forall|i: int| 0 <= i < fewer@.len() ==> more@.contains(#[trigger] fewer@[i]),
        call_ensures(
            is_device_type,
            (&Some(descriptor), InputDeviceType::MediaButtons, fewer),
            with_fewer,
        ),
        call_ensures(
            is_device_type,
            (&Some(descriptor), InputDeviceType::MediaButtons, more),
            with_more,
        ),
    ensures
        with_fewer ==> with_more,
{
    if with_fewer {
        let i = choose|i: int|
            0 <= i < descriptor.buttons().len() && fewer@.contains(
                #[trigger] descriptor.buttons()[i],
            );
        let j = choose|j: int| 0 <= j < fewer@.len() && fewer@[j] == descriptor.buttons()[i];
        assert(more@.contains(fewer@[j]));
    }
}

/// Devices of different types are bound differently, and those whose events tell the device by the
/// id that they were given.
pub proof fn law_bindings_follow_the_type(
    device_type: InputDeviceType,
    device_id: u32,
    r: DeviceBinding,
)
    requires
        call_ensures(get_device_binding, (device_type, device_id), r),
    ensures
        r is Keyboard <==> device_type is Keyboard,
        r is MediaButtons <==> device_type is MediaButtons,
        r is Mouse <==> device_type is Mouse,
        r is Touch <==> device_type is Touch,
        r matches DeviceBinding::Mouse { device_id: bound } ==> bound == device_id,
        r matches DeviceBinding::Touch { device_id: bound } ==> bound == device_id,
{
}

/// Whether `reports` have been processed in their order: each with what became of the one before
/// it, which is in `afters`, to generate one of `made`.
pub open spec fn processed<R, D, E, F: Fn(R, Option<R>, &D) -> (Option<R>, Vec<E>)>(
    process_reports: F,
    reports: Seq<R>,
    device_descriptor: D,
    afters: Seq<Option<R>>,
    made: Seq<Seq<E>>,
) -> bool {
    &&& afters.len() == reports.len() + 1
    &&& made.len() == reports.len()
    &&& forall|i: int|
        0 <= i < reports.len() ==> #[trigger] processed_at(
            process_reports,
            reports,
            device_descriptor,
            afters,
            made,
            i,
        )
}

/// Whether the report at position `i` has been processed so.
pub open spec fn processed_at<R, D, E, F: Fn(R, Option<R>, &D) -> (Option<R>, Vec<E>)>(
    process_reports: F,
    reports: Seq<R>,
    device_descriptor: D,
    afters: Seq<Option<R>>,
    made: Seq<Seq<E>>,
    i: int,
) -> bool {
    exists|events: Vec<E>|
        events@ == made[i] && #[trigger] call_ensures(
            process_reports,
            (reports[i], afters[i], &device_descriptor),
            (afters[i + 1], events),
        )
}

/// Every report is processed once and in order, together with what became of the one before it, and
/// the events come out in that order, behind those that were there. When there are no reports to
/// come, nothing is generated and the stream ends.
pub proof fn law_each_report_is_processed_once_in_order<
    R,
    D,
    E,
    F: Fn(R, Option<R>, &D) -> (Option<R>, Vec<E>),
>(
    read: ReadResult<R>,
    previous_report: Option<R>,
    device_descriptor: D,
    event_sender: &mut Vec<E>,
    process_reports: F,
    r: Option<Option<R>>,
)
    requires
        call_ensures(
            initialize_report_stream::<R, D, E, F>,
            (read, previous_report, &device_descriptor, event_sender, &process_reports),
            r,
        ),
    ensures
        match read {
            ReadResult::Reports(reports) => exists|afters: Seq<Option<R>>, made: Seq<Seq<E>>|
                {
                    &&& #[trigger] processed(
                        process_reports,
                        reports@,
                        device_descriptor,
                        afters,
                        made,
                    )
                    &&& afters[0] == previous_report
                    &&& r == Some(afters.last())
                    &&& final(event_sender)@ == old(event_sender)@ + made.flatten()
                },
            _ => r is None && final(event_sender)@ == old(event_sender)@,
        },
{
    if let ReadResult::Reports(reports) = read {
        let events = choose|events: Seq<E>|
            {
                &&& #[trigger] crate::input_pipeline::input_device::may_process(
                    process_reports,
                    reports@,
                    previous_report,
                    device_descriptor,
                    r->0,
                    events,
                )
                &&& final(event_sender)@ == old(event_sender)@ + events
            };
        let (afters, made) = lemma_processed(
            process_reports,
            reports@,
            previous_report,
            device_descriptor,
            r->0,
            events,
        );
        assert(processed(process_reports, reports@, device_descriptor, afters, made));
    }
}

proof fn lemma_processed<R, D, E, F: Fn(R, Option<R>, &D) -> (Option<R>, Vec<E>)>(
    process_reports: F,
    reports: Seq<R>,
    previous: Option<R>,
    device_descriptor: D,
    last: Option<R>,
    events: Seq<E>,
) -> (r: (Seq<Option<R>>, Seq<Seq<E>>))
    requires
        crate::input_pipeline::input_device::may_process(
            process_reports,
            reports,
            previous,
            device_descriptor,
            last,
            events,
        ),
    ensures
        processed(process_reports, reports, device_descriptor, r.0, r.1),
        r.0[0] == previous,
        r.0.last() == last,
        r.1.flatten() == events,
    decreases reports.len(),
{
    if reports.len() == 0 {
        let r = (seq![previous], Seq::<Seq<E>>::empty());
        assert(r.1.flatten() =~= events);
        r
    } else {
        let (next, generated, rest) = choose|
            next: Option<R>,
            generated: Vec<E>,
            rest: Seq<E>,
        |
            {
                &&& #[trigger] call_ensures(
                    process_reports,
                    (reports[0], previous, &device_descriptor),
                    (next, generated),
                )
                &&& crate::input_pipeline::input_device::may_process(
                    process_reports,
                    reports.drop_first(),
                    next,
                    device_descriptor,
                    last,
                    rest,
                )
                &&& #[trigger] crate::input_pipeline::input_device::is_joined(
                    events,
                    generated@,
                    rest,
                )
            };
        let (afters, made) = lemma_processed(
            process_reports,
            reports.drop_first(),
            next,
            device_descriptor,
            last,
            rest,
        );
        let all = (seq![previous] + afters, seq![generated@] + made);
        assert(all.1.drop_first() =~= made);
        assert(all.1.flatten() =~= events);
        assert(all.0.last() == last);
        assert forall|i: int| 0 <= i < reports.len() implies #[trigger] processed_at(
            process_reports,
            reports,
            device_descriptor,
            all.0,
            all.1,
            i,
        ) by {
            if i == 0 {
                assert(generated@ == all.1[0]);
                assert(call_ensures(
                    process_reports,
                    (reports[0], all.0[0], &device_descriptor),
                    (all.0[1], generated),
                ));
            } else {
                assert(processed_at(
                    process_reports,
                    reports.drop_first(),
                    device_descriptor,
                    afters,
                    made,
                    i - 1,
                ));
                assert(all.0[i] == afters[i - 1] && all.0[i + 1] == afters[i - 1 + 1]);
            }
        }
        all
    }
}

/// The time of an event is that of its report, or the current time where the report has none. Times
/// that are not negative are kept as they are, and different times stay different.
pub proof fn law_event_times_are_kept(
    event_time: Option<i64>,
    now: i64,
    r: EventTime,
    other_time: Option<i64>,
    other_now: i64,
    other: EventTime,
)
    requires
        call_ensures(event_time_or_now, (event_time, now), r),
        call_ensures(event_time_or_now, (other_time, other_now), other),
    ensures
        event_time is Some && event_time->0 >= 0 ==> r == event_time->0,
        event_time is None && now >= 0 ==> r == now,
        event_time is Some && event_time->0 < 0 ==> r - event_time->0 == 0x1_0000_0000_0000_0000,
        event_time is None && now < 0 ==> r - now == 0x1_0000_0000_0000_0000,
        event_time is Some && other_time is Some ==> (r == other <==> event_time == other_time),
        event_time is None && other_time is None ==> (r == other <==> now == other_now),
{
}

} // verus!
