//! Input devices.

use fuchsia_logic::input_pipeline::input_device::{
    event_time_or_now, get_device_binding, initialize_report_stream, is_device_type,
    ConsumerControlButton, ConsumerControlDescriptor, ConsumerControlInputDescriptor,
    DeviceBinding, DeviceDescriptor, EventTime, InputDeviceDescriptor, InputDeviceEvent,
    InputDeviceType, InputEvent, ReadResult, INPUT_EVENT_BUFFER_SIZE, INPUT_REPORT_PATH,
};

const VOLUME_UP: ConsumerControlButton = ConsumerControlButton { id: 1 };
const VOLUME_DOWN: ConsumerControlButton = ConsumerControlButton { id: 2 };
const REBOOT: ConsumerControlButton = ConsumerControlButton { id: 5 };
const SUPPORTED: [ConsumerControlButton; 2] = [VOLUME_UP, VOLUME_DOWN];

fn nothing() -> DeviceDescriptor {
    DeviceDescriptor {
        has_mouse: false,
        has_touch: false,
        has_keyboard: false,
        consumer_control: None,
    }
}

fn with_buttons(buttons: Vec<ConsumerControlButton>) -> DeviceDescriptor {
    DeviceDescriptor {
        consumer_control: Some(ConsumerControlDescriptor {
            input: Some(ConsumerControlInputDescriptor { buttons: Some(buttons) }),
        }),
        ..nothing()
    }
}

fn matches_type(descriptor: DeviceDescriptor, device_type: InputDeviceType) -> bool {
    is_device_type(&Some(descriptor), device_type, &SUPPORTED)
}

#[test]
fn max_event_time() {
    let event_time = event_time_or_now(Some(std::i64::MAX), 0);
    assert_eq!(event_time, std::i64::MAX as EventTime);
}

#[test]
fn min_event_time() {
    let event_time = event_time_or_now(Some(std::i64::MIN), 0);
    assert_eq!(event_time, std::i64::MIN as EventTime);
    assert_eq!(event_time, 0x8000_0000_0000_0000);
}

#[test]
fn missing_event_time_is_now() {
    assert_eq!(event_time_or_now(None, 1234), 1234);
    assert_eq!(event_time_or_now(Some(7), 1234), 7);
    assert_eq!(event_time_or_now(None, -1), u64::MAX);
}

#[test]
fn media_buttons_input_device_exists() {
    let device = with_buttons(vec![VOLUME_UP, VOLUME_DOWN]);
    assert!(matches_type(device, InputDeviceType::MediaButtons));
}

#[test]
fn media_buttons_input_device_doesnt_exists() {
    assert!(!matches_type(with_buttons(vec![REBOOT]), InputDeviceType::MediaButtons));
}

#[test]
fn one_supported_button_is_enough() {
    let device = with_buttons(vec![REBOOT, VOLUME_DOWN]);
    assert!(matches_type(device, InputDeviceType::MediaButtons));
    assert!(!matches_type(with_buttons(vec![]), InputDeviceType::MediaButtons));
    assert!(!matches_type(nothing(), InputDeviceType::MediaButtons));
    for input in [None, Some(ConsumerControlInputDescriptor { buttons: None })] {
        let device = DeviceDescriptor {
            consumer_control: Some(ConsumerControlDescriptor { input }),
            ..nothing()
        };
        assert!(!matches_type(device, InputDeviceType::MediaButtons));
    }
}

#[test]
fn mouse_input_device_exists() {
    assert!(matches_type(
        DeviceDescriptor { has_mouse: true, ..nothing() },
        InputDeviceType::Mouse
    ));
}

#[test]
fn mouse_input_device_doesnt_exist() {
    assert!(!matches_type(nothing(), InputDeviceType::Mouse));
}

#[test]
fn touch_input_device_exists() {
    assert!(matches_type(
        DeviceDescriptor { has_touch: true, ..nothing() },
        InputDeviceType::Touch
    ));
}

#[test]
fn touch_input_device_doesnt_exist() {
    assert!(!matches_type(nothing(), InputDeviceType::Touch));
}

#[test]
fn keyboard_input_device_exists() {
    assert!(matches_type(
        DeviceDescriptor { has_keyboard: true, ..nothing() },
        InputDeviceType::Keyboard
    ));
}

#[test]
fn keyboard_input_device_doesnt_exist() {
    assert!(!matches_type(nothing(), InputDeviceType::Keyboard));
}

#[test]
fn no_input_device_match() {
    let device = Some(DeviceDescriptor {
        has_mouse: true,
        has_touch: true,
        has_keyboard: true,
        ..with_buttons(vec![VOLUME_UP, VOLUME_DOWN])
    });
    for device_type in [
        InputDeviceType::MediaButtons,
        InputDeviceType::Mouse,
        InputDeviceType::Touch,
        InputDeviceType::Keyboard,
    ] {
        assert!(is_device_type(&device, device_type, &SUPPORTED));
        assert!(!is_device_type(&None, device_type, &SUPPORTED));
    }
}

/// Generates the change from the report before, if there was one.
fn change(report: i32, previous: Option<i32>, scale: &i32) -> (Option<i32>, Vec<i32>) {
    match previous {
        Some(previous) => (Some(report), vec![(report - previous) * scale]),
        None => (Some(report), vec![]),
    }
}

#[test]
fn each_report_is_compared_to_the_one_before() {
    let mut events = vec![-1];
    let reports = ReadResult::Reports(vec![3, 5, 4]);
    let last = initialize_report_stream(reports, None, &10, &mut events, &change);
    assert_eq!(last, Some(Some(4)));
    assert_eq!(events, vec![-1, 20, -10]);

    // The next batch goes on from there.
    let reports = ReadResult::Reports(vec![6]);
    let last = initialize_report_stream(reports, last.unwrap(), &10, &mut events, &change);
    assert_eq!(last, Some(Some(6)));
    assert_eq!(events, vec![-1, 20, -10, 20]);

    // All at once is the same.
    let mut at_once = vec![-1];
    let reports = ReadResult::Reports(vec![3, 5, 4, 6]);
    assert_eq!(
        initialize_report_stream(reports, None, &10, &mut at_once, &change),
        Some(Some(6))
    );
    assert_eq!(at_once, events);
}

#[test]
fn no_reports_change_nothing() {
    let mut events = vec![];
    let reports = ReadResult::Reports(vec![]);
    assert_eq!(
        initialize_report_stream(reports, Some(2), &1, &mut events, &change),
        Some(Some(2))
    );
    assert!(events.is_empty());
}

#[test]
fn reading_ends_with_the_first_error() {
    let mut events = vec![];
    for read in [ReadResult::ServiceError, ReadResult::FidlError, ReadResult::Ended] {
        assert_eq!(initialize_report_stream(read, Some(2), &1, &mut events, &change), None);
    }
    assert!(events.is_empty());
}

#[test]
fn events_carry_their_device() {
    type Event = InputDeviceEvent<char, u8, (i64, i64), u32>;
    type Descriptor = InputDeviceDescriptor<Vec<char>, u8, (), u32>;
    let event: InputEvent<Event, Descriptor> = InputEvent {
        device_event: InputDeviceEvent::Keyboard('a'),
        device_descriptor: InputDeviceDescriptor::Keyboard(vec!['a', 'b']),
        event_time: 5,
    };
    assert_eq!(event.clone(), event);
    assert_ne!(InputEvent { event_time: 6, ..event.clone() }, event);
    assert_eq!(INPUT_EVENT_BUFFER_SIZE, 100);
    assert_eq!(INPUT_REPORT_PATH, "/dev/class/input-report");
}

#[test]
fn devices_are_bound_by_their_type() {
    let binding = |device_type| get_device_binding(device_type, 7);
    assert_eq!(binding(InputDeviceType::MediaButtons), DeviceBinding::MediaButtons);
    assert_eq!(binding(InputDeviceType::Mouse), DeviceBinding::Mouse { device_id: 7 });
    assert_eq!(binding(InputDeviceType::Touch), DeviceBinding::Touch { device_id: 7 });
    assert_eq!(binding(InputDeviceType::Keyboard), DeviceBinding::Keyboard);
}
