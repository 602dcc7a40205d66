//! Finding messages in a stream of bytes, and telling watchers of them.
use dronekit::handler::{
    find_frame, read_messages, read_on_at, Dispatch, DkHandler, DkHandlerMessage, DkHandlerRx, HandlerAction,
};
use dronekit::message::Telemetry;
use dronekit::packet::MavPacket;
use dronekit::parameters::{Completion, Parameters};
use dronekit::connection::VehicleConnection;
use dronekit::text::encode_param_id;
use dronekit::watcher::{Watch, Watcher};

fn frame(message_id: u8, data: Vec<u8>) -> Vec<u8> {
    let mut p =
        MavPacket { seq: 0, system_id: 1, component_id: 1, message_id, data, checksum: 0 };
    p.update_crc();
    p.encode()
}

fn heartbeat() -> Vec<u8> {
    frame(0, vec![0, 0, 0, 0, 2, 3, 0, 3, 3])
}

fn parameter(name: &str, value: f32, count: u16, index: u16) -> Vec<u8> {
    let mut data: Vec<u8> = value.to_bits().to_le_bytes().to_vec();
    data.extend_from_slice(&count.to_le_bytes());
    data.extend_from_slice(&index.to_le_bytes());
    data.extend_from_slice(&encode_param_id(name));
    data.push(9);
    frame(22, data)
}

fn reported(name: &str, value: f32, count: u16, index: u16) -> Telemetry {
    Telemetry::ParamValue {
        value: value.to_bits(),
        count,
        index,
        id: encode_param_id(name).to_vec(),
    }
}

fn waiting_for(name: &str, value: f32, promise: u32) -> Watcher<u32> {
    Watcher { watch: Watch::Value { name: name.to_string(), value: value.to_bits() }, promise }
}

/// A watcher over a list of which nothing is known.
fn waiting_for_list(promise: u32) -> Watcher<u32> {
    let mut conn: VehicleConnection<u32> = VehicleConnection::new();
    match Parameters::new().complete(&mut conn, promise) {
        Completion::Pending(w) => w,
        Completion::Done(_) => panic!("done"),
    }
}

fn forwarded(dispatches: Vec<Dispatch<u32>>) -> Vec<DkHandlerRx> {
    dispatches.into_iter().map(|d| d.forward).collect()
}

fn completed(dispatches: Vec<Dispatch<u32>>) -> Vec<u32> {
    dispatches.into_iter().flat_map(|d| d.completed).collect()
}

fn fault(dispatches: &[Dispatch<u32>]) -> bool {
    dispatches.iter().any(|d| d.fault)
}

#[test]
fn frames_are_found() {
    let short: Vec<u8> = vec![0xfe, 0, 1, 2, 3, 4, 5, 6];
    assert_eq!(find_frame(&short, 0), Some((0, 8)));
    assert_eq!(find_frame(&short[..7], 0), None);
    assert_eq!(find_frame(&short, 1), None);
    assert_eq!(find_frame(&[], 0), None);
    let mut noisy: Vec<u8> = vec![1, 2];
    noisy.extend_from_slice(&[0xfe, 3, 0, 0, 0, 0, 0, 0, 0, 0]);
    assert_eq!(find_frame(&noisy, 0), None);
    noisy.push(0);
    assert_eq!(find_frame(&noisy, 0), Some((2, 13)));
    assert_eq!(find_frame(&noisy, 2), Some((2, 13)));
}

#[test]
fn reading_goes_on_behind_an_intact_frame_only() {
    assert_eq!(read_on_at((3, 20), true), 20);
    assert_eq!(read_on_at((3, 20), false), 4);
}

#[test]
fn messages_are_read_in_order() {
    let mut bytes = heartbeat();
    bytes.extend(parameter("A", 1.0, 2, 0));
    let (messages, read) = read_messages(&bytes);
    assert_eq!(messages, vec![Telemetry::Heartbeat, reported("A", 1.0, 2, 0)]);
    assert_eq!(read, bytes.len());
}

#[test]
fn noise_is_skipped() {
    let mut bytes = vec![1u8, 2, 3];
    bytes.extend(heartbeat());
    let (messages, read) = read_messages(&bytes);
    assert_eq!(messages, vec![Telemetry::Heartbeat]);
    assert_eq!(read, bytes.len());
    // Without a frame behind it, it stays.
    assert_eq!(read_messages(&[1, 2, 3]).1, 0);
}

#[test]
fn damaged_frame_is_passed_over() {
    let mut bytes = heartbeat();
    bytes[7] ^= 1;
    bytes.extend(heartbeat());
    let (messages, read) = read_messages(&bytes);
    assert_eq!(messages, vec![Telemetry::Heartbeat]);
    assert_eq!(read, bytes.len());
}

#[test]
fn message_inside_of_a_damaged_frame_is_read() {
    let inner = heartbeat();
    let mut bytes: Vec<u8> = vec![0xfe, inner.len() as u8, 0, 0, 0, 0];
    bytes.extend(&inner);
    bytes.extend_from_slice(&[0, 0]);
    assert_eq!(read_messages(&bytes).0, vec![Telemetry::Heartbeat]);
}

#[test]
fn intact_frame_of_an_unknown_message_is_dropped() {
    let mut bytes = frame(3, vec![1, 2, 3]);
    bytes.extend(heartbeat());
    assert_eq!(read_messages(&bytes).0, vec![Telemetry::Heartbeat]);
}

#[test]
fn start_byte_within_a_payload_begins_no_frame() {
    let bytes = frame(253, {
        let mut data = vec![6u8];
        data.extend_from_slice(&[0xfe; 50]);
        data
    });
    let (messages, read) = read_messages(&bytes);
    assert_eq!(messages.len(), 1);
    assert_eq!(read, bytes.len());
}

#[test]
fn bytes_may_come_in_any_pieces() {
    let mut bytes = vec![7u8, 0xfe, 0];
    bytes.extend(heartbeat());
    bytes.extend(parameter("A", 1.0, 2, 0));
    bytes.extend(&heartbeat()[..9]);
    let mut whole: DkHandler<u32> = DkHandler::new();
    let expected = forwarded(whole.ready(&bytes));
    assert_eq!(expected.len(), 2);
    for cut in 0..bytes.len() {
        let mut h: DkHandler<u32> = DkHandler::new();
        let mut forward = forwarded(h.ready(&bytes[..cut]));
        forward.extend(forwarded(h.ready(&bytes[cut..])));
        assert_eq!(forward, expected);
        assert_eq!(h.buf, whole.buf);
    }
    let mut h: DkHandler<u32> = DkHandler::new();
    let mut forward = vec![];
    for b in &bytes {
        forward.extend(forwarded(h.ready(&[*b])));
    }
    assert_eq!(forward, expected);
    assert_eq!(h.buf, whole.buf);
}

#[test]
fn messages_are_handed_on() {
    let mut h: DkHandler<u32> = DkHandler::new();
    let r = h.ready(&heartbeat());
    assert_eq!(r.len(), 1);
    assert_eq!(r[0].forward, DkHandlerRx::RxMessage(Telemetry::Heartbeat));
    assert!(r[0].completed.is_empty());
    assert!(!r[0].fault);
    assert!(h.buf.is_empty());
}

#[test]
fn watcher_of_a_value_ends_with_it() {
    let mut h: DkHandler<u32> = DkHandler::new();
    h.notify(DkHandlerMessage::TxWatcher(waiting_for("A", 1.0, 11)));
    let mut bytes = heartbeat();
    bytes.extend(parameter("B", 1.0, 2, 0));
    bytes.extend(parameter("A", 2.0, 2, 1));
    assert!(completed(h.ready(&bytes)).is_empty());
    assert_eq!(h.watchers.len(), 1);
    let r = h.ready(&parameter("A", 1.0, 2, 65535));
    assert_eq!(completed(r), vec![11]);
    assert!(h.watchers.is_empty());
    assert!(completed(h.ready(&parameter("A", 1.0, 2, 1))).is_empty());
}

#[test]
fn watcher_of_a_nan_never_ends() {
    let mut h: DkHandler<u32> = DkHandler::new();
    h.notify(DkHandlerMessage::TxWatcher(waiting_for("A", f32::NAN, 11)));
    assert!(completed(h.ready(&parameter("A", f32::NAN, 2, 1))).is_empty());
    h.notify(DkHandlerMessage::TxWatcher(waiting_for("A", -0.0, 12)));
    assert_eq!(completed(h.ready(&parameter("A", 0.0, 2, 1))), vec![12]);
}

#[test]
fn watcher_of_the_list_ends_when_all_have_come() {
    let mut h: DkHandler<u32> = DkHandler::new();
    h.notify(DkHandlerMessage::TxWatcher(waiting_for_list(5)));
    assert!(completed(h.ready(&parameter("A", 1.0, 3, 0))).is_empty());
    assert!(completed(h.ready(&parameter("B", 1.0, 3, 2))).is_empty());
    // The same one again does not count twice.
    assert!(completed(h.ready(&parameter("B", 1.0, 3, 2))).is_empty());
    assert_eq!(completed(h.ready(&parameter("C", 1.0, 3, 1))), vec![5]);
}

#[test]
fn watcher_of_the_list_begins_anew_with_another_length() {
    let mut h: DkHandler<u32> = DkHandler::new();
    h.notify(DkHandlerMessage::TxWatcher(waiting_for_list(5)));
    assert!(completed(h.ready(&parameter("A", 1.0, 2, 0))).is_empty());
    assert!(completed(h.ready(&parameter("A", 1.0, 3, 0))).is_empty());
    assert!(completed(h.ready(&parameter("B", 1.0, 3, 1))).is_empty());
    assert_eq!(completed(h.ready(&parameter("C", 1.0, 3, 2))), vec![5]);
}

#[test]
fn dispatch_keeps_the_order_of_watchers() {
    let mut h: DkHandler<u32> = DkHandler::new();
    for (name, promise) in [("A", 1), ("B", 2), ("A", 3), ("C", 4)] {
        h.notify(DkHandlerMessage::TxWatcher(waiting_for(name, 1.0, promise)));
    }
    let d = h.dispatch(reported("A", 1.0, 2, 0));
    assert!(!d.fault);
    assert_eq!(d.forward, DkHandlerRx::RxMessage(reported("A", 1.0, 2, 0)));
    assert_eq!(d.completed, vec![1, 3]);
    let left: Vec<u32> = h.watchers.iter().map(|w| w.promise).collect();
    assert_eq!(left, vec![2, 4]);
}

#[test]
fn other_messages_leave_watchers_alone() {
    let mut h: DkHandler<u32> = DkHandler::new();
    h.notify(DkHandlerMessage::TxWatcher(waiting_for("A", 1.0, 1)));
    h.notify(DkHandlerMessage::TxWatcher(waiting_for_list(2)));
    for m in [Telemetry::Heartbeat, Telemetry::Other, Telemetry::GlobalPosition { lat: 1, lon: 2, alt: 3 }] {
        let d = h.dispatch(m);
        assert!(d.completed.is_empty() && !d.fault);
    }
    assert_eq!(h.watchers.len(), 2);
}

#[test]
fn value_beyond_the_list_is_a_fault_of_a_list_watcher_alone() {
    let mut h: DkHandler<u32> = DkHandler::new();
    h.notify(DkHandlerMessage::TxWatcher(waiting_for("A", 1.0, 1)));
    assert!(!fault(&h.ready(&parameter("B", 1.0, 2, 2))));
    h.notify(DkHandlerMessage::TxWatcher(waiting_for_list(2)));
    let mut bytes = heartbeat();
    bytes.extend(parameter("B", 1.0, 2, 65535));
    bytes.extend(heartbeat());
    let r = h.ready(&bytes);
    assert_eq!(r.len(), 2);
    assert_eq!(r[0].forward, DkHandlerRx::RxMessage(Telemetry::Heartbeat));
    assert!(!r[0].fault);
    assert_eq!(r[1].forward, DkHandlerRx::RxMessage(reported("B", 1.0, 2, 65535)));
    assert!(r[1].fault);
}

#[test]
fn promises_ended_before_a_fault_are_given_out() {
    let mut h: DkHandler<u32> = DkHandler::new();
    h.notify(DkHandlerMessage::TxWatcher(waiting_for("A", 1.0, 1)));
    h.notify(DkHandlerMessage::TxWatcher(waiting_for("B", 1.0, 2)));
    h.notify(DkHandlerMessage::TxWatcher(waiting_for_list(3)));
    h.notify(DkHandlerMessage::TxWatcher(waiting_for("A", 1.0, 4)));
    let r = h.ready(&parameter("A", 1.0, 2, 65535));
    assert_eq!(r.len(), 1);
    assert!(r[0].fault);
    assert_eq!(r[0].completed, vec![1]);
    let left: Vec<u32> = h.watchers.iter().map(|w| w.promise).collect();
    assert_eq!(left, vec![2]);
}

#[test]
fn promises_of_a_message_come_before_the_next_message() {
    let mut h: DkHandler<u32> = DkHandler::new();
    h.notify(DkHandlerMessage::TxWatcher(waiting_for("A", 1.0, 1)));
    h.notify(DkHandlerMessage::TxWatcher(waiting_for("B", 1.0, 2)));
    let r = h.deliver(vec![reported("B", 1.0, 2, 0), Telemetry::Other, reported("A", 1.0, 2, 1)]);
    assert_eq!(r.len(), 3);
    assert_eq!(r[0].forward, DkHandlerRx::RxMessage(reported("B", 1.0, 2, 0)));
    assert_eq!(r[0].completed, vec![2]);
    assert_eq!(r[1].forward, DkHandlerRx::RxMessage(Telemetry::Other));
    assert!(r[1].completed.is_empty());
    assert_eq!(r[2].completed, vec![1]);
    assert!(!fault(&r));
}

#[test]
fn value_outside_of_the_list_ends_the_watcher_of_its_setting() {
    let mut h: DkHandler<u32> = DkHandler::new();
    h.notify(DkHandlerMessage::TxWatcher(waiting_for("A", 1.0, 1)));
    let r = h.ready(&parameter("A", 1.0, 2, 65535));
    assert!(!fault(&r));
    assert_eq!(completed(r), vec![1]);
}

#[test]
fn requests_say_what_to_do_with_the_socket() {
    let mut h: DkHandler<u32> = DkHandler::new();
    assert_eq!(h.notify(DkHandlerMessage::TxMessage(vec![1, 2])), HandlerAction::Write(vec![1, 2]));
    assert_eq!(h.notify(DkHandlerMessage::TxCork), HandlerAction::Cork(DkHandlerRx::RxCork));
    assert_eq!(h.notify(DkHandlerMessage::TxUncork), HandlerAction::Uncork);
    assert_eq!(
        h.notify(DkHandlerMessage::TxWatcher(waiting_for("A", 1.0, 1))),
        HandlerAction::Nothing
    );
    assert_eq!(h.watchers.len(), 1);
}
