//! What a vehicle's messages do, and what is sent to it.
use dronekit::connection::{Resumed, VehicleConnection};
use dronekit::handler::{read_messages, DkHandler, DkHandlerMessage, DkHandlerRx};
use dronekit::message::{Command, Telemetry};
use dronekit::packet::MavPacket;
use dronekit::parameters::{Completion, Parameters};
use dronekit::text::encode_param_id;
use dronekit::vehicle::{Notice, UpdateAction, Vehicle};
use dronekit::watcher::{Watch, Watcher};

fn reported(name: &str, value: f32, count: u16, index: u16) -> Telemetry {
    Telemetry::ParamValue {
        value: value.to_bits(),
        count,
        index,
        id: encode_param_id(name).to_vec(),
    }
}

fn vehicle() -> Vehicle<u32> {
    Vehicle::new(VehicleConnection::new())
}

/// The packets to be sent, with what else is asked of the handler left out.
fn sent(conn: &mut VehicleConnection<u32>) -> Vec<MavPacket> {
    let mut packets = vec![];
    for m in conn.take_outbox() {
        if let DkHandlerMessage::TxMessage(bytes) = m {
            let p = MavPacket::new(&bytes);
            assert!(p.check_crc());
            packets.push(p);
        }
    }
    packets
}

fn ids(packets: &[MavPacket]) -> Vec<u8> {
    packets.iter().map(|p| p.message_id).collect()
}

#[test]
fn packets_are_numbered_and_addressed() {
    let mut conn: VehicleConnection<u32> = VehicleConnection::new();
    for _ in 0..258 {
        conn.send(Command::ParamRequestList { target_system: 1, target_component: 2 });
    }
    assert_eq!(conn.msg_id, 2);
    let packets = sent(&mut conn);
    assert_eq!(packets.len(), 258);
    for (i, p) in packets.iter().enumerate() {
        assert_eq!(p.seq as usize, i % 256);
        assert_eq!((p.system_id, p.component_id, p.message_id), (255, 0, 21));
        assert_eq!(p.data, vec![1u8, 2]);
    }
    assert!(conn.take_outbox().is_empty());
}

#[test]
fn sent_packet_is_read_by_the_other_side() {
    let mut v = vehicle();
    v.send_heartbeat();
    for m in v.connection.take_outbox() {
        if let DkHandlerMessage::TxMessage(bytes) = m {
            let (messages, read) = read_messages(&bytes);
            assert_eq!(messages, vec![Telemetry::Heartbeat]);
            assert_eq!(read, bytes.len());
        }
    }
}

#[test]
fn first_heartbeat_is_answered_with_requests() {
    let mut v = vehicle();
    assert!(v.init());
    assert_eq!(ids(&sent(&mut v.connection)), vec![0]);
    assert_eq!(v.on_message(Telemetry::Heartbeat), None);
    let packets = sent(&mut v.connection);
    assert_eq!(ids(&packets), vec![0, 21, 66]);
    assert_eq!(packets[0].data, vec![0u8, 0, 0, 0, 6, 8, 0, 0, 3]);
    assert_eq!(packets[1].data, vec![0u8, 0]);
    assert_eq!(packets[2].data, vec![100u8, 0, 0, 0, 0, 1]);
    assert_eq!(packets.iter().map(|p| p.seq).collect::<Vec<u8>>(), vec![1, 2, 3]);
    assert!(!v.waiting());
    v.on_message(Telemetry::Heartbeat);
    assert_eq!(ids(&sent(&mut v.connection)), vec![0]);
    assert!(!v.init());
}

#[test]
fn positions_are_kept() {
    let mut v = vehicle();
    assert!(v.location_global.is_none());
    v.on_message(Telemetry::GlobalPosition { lat: 1, lon: 2, alt: 3 });
    v.on_message(Telemetry::GlobalPosition { lat: -4, lon: 5, alt: 6 });
    v.on_message(Telemetry::Other);
    let at = v.location_global.clone().unwrap();
    assert_eq!((at.lat, at.lon, at.alt), (-4, 5, 6));
    assert!(v.connection.take_outbox().is_empty());
}

#[test]
fn status_text_is_shown() {
    let mut v = vehicle();
    let n = v.on_message(Telemetry::StatusText { severity: 3, text: b"low battery\0\0".to_vec() });
    assert_eq!(n, Some(Notice { severity: 3, text: "low battery".to_string() }));
}

#[test]
fn parameters_are_kept_by_name_and_place() {
    let mut p = Parameters::new();
    assert_eq!(p.get("A"), None);
    assert_eq!(p.available(), 0);
    p.resize(2);
    p.assign(0, "A", 1);
    p.assign(65535, "B", 2);
    assert_eq!(p.get("A"), Some(&1));
    assert_eq!(p.get("B"), Some(&2));
    assert_eq!(p.available(), 1);
    assert_eq!(p.remaining(), 1);
    p.assign(1, "B", 3);
    assert_eq!(p.get("B"), Some(&3));
    assert_eq!(p.available(), 2);
    p.assign(1, "B", 4);
    assert_eq!(p.available(), 2);
    assert_eq!(p.remaining(), 2);
}

#[test]
fn another_length_forgets_everything() {
    let mut p = Parameters::new();
    p.resize(2);
    p.assign(0, "A", 1);
    p.resize(2);
    assert_eq!(p.get("A"), Some(&1));
    p.resize(3);
    assert_eq!(p.get("A"), None);
    assert_eq!(p.available(), 0);
    p.assign(2, "A", 5);
    p.resize(0);
    assert_eq!(p.get("A"), None);
}

#[test]
fn reports_reach_the_parameters() {
    let mut v = vehicle();
    v.on_message(reported("THR_MIN", 130.0, 2, 1));
    assert_eq!(v.parameters.get("THR_MIN"), Some(&130.0f32.to_bits()));
    assert_eq!(v.parameters.available(), 1);
    v.on_message(reported("THR_MIN", 140.0, 2, 65535));
    assert_eq!(v.parameters.get("THR_MIN"), Some(&140.0f32.to_bits()));
    assert_eq!(v.parameters.available(), 1);
    v.on_message(reported("THR_MAX", 1.0, 3, 0));
    assert_eq!(v.parameters.get("THR_MIN"), None);
}

#[test]
fn setting_registers_a_watcher_before_it_sends() {
    let mut v = vehicle();
    v.parameters.set(&mut v.connection, "THR_MIN", 130.0f32.to_bits(), 9);
    let outbox = v.connection.take_outbox();
    assert_eq!(outbox.len(), 2);
    let mut h: DkHandler<u32> = DkHandler::new();
    match &outbox[1] {
        DkHandlerMessage::TxMessage(bytes) => {
            let p = MavPacket::new(bytes);
            assert_eq!(p.message_id, 23);
            let mut data: Vec<u8> = 130.0f32.to_bits().to_le_bytes().to_vec();
            data.extend_from_slice(&[0, 0]);
            data.extend_from_slice(&encode_param_id("THR_MIN"));
            data.push(0);
            assert_eq!(p.data, data);
        }
        _ => panic!("no packet"),
    }
    for m in outbox {
        h.notify(m);
    }
    assert_eq!(h.watchers.len(), 1);
    assert_eq!(h.dispatch(reported("THR_MIN", 120.0, 2, 0)).completed, vec![]);
    assert_eq!(h.dispatch(reported("THR_MIN", 130.0, 2, 0)).completed, vec![9]);
}

#[test]
fn name_too_long_to_be_sent_is_not_answered() {
    let mut v = vehicle();
    v.parameters.set(&mut v.connection, "ABCDEFGHIJKLMNOPQ", 0, 9);
    let mut h: DkHandler<u32> = DkHandler::new();
    for m in v.connection.take_outbox() {
        h.notify(m);
    }
    assert_eq!(h.dispatch(reported("ABCDEFGHIJKLMNOPQ", 0.0, 2, 0)).completed, vec![]);
}

#[test]
fn complete_list_is_told_at_once() {
    let mut v = vehicle();
    v.on_message(reported("A", 1.0, 2, 0));
    v.on_message(reported("B", 1.0, 2, 1));
    match v.parameters.complete(&mut v.connection, 4) {
        Completion::Done(promise) => assert_eq!(promise, 4),
        Completion::Pending(_) => panic!("pending"),
    }
    assert!(v.connection.take_outbox().is_empty());
}

#[test]
fn incomplete_list_is_watched() {
    let mut v = vehicle();
    v.on_message(reported("A", 1.0, 3, 0));
    let watcher = match v.parameters.complete(&mut v.connection, 4) {
        Completion::Pending(w) => w,
        Completion::Done(_) => panic!("done"),
    };
    let outbox = v.connection.take_outbox();
    assert_eq!(outbox.len(), 1);
    assert!(matches!(outbox[0], DkHandlerMessage::TxCork));
    // What comes before reading stops is set aside.
    assert!(!v.connection.corked(DkHandlerRx::RxMessage(reported("B", 1.0, 3, 1))));
    assert!(v.connection.corked(DkHandlerRx::RxCork));
    assert!(matches!(v.connection.resume(watcher), Resumed::Registered));
    let outbox = v.connection.take_outbox();
    assert_eq!(outbox.len(), 2);
    assert!(matches!(outbox[1], DkHandlerMessage::TxUncork));
    let mut h: DkHandler<u32> = DkHandler::new();
    for m in outbox {
        h.notify(m);
    }
    // The message set aside counts for the watcher, and still reaches the parameters.
    assert_eq!(h.dispatch(reported("C", 1.0, 3, 2)).completed, vec![4]);
    let u = v.update(false);
    assert_eq!(u.next, UpdateAction::TryReceive);
    assert_eq!(v.parameters.available(), 2);
}

#[test]
fn message_set_aside_can_complete_the_list() {
    let mut v = vehicle();
    let watcher = match v.parameters.complete(&mut v.connection, 4) {
        Completion::Pending(w) => w,
        Completion::Done(_) => panic!("done"),
    };
    v.connection.corked(DkHandlerRx::RxMessage(Telemetry::Heartbeat));
    v.connection.corked(DkHandlerRx::RxMessage(reported("A", 1.0, 1, 0)));
    v.connection.take_outbox();
    assert!(matches!(v.connection.resume(watcher), Resumed::Done(4)));
    let outbox = v.connection.take_outbox();
    assert_eq!(outbox.len(), 1);
    assert!(matches!(outbox[0], DkHandlerMessage::TxUncork));
    assert_eq!(v.connection.buffer.len(), 2);
}

#[test]
fn message_set_aside_beyond_the_list_is_a_fault() {
    let mut v = vehicle();
    let watcher = match v.parameters.complete(&mut v.connection, 4) {
        Completion::Pending(w) => w,
        Completion::Done(_) => panic!("done"),
    };
    v.connection.take_outbox();
    v.connection.corked(DkHandlerRx::RxMessage(reported("A", 1.0, 1, 65535)));
    assert!(matches!(v.connection.resume(watcher), Resumed::Fault));
    assert!(v.connection.take_outbox().is_empty());
}

#[test]
fn resumed_watcher_of_a_value_sees_messages_set_aside() {
    let mut conn: VehicleConnection<u32> = VehicleConnection::new();
    let watch = || Watch::Value { name: "A".to_string(), value: 1.0f32.to_bits() };
    conn.corked(DkHandlerRx::RxMessage(reported("A", 2.0, 1, 0)));
    assert!(matches!(conn.resume(Watcher { watch: watch(), promise: 1 }), Resumed::Registered));
    conn.corked(DkHandlerRx::RxMessage(reported("A", 1.0, 1, 0)));
    assert!(matches!(conn.resume(Watcher { watch: watch(), promise: 2 }), Resumed::Done(2)));
}

#[test]
fn cork_and_uncork_are_asked_for() {
    let mut conn: VehicleConnection<u32> = VehicleConnection::new();
    conn.cork();
    conn.uncork();
    let outbox = conn.take_outbox();
    assert!(matches!(outbox[0], DkHandlerMessage::TxCork));
    assert!(matches!(outbox[1], DkHandlerMessage::TxUncork));
}

#[test]
fn messages_set_aside_are_taken_in_order() {
    let mut conn: VehicleConnection<u32> = VehicleConnection::new();
    conn.corked(DkHandlerRx::RxMessage(Telemetry::Heartbeat));
    conn.corked(DkHandlerRx::RxMessage(Telemetry::Other));
    assert_eq!(conn.take_buffered(), Some(Telemetry::Heartbeat));
    assert_eq!(conn.take_buffered(), Some(Telemetry::Other));
    assert_eq!(conn.take_buffered(), None);
}

#[test]
fn update_waits_only_if_nothing_is_set_aside() {
    let mut v = vehicle();
    assert_eq!(v.update(true).next, UpdateAction::Receive);
    assert_eq!(v.update(false).next, UpdateAction::TryReceive);
    v.connection.corked(DkHandlerRx::RxMessage(Telemetry::StatusText {
        severity: 1,
        text: vec![65],
    }));
    v.connection.corked(DkHandlerRx::RxMessage(Telemetry::GlobalPosition {
        lat: 1,
        lon: 2,
        alt: 3,
    }));
    let u = v.update(true);
    assert_eq!(u.next, UpdateAction::TryReceive);
    assert_eq!(u.notices, vec![Notice { severity: 1, text: "A".to_string() }]);
    assert!(v.location_global.is_some());
    assert!(v.connection.buffer.is_empty());
}

#[test]
fn what_is_received_is_taken_account_of() {
    let mut v = vehicle();
    assert_eq!(v.received(Some(DkHandlerRx::RxMessage(Telemetry::Heartbeat))).next,
        UpdateAction::TryReceive);
    assert!(!v.waiting());
    assert_eq!(v.received(Some(DkHandlerRx::RxCork)).next, UpdateAction::TryReceive);
    assert_eq!(v.received(None).next, UpdateAction::Done);
    let u = v.received(Some(DkHandlerRx::RxMessage(Telemetry::StatusText {
        severity: 2,
        text: vec![66, 0],
    })));
    assert_eq!(u.notices, vec![Notice { severity: 2, text: "B".to_string() }]);
}

#[test]
fn value_beyond_the_list_is_a_fault() {
    let mut v = vehicle();
    let u = v.received(Some(DkHandlerRx::RxMessage(reported("A", 1.0, 2, 2))));
    assert_eq!(u.next, UpdateAction::Fault);
    assert_eq!(v.parameters.get("A"), Some(&1.0f32.to_bits()));
    assert_eq!(v.parameters.available(), 0);
    v.connection.corked(DkHandlerRx::RxMessage(reported("A", 1.0, 0, 0)));
    v.connection.corked(DkHandlerRx::RxMessage(Telemetry::Heartbeat));
    assert_eq!(v.update(false).next, UpdateAction::Fault);
    assert_eq!(v.connection.buffer.len(), 1);
}
