//! The MAVLink messages that a ground station exchanges with a vehicle.
//!
//! [`Telemetry`] is what a vehicle reports, [`Command`] is what is sent to it. A parameter value is
//! an IEEE 754 single, held here as its 32 bits.
use vstd::prelude::*;

use mavlink::dialects::common::MavMessage;
use mavlink::error::ParserError;
use mavlink::MavlinkVersion;
use mavlink::Message;

verus! {

/// A message received from the vehicle, with the fields that matter to this library.
#[derive(Debug, PartialEq)]
pub enum Telemetry {
    Heartbeat,
    StatusText { severity: u8, text: Vec<u8> },
    ParamValue { value: u32, count: u16, index: u16, id: Vec<u8> },
    GlobalPosition { lat: i32, lon: i32, alt: i32 },
    /// Any other message of the dialect.
    Other,
}

/// What a [`Telemetry`] value says.
pub enum TelemetryView {
    Heartbeat,
    StatusText { severity: u8, text: Seq<u8> },
    ParamValue { value: u32, count: u16, index: u16, id: Seq<u8> },
    GlobalPosition { lat: i32, lon: i32, alt: i32 },
    Other,
}

impl View for Telemetry {
    type V = TelemetryView;

    open spec fn view(&self) -> TelemetryView {
        match self {
            Telemetry::Heartbeat => TelemetryView::Heartbeat,
            Telemetry::StatusText { severity, text } => TelemetryView::StatusText {
                severity: *severity,
                text: text@,
            },
            Telemetry::ParamValue { value, count, index, id } => TelemetryView::ParamValue {
                value: *value,
                count: *count,
                index: *index,
                id: id@,
            },
            Telemetry::GlobalPosition { lat, lon, alt } => TelemetryView::GlobalPosition {
                lat: *lat,
                lon: *lon,
                alt: *alt,
            },
            Telemetry::Other => TelemetryView::Other,
        }
    }
}

/// The index that marks a parameter value as sent outside of the numbered list.
pub const UNLISTED_INDEX: u16 = 65535;

impl TelemetryView {
    /// Whether a parameter value names a place in the numbered list of parameters.
    pub open spec fn listed(self) -> bool {
        self matches TelemetryView::ParamValue { count, index, .. } ==> index < count
    }

    /// Whether a parameter value names a place in the list or says that it has none.
    pub open spec fn in_range(self) -> bool {
        self matches TelemetryView::ParamValue { index, .. } ==> index == UNLISTED_INDEX
            || self.listed()
    }
}

impl Telemetry {
    /// See [`TelemetryView::listed`].
    pub fn listed(&self) -> (r: bool)
        ensures
            r == self@.listed(),
    {
        match self {
            Telemetry::ParamValue { count, index, .. } => *index < *count,
            _ => true,
        }
    }

    /// See [`TelemetryView::in_range`].
    pub fn in_range(&self) -> (r: bool)
        ensures
            r == self@.in_range(),
    {
        match self {
            Telemetry::ParamValue { count, index, .. } => *index == UNLISTED_INDEX || *index
                < *count,
            _ => true,
        }
    }
}

/// The id of heartbeats.
pub const HEARTBEAT_ID: u8 = 0;

/// The id of requests for the list of parameters.
pub const PARAM_REQUEST_LIST_ID: u8 = 21;

/// The id of reports of a parameter's value.
pub const PARAM_VALUE_ID: u8 = 22;

/// The id of settings of a parameter.
pub const PARAM_SET_ID: u8 = 23;

/// The id of reports of a position.
pub const GLOBAL_POSITION_ID: u8 = 33;

/// The id of requests for data.
pub const REQUEST_DATA_STREAM_ID: u8 = 66;

/// The id of texts to be shown.
pub const STATUS_TEXT_ID: u8 = 253;

/// The payload, cut off or filled up with zeros to `n` bytes.
pub open spec fn fitted(payload: Seq<u8>, n: nat) -> Seq<u8> {
    Seq::new(
        n,
        |i: int|
            if i < payload.len() {
                payload[i]
            } else {
                0u8
            },
    )
}

/// The number that two bytes stand for, the low byte first.
pub open spec fn u16_at(bytes: Seq<u8>, at: int) -> u16 {
    (bytes[at] + 256 * bytes[at + 1]) as u16
}

/// The number that four bytes stand for, the low byte first.
pub open spec fn u32_at(bytes: Seq<u8>, at: int) -> u32 {
    (bytes[at] + 256 * bytes[at + 1] + 65536 * bytes[at + 2] + 16777216 * bytes[at + 3]) as u32
}

/// The signed number that four bytes stand for, the low byte first.
pub open spec fn i32_at(bytes: Seq<u8>, at: int) -> i32 {
    let n = u32_at(bytes, at);
    if n <= i32::MAX {
        n as i32
    } else {
        (n - 0x1_0000_0000) as i32
    }
}

/// The report of a parameter's value in a payload: value, length of the list, place in it and name.
/// Its type follows.
pub open spec fn param_value_in(payload: Seq<u8>) -> TelemetryView {
    let p = fitted(payload, 25);
    TelemetryView::ParamValue {
        value: u32_at(p, 0),
        count: u16_at(p, 4),
        index: u16_at(p, 6),
        id: p.subrange(8, 24),
    }
}

/// The report of a position in a payload, behind the time of the report.
pub open spec fn global_position_in(payload: Seq<u8>) -> TelemetryView {
    let p = fitted(payload, 28);
    TelemetryView::GlobalPosition { lat: i32_at(p, 4), lon: i32_at(p, 8), alt: i32_at(p, 12) }
}

/// The text in a payload, behind its severity.
pub open spec fn status_text_in(payload: Seq<u8>) -> TelemetryView {
    let p = fitted(payload, 51);
    TelemetryView::StatusText { severity: p[0], text: p.subrange(1, 51) }
}

/// Whether `mavlink` has a message of this id in the common dialect.
pub uninterp spec fn known_message(id: u8) -> bool;

/// The message that an id and a payload stand for, if there is one.
pub open spec fn message_in(id: u8, payload: Seq<u8>) -> Option<TelemetryView> {
    if id == HEARTBEAT_ID {
        Some(TelemetryView::Heartbeat)
    } else if id == PARAM_VALUE_ID {
        Some(param_value_in(payload))
    } else if id == GLOBAL_POSITION_ID {
        Some(global_position_in(payload))
    } else if id == STATUS_TEXT_ID {
        Some(status_text_in(payload))
    } else if known_message(id) {
        Some(TelemetryView::Other)
    } else {
        None
    }
}

/// Whether the fields of a message acted on hold values of their enumerations, as far as `mavlink`
/// knows them: the type, autopilot and state of a heartbeat, the type of a parameter, the severity of
/// a text.
pub open spec fn enumerations_known(id: u8, payload: Seq<u8>) -> bool {
    &&& id == HEARTBEAT_ID ==> {
        let p = fitted(payload, 9);
        p[4] <= 49 && p[5] <= 20 && p[7] <= 8
    }
    &&& id == PARAM_VALUE_ID ==> 1 <= fitted(payload, 25)[24] <= 10
    &&& id == STATUS_TEXT_ID ==> fitted(payload, 51)[0] <= 7
}

/// Trusted: `MavMessage::parse` of the `mavlink` crate, for version 1 payloads of the common
/// dialect. Of the messages that this library acts on, the result is stated in full: a payload that
/// is too short counts as if it were filled up with zeros, and one that is too long as if it were cut
/// off. A message that is refused because a field holds no value of its enumeration is kept as one
/// that is not acted on. Of the others only whether there is one is kept, which is a function of the
/// id, named [`known_message`].
#[verifier::external_body]
fn parse_message(id: u8, payload: &[u8]) -> (r: Option<Telemetry>)
    ensures
        enumerations_known(id, payload@) ==> message_in(id, payload@) == (match r {
            Some(m) => Some(m@),
            None => None,
        }),
        !enumerations_known(id, payload@) ==> r == Some(Telemetry::Other),
        id != HEARTBEAT_ID && id != PARAM_VALUE_ID && id != GLOBAL_POSITION_ID && id
            != STATUS_TEXT_ID ==> (r is Some) == known_message(id),
{
    match MavMessage::parse(MavlinkVersion::V1, id as u32, payload) {
        Ok(MavMessage::HEARTBEAT(_)) => Some(Telemetry::Heartbeat),
        Ok(MavMessage::STATUSTEXT(d)) =>
            Some(Telemetry::StatusText { severity: d.severity as u8, text: d.text.to_vec() }),
        Ok(MavMessage::PARAM_VALUE(d)) => Some(Telemetry::ParamValue {
            value: d.param_value.to_bits(), count: d.param_count, index: d.param_index, id: d.param_id.to_vec(),
        }),
        Ok(MavMessage::GLOBAL_POSITION_INT(d)) =>
            Some(Telemetry::GlobalPosition { lat: d.lat, lon: d.lon, alt: d.alt }),
        Ok(_) => Some(Telemetry::Other),
        Err(ParserError::UnknownMessage { .. }) => None,
        Err(_) => Some(Telemetry::Other),
    }
}

/// See [`fitted`].
fn fit(payload: &[u8], n: usize) -> (r: Vec<u8>)
    ensures
        r@ == fitted(payload@, n as nat),
{
    let mut r: Vec<u8> = Vec::new();
    let mut i: usize = 0;
    while i < n
        invariant
            i <= n,
            r@ == fitted(payload@, i as nat),
        decreases n - i,
    {
        if i < payload.len() {
            r.push(payload[i]);
        } else {
            r.push(0);
        }
        i = i + 1;
        assert(r@ =~= fitted(payload@, i as nat));
    }
    r
}

/// The message that an id and a payload stand for, if there is one. A vehicle may be newer than the
/// dialect, so fields of enumerations may hold any value: those that matter to nothing are replaced
/// by one that is known before the message is parsed, and the severity of a text is put back.
pub fn decode(id: u8, payload: &[u8]) -> (r: Option<Telemetry>)
    ensures
        message_in(id, payload@) == (match r {
            Some(m) => Some(m@),
            None => None,
        }),
{
    if id == HEARTBEAT_ID {
        let mut p: Vec<u8> = fit(payload, 9);
        p.set(4, 0);
        p.set(5, 0);
        p.set(7, 0);
        assert(fitted(p@, 9) =~= p@);
        parse_message(id, p.as_slice())
    } else if id == PARAM_VALUE_ID {
        let mut p: Vec<u8> = fit(payload, 25);
        p.set(24, 1);
        assert(fitted(p@, 25) =~= p@);
        assert(p@.subrange(8, 24) =~= fitted(payload@, 25).subrange(8, 24));
        parse_message(id, p.as_slice())
    } else if id == STATUS_TEXT_ID {
        let mut p: Vec<u8> = fit(payload, 51);
        let severity: u8 = p[0];
        p.set(0, 0);
        assert(fitted(p@, 51) =~= p@);
        assert(p@.subrange(1, 51) =~= fitted(payload@, 51).subrange(1, 51));
        match parse_message(id, p.as_slice()) {
            Some(Telemetry::StatusText { severity: _, text }) => Some(
                Telemetry::StatusText { severity, text },
            ),
            other => other,
        }
    } else {
        parse_message(id, payload)
    }
}

/// The seed byte that `mavlink` gives for a message id.
pub uninterp spec fn extra_crc_of(id: u8) -> u8;

/// Trusted: `MavMessage::extra_crc` of the `mavlink` crate for the common dialect. The byte that
/// goes into the checksum of a message is a function of the message id, named [`extra_crc_of`].
#[verifier::external_body]
pub(crate) fn extra_crc(id: u8) -> (r: u8)
    ensures
        r == extra_crc_of(id),
{
    MavMessage::extra_crc(id as u32)
}

/// The two bytes of `x`, low byte first.
pub open spec fn u16_le(x: u16) -> Seq<u8> {
    seq![(x % 256) as u8, (x / 256) as u8]
}

/// The four bytes of `x`, low byte first.
pub open spec fn u32_le(x: u32) -> Seq<u8> {
    seq![
        (x % 256) as u8,
        (x / 256 % 256) as u8,
        (x / 65536 % 256) as u8,
        (x / 16777216) as u8,
    ]
}

/// Appends the bytes of `x` to `out`, low byte first.
fn put_u16(out: &mut Vec<u8>, x: u16)
    ensures
        final(out)@ == old(out)@ + u16_le(x),
{
    out.push((x % 256) as u8);
    out.push((x / 256) as u8);
}

/// Appends the bytes of `x` to `out`, low byte first.
fn put_u32(out: &mut Vec<u8>, x: u32)
    ensures
        final(out)@ == old(out)@ + u32_le(x),
{
    out.push((x % 256) as u8);
    out.push((x / 256 % 256) as u8);
    out.push((x / 65536 % 256) as u8);
    out.push((x / 16777216) as u8);
}

/// A message sent to the vehicle.
#[derive(Debug, PartialEq)]
pub enum Command {
    Heartbeat {
        custom_mode: u32,
        mavtype: u8,
        autopilot: u8,
        base_mode: u8,
        system_status: u8,
        mavlink_version: u8,
    },
    ParamRequestList { target_system: u8, target_component: u8 },
    RequestDataStream {
        target_system: u8,
        target_component: u8,
        req_stream_id: u8,
        req_message_rate: u16,
        start_stop: u8,
    },
    ParamSet {
        param_value: u32,
        target_system: u8,
        target_component: u8,
        param_id: [u8; 16],
        param_type: u8,
    },
}

/// What a [`Command`] says.
pub enum CommandView {
    Heartbeat {
        custom_mode: u32,
        mavtype: u8,
        autopilot: u8,
        base_mode: u8,
        system_status: u8,
        mavlink_version: u8,
    },
    ParamRequestList { target_system: u8, target_component: u8 },
    RequestDataStream {
        target_system: u8,
        target_component: u8,
        req_stream_id: u8,
        req_message_rate: u16,
        start_stop: u8,
    },
    ParamSet {
        param_value: u32,
        target_system: u8,
        target_component: u8,
        param_id: Seq<u8>,
        param_type: u8,
    },
}

impl View for Command {
    type V = CommandView;

    open spec fn view(&self) -> CommandView {
        match self {
            Command::Heartbeat {
                custom_mode,
                mavtype,
                autopilot,
                base_mode,
                system_status,
                mavlink_version,
            } => CommandView::Heartbeat {
                custom_mode: *custom_mode,
                mavtype: *mavtype,
                autopilot: *autopilot,
                base_mode: *base_mode,
                system_status: *system_status,
                mavlink_version: *mavlink_version,
            },
            Command::ParamRequestList { target_system, target_component } =>
                CommandView::ParamRequestList {
                target_system: *target_system,
                target_component: *target_component,
            },
            Command::RequestDataStream {
                target_system,
                target_component,
                req_stream_id,
                req_message_rate,
                start_stop,
            } => CommandView::RequestDataStream {
                target_system: *target_system,
                target_component: *target_component,
                req_stream_id: *req_stream_id,
                req_message_rate: *req_message_rate,
                start_stop: *start_stop,
            },
            Command::ParamSet {
                param_value,
                target_system,
                target_component,
                param_id,
                param_type,
            } => CommandView::ParamSet {
                param_value: *param_value,
                target_system: *target_system,
                target_component: *target_component,
                param_id: param_id@,
                param_type: *param_type,
            },
        }
    }
}

impl CommandView {
    /// The id of the message.
    pub open spec fn message_id(self) -> u8 {
        match self {
            CommandView::Heartbeat { .. } => HEARTBEAT_ID,
            CommandView::ParamRequestList { .. } => PARAM_REQUEST_LIST_ID,
            CommandView::ParamSet { .. } => PARAM_SET_ID,
            CommandView::RequestDataStream { .. } => REQUEST_DATA_STREAM_ID,
        }
    }

    /// The payload of the message: its fields, the widest first, each low byte first.
    pub open spec fn payload(self) -> Seq<u8> {
        match self {
            CommandView::Heartbeat {
                custom_mode,
                mavtype,
                autopilot,
                base_mode,
                system_status,
                mavlink_version,
            } => u32_le(custom_mode) + seq![
                mavtype,
                autopilot,
                base_mode,
                system_status,
                mavlink_version,
            ],
            CommandView::ParamRequestList { target_system, target_component } => seq![
                target_system,
                target_component,
            ],
            CommandView::RequestDataStream {
                target_system,
                target_component,
                req_stream_id,
                req_message_rate,
                start_stop,
            } => u16_le(req_message_rate) + seq![
                target_system,
                target_component,
                req_stream_id,
                start_stop,
            ],
            CommandView::ParamSet {
                param_value,
                target_system,
                target_component,
                param_id,
                param_type,
            } => u32_le(param_value) + seq![target_system, target_component] + param_id + seq![
                param_type,
            ],
        }
    }
}

impl Command {
    /// The id of the message.
    pub fn message_id(&self) -> (r: u8)
        ensures
            r == self@.message_id(),
    {
        match self {
            Command::Heartbeat { .. } => HEARTBEAT_ID,
            Command::ParamRequestList { .. } => PARAM_REQUEST_LIST_ID,
            Command::ParamSet { .. } => PARAM_SET_ID,
            Command::RequestDataStream { .. } => REQUEST_DATA_STREAM_ID,
        }
    }

    /// The payload of the message.
    pub fn serialize(&self) -> (r: Vec<u8>)
        ensures
            r@ == self@.payload(),
            r@.len() <= 23,
    {
        let mut out: Vec<u8> = Vec::new();
        match self {
            Command::Heartbeat {
                custom_mode,
                mavtype,
                autopilot,
                base_mode,
                system_status,
                mavlink_version,
            } => {
                put_u32(&mut out, *custom_mode);
                out.push(*mavtype);
                out.push(*autopilot);
                out.push(*base_mode);
                out.push(*system_status);
                out.push(*mavlink_version);
            },
            Command::ParamRequestList { target_system, target_component } => {
                out.push(*target_system);
                out.push(*target_component);
            },
            Command::RequestDataStream {
                target_system,
                target_component,
                req_stream_id,
                req_message_rate,
                start_stop,
            } => {
                put_u16(&mut out, *req_message_rate);
                out.push(*target_system);
                out.push(*target_component);
                out.push(*req_stream_id);
                out.push(*start_stop);
            },
            Command::ParamSet {
                param_value,
                target_system,
                target_component,
                param_id,
                param_type,
            } => {
                put_u32(&mut out, *param_value);
                out.push(*target_system);
                out.push(*target_component);
                out.extend_from_slice(param_id);
                out.push(*param_type);
            },
        }
        assert(out@ =~= self@.payload());
        out
    }
}

/// Whether the bits are those of a number that is not a NaN.
pub open spec fn is_number(bits: u32) -> bool {
    bits % 0x8000_0000 <= 0x7f80_0000
}

/// Whether the bits are those of a zero of either sign.
pub open spec fn is_zero(bits: u32) -> bool {
    bits % 0x8000_0000 == 0
}

/// Equality of two IEEE 754 singles given by their bits: a NaN equals nothing, and the two zeros
/// equal each other.
pub open spec fn equal_values(a: u32, b: u32) -> bool {
    is_number(a) && is_number(b) && (a == b || is_zero(a) && is_zero(b))
}

/// See [`equal_values`].
pub fn same_value(a: u32, b: u32) -> (r: bool)
    ensures
        r == equal_values(a, b),
{
    a % 0x8000_0000 <= 0x7f80_0000 && b % 0x8000_0000 <= 0x7f80_0000 && (a == b || a % 0x8000_0000
        == 0 && b % 0x8000_0000 == 0)
}

/// The payload of a report of a parameter's value.
pub open spec fn param_value_payload(
    value: u32,
    count: u16,
    index: u16,
    id: Seq<u8>,
    kind: u8,
) -> Seq<u8> {
    u32_le(value) + u16_le(count) + u16_le(index) + id + seq![kind]
}

/// A report of a parameter's value is read back from its payload.
pub proof fn law_param_value_is_read_back(
    value: u32,
    count: u16,
    index: u16,
    id: Seq<u8>,
    kind: u8,
)
    requires
        id.len() == 16,
    ensures
        message_in(PARAM_VALUE_ID, param_value_payload(value, count, index, id, kind)) == Some(
            TelemetryView::ParamValue { value, count, index, id },
        ),
{
    let payload = param_value_payload(value, count, index, id, kind);
    let p = fitted(payload, 25);
    assert(payload.len() == 25);
    assert(p =~= payload);
    assert(p.subrange(8, 24) =~= id);
    assert(p.subrange(0, 4) =~= u32_le(value));
    assert(p[0] == u32_le(value)[0] && p[1] == u32_le(value)[1] && p[2] == u32_le(value)[2] && p[3]
        == u32_le(value)[3]);
    assert(u32_at(p, 0) == value) by {
        assert(value % 256 + 256 * (value / 256 % 256) + 65536 * (value / 65536 % 256) + 16777216 * (
        value / 16777216) == value) by (nonlinear_arith);
    }
    assert(p[4] == u16_le(count)[0] && p[5] == u16_le(count)[1]);
    assert(p[6] == u16_le(index)[0] && p[7] == u16_le(index)[1]);
    assert(u16_at(p, 4) == count);
    assert(u16_at(p, 6) == index);
}

/// A text to be shown is read back from its payload.
pub proof fn law_status_text_is_read_back(severity: u8, text: Seq<u8>)
    requires
        text.len() == 50,
    ensures
        message_in(STATUS_TEXT_ID, seq![severity] + text) == Some(
            TelemetryView::StatusText { severity, text },
        ),
{
    let p = fitted(seq![severity] + text, 51);
    assert(p.subrange(1, 51) =~= text);
}

/// A number is the sum of its bytes, each for its place, the low byte first.
pub proof fn law_low_byte_comes_first(x: u16, y: u32)
    ensures
        u16_le(x).len() == 2,
        u16_le(x)[0] as int + 256 * (u16_le(x)[1] as int) == x,
        u32_le(y).len() == 4,
        u32_le(y)[0] as int + 256 * (u32_le(y)[1] as int) + 65536 * (u32_le(y)[2] as int) + 16777216
            * (u32_le(y)[3] as int) == y,
{
    assert(y % 256 + 256 * (y / 256 % 256) + 65536 * (y / 65536 % 256) + 16777216 * (y / 16777216)
        == y) by (nonlinear_arith);
}

/// Every field of a command stands at its place in the payload.
pub proof fn law_payload_holds_the_fields(c: CommandView)
    ensures
        c matches CommandView::Heartbeat {
            custom_mode,
            mavtype,
            autopilot,
            base_mode,
            system_status,
            mavlink_version,
        } ==> {
            let p = c.payload();
            &&& c.message_id() == 0
            &&& p.len() == 9
            &&& p[0] as int + 256 * (p[1] as int) + 65536 * (p[2] as int) + 16777216 * (p[3] as int)
                == custom_mode
            &&& p[4] == mavtype
            &&& p[5] == autopilot
            &&& p[6] == base_mode
            &&& p[7] == system_status
            &&& p[8] == mavlink_version
        },
        c matches CommandView::ParamRequestList { target_system, target_component } ==> {
            let p = c.payload();
            &&& c.message_id() == 21
            &&& p.len() == 2
            &&& p[0] == target_system
            &&& p[1] == target_component
        },
        c matches CommandView::RequestDataStream {
            target_system,
            target_component,
            req_stream_id,
            req_message_rate,
            start_stop,
        } ==> {
            let p = c.payload();
            &&& c.message_id() == 66
            &&& p.len() == 6
            &&& p[0] as int + 256 * (p[1] as int) == req_message_rate
            &&& p[2] == target_system
            &&& p[3] == target_component
            &&& p[4] == req_stream_id
            &&& p[5] == start_stop
        },
        c matches CommandView::ParamSet {
            param_value,
            target_system,
            target_component,
            param_id,
            param_type,
        } ==> {
            let p = c.payload();
            &&& c.message_id() == 23
            &&& p.len() == 7 + param_id.len()
            &&& p[0] as int + 256 * (p[1] as int) + 65536 * (p[2] as int) + 16777216 * (p[3] as int)
                == param_value
            &&& p[4] == target_system
            &&& p[5] == target_component
            &&& p.subrange(6, 6 + param_id.len() as int) == param_id
            &&& p[6 + param_id.len() as int] == param_type
        },
{
    let p = c.payload();
    match c {
        CommandView::Heartbeat { custom_mode, .. } => {
            law_low_byte_comes_first(0, custom_mode);
        },
        CommandView::RequestDataStream { req_message_rate, .. } => {
            law_low_byte_comes_first(req_message_rate, 0);
        },
        CommandView::ParamSet { param_value, param_id, .. } => {
            law_low_byte_comes_first(0, param_value);
            assert(p.subrange(6, 6 + param_id.len() as int) =~= param_id);
        },
        _ => {},
    }
}

/// No two commands go out alike.
pub proof fn law_commands_are_told_apart(a: CommandView, b: CommandView)
    requires
        a.message_id() == b.message_id(),
        a.payload() == b.payload(),
    ensures
        a == b,
{
    law_payload_holds_the_fields(a);
    law_payload_holds_the_fields(b);
}

/// What is sent is what the command says.
pub proof fn law_command_view_holds_the_fields(c: Command)
    ensures
        c matches Command::Heartbeat {
            custom_mode,
            mavtype,
            autopilot,
            base_mode,
            system_status,
            mavlink_version,
        } ==> c@ == (CommandView::Heartbeat {
            custom_mode,
            mavtype,
            autopilot,
            base_mode,
            system_status,
            mavlink_version,
        }),
        c matches Command::ParamRequestList { target_system, target_component } ==> c@ == (
        CommandView::ParamRequestList { target_system, target_component }),
        c matches Command::RequestDataStream {
            target_system,
            target_component,
            req_stream_id,
            req_message_rate,
            start_stop,
        } ==> c@ == (CommandView::RequestDataStream {
            target_system,
            target_component,
            req_stream_id,
            req_message_rate,
            start_stop,
        }),
        c matches Command::ParamSet {
            param_value,
            target_system,
            target_component,
            param_id,
            param_type,
        } ==> c@ == (CommandView::ParamSet {
            param_value,
            target_system,
            target_component,
            param_id: param_id@,
            param_type,
        }),
{
}

/// What is said of a message is what it holds.
pub proof fn law_telemetry_view_holds_the_fields(m: Telemetry)
    ensures
        m is Heartbeat <==> m@ is Heartbeat,
        m is Other <==> m@ is Other,
        m matches Telemetry::StatusText { severity, text } ==> m@ == (TelemetryView::StatusText {
            severity,
            text: text@,
        }),
        m matches Telemetry::ParamValue { value, count, index, id } ==> m@ == (
        TelemetryView::ParamValue { value, count, index, id: id@ }),
        m matches Telemetry::GlobalPosition { lat, lon, alt } ==> m@ == (
        TelemetryView::GlobalPosition { lat, lon, alt }),
{
}

/// Every heartbeat is taken as one, whatever system it tells of.
pub proof fn law_every_heartbeat_counts(payload: Seq<u8>)
    ensures
        message_in(0, payload) == Some(TelemetryView::Heartbeat),
{
}

/// A report of a parameter's value is taken with its value, length of the list, place and name,
/// whatever they are. Bytes that are missing count as zero.
pub proof fn law_every_parameter_value_counts(payload: Seq<u8>)
    ensures
        ({
            let b = |i: int|
                if i < payload.len() {
                    payload[i] as int
                } else {
                    0
                };
            &&& message_in(22, payload) matches Some(TelemetryView::ParamValue {
                value,
                count,
                index,
                id,
            })
            &&& value == b(0) + 256 * b(1) + 65536 * b(2) + 16777216 * b(3)
            &&& count == b(4) + 256 * b(5)
            &&& index == b(6) + 256 * b(7)
            &&& id.len() == 16
            &&& forall|i: int| 0 <= i < 16 ==> (#[trigger] id[i]) as int == b(8 + i)
        }),
{
}

/// A report of a position is taken with latitude, longitude and altitude, whatever they are. Bytes
/// that are missing count as zero, and the highest bit stands for the sign.
pub proof fn law_every_position_counts(payload: Seq<u8>)
    ensures
        ({
            let b = |i: int|
                if i < payload.len() {
                    payload[i] as int
                } else {
                    0
                };
            let unsigned = |i: int|
                b(i) + 256 * b(i + 1) + 65536 * b(i + 2) + 16777216 * b(i + 3);
            &&& message_in(33, payload) matches Some(TelemetryView::GlobalPosition { lat, lon, alt })
            &&& (lat as int - unsigned(4)) % 0x1_0000_0000 == 0
            &&& (lon as int - unsigned(8)) % 0x1_0000_0000 == 0
            &&& (alt as int - unsigned(12)) % 0x1_0000_0000 == 0
        }),
{
}

/// A text is taken with its severity, whatever they are. Bytes that are missing count as zero.
pub proof fn law_every_status_text_counts(payload: Seq<u8>)
    ensures
        ({
            let b = |i: int|
                if i < payload.len() {
                    payload[i] as int
                } else {
                    0
                };
            &&& message_in(253, payload) matches Some(TelemetryView::StatusText { severity, text })
            &&& severity == b(0)
            &&& text.len() == 50
            &&& forall|i: int| 0 <= i < 50 ==> (#[trigger] text[i]) as int == b(1 + i)
        }),
{
}

/// Of the other messages it is only taken whether there is one of that id, whatever the payload.
pub proof fn law_other_messages_are_taken_by_id(id: u8, p: Seq<u8>, q: Seq<u8>)
    requires
        id != 0,
        id != 22,
        id != 33,
        id != 253,
    ensures
        message_in(id, p) == message_in(id, q),
        message_in(id, p) == Some(TelemetryView::Other) <==> known_message(id),
        message_in(id, p) is None <==> !known_message(id),
{
}

/// A report names a place in the list if and only if its index is below the length of the list; with
/// index 65535 it says that it has none.
pub proof fn law_places_are_below_the_length(msg: TelemetryView)
    ensures
        msg.listed() <==> (msg matches TelemetryView::ParamValue { count, index, .. } ==> index
            < count),
        msg.in_range() <==> (msg matches TelemetryView::ParamValue { count, index, .. } ==> index
            < count || index == 65535),
{
}

/// Two singles are equal if and only if neither is a NaN, which has all bits of the exponent and some
/// bit of the fraction set, and they are the same or both zero.
pub proof fn law_singles_are_equal(a: u32, b: u32)
    ensures
        ({
            let nan = |x: u32| x / 0x80_0000 % 256 == 255 && x % 0x80_0000 != 0;
            let zero = |x: u32| x == 0 || x == 0x8000_0000;
            &&& equal_values(a, b) <==> !nan(a) && !nan(b) && (a == b || zero(a) && zero(b))
            &&& is_number(a) <==> !nan(a)
        }),
{
    assert(a % 0x8000_0000 <= 0x7f80_0000 <==> !(a / 0x80_0000 % 256 == 255 && a % 0x80_0000 != 0))
        by (bit_vector);
    assert(b % 0x8000_0000 <= 0x7f80_0000 <==> !(b / 0x80_0000 % 256 == 255 && b % 0x80_0000 != 0))
        by (bit_vector);
    assert(a % 0x8000_0000 == 0 <==> a == 0 || a == 0x8000_0000) by (bit_vector);
    assert(b % 0x8000_0000 == 0 <==> b == 0 || b == 0x8000_0000) by (bit_vector);
}

} // verus!
