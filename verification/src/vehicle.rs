//! A vehicle as it is known on the ground, and how its messages are answered.
use vstd::prelude::*;

use crate::connection;
use crate::connection::ConnectionView;
use crate::connection::VehicleConnection;
use crate::handler;
use crate::handler::DkHandlerRx;
use crate::handler::TxView;
use crate::message::Command;
use crate::message::CommandView;
use crate::message::Telemetry;
use crate::message::TelemetryView;
use crate::message::UNLISTED_INDEX;
use crate::parameters;
use crate::parameters::Parameters;
use crate::parameters::ParametersView;
use crate::text;

verus! {

/// A place on the globe, in the units that the vehicle reports it in.
#[derive(Debug)]
pub struct LocationGlobal {
    pub alt: i32,
    pub lat: i32,
    pub lon: i32,
}

impl Clone for LocationGlobal {
    fn clone(&self) -> (r: LocationGlobal)
        ensures
            r == *self,
    {
        LocationGlobal { alt: self.alt, lat: self.lat, lon: self.lon }
    }
}

/// A vehicle: its parameters, its last reported location, and the connection to it.
pub struct Vehicle<T> {
    pub parameters: Parameters,
    pub location_global: Option<LocationGlobal>,
    pub connection: VehicleConnection<T>,
}

/// What a [`Vehicle`] holds.
pub struct VehicleView<T> {
    pub parameters: ParametersView,
    pub location_global: Option<LocationGlobal>,
    pub connection: ConnectionView<T>,
}

impl<T> View for Vehicle<T> {
    type V = VehicleView<T>;

    open spec fn view(&self) -> VehicleView<T> {
        VehicleView {
            parameters: self.parameters@,
            location_global: self.location_global,
            connection: self.connection@,
        }
    }
}

/// A text that the vehicle wants shown.
#[derive(Debug, PartialEq)]
pub struct Notice {
    pub severity: u8,
    pub text: String,
}

/// What a [`Notice`] says.
pub struct NoticeView {
    pub severity: u8,
    pub text: Seq<char>,
}

impl View for Notice {
    type V = NoticeView;

    open spec fn view(&self) -> NoticeView {
        NoticeView { severity: self.severity, text: self.text@ }
    }
}

/// What the notices say.
pub open spec fn notice_views(notices: Seq<Notice>) -> Seq<NoticeView> {
    notices.map_values(|n: Notice| n@)
}

/// The text that a message wants shown, if it does.
pub open spec fn notice_of(msg: TelemetryView) -> Option<NoticeView> {
    match msg {
        TelemetryView::StatusText { severity, text } => Some(
            NoticeView { severity, text: text::text_of(text) },
        ),
        _ => None,
    }
}

/// The notice as a sequence of one, or the empty sequence.
pub open spec fn notice_seq(msg: TelemetryView) -> Seq<NoticeView> {
    match notice_of(msg) {
        Some(n) => seq![n],
        None => seq![],
    }
}

/// The heartbeat of a ground station.
pub open spec fn heartbeat() -> CommandView {
    CommandView::Heartbeat {
        custom_mode: 0,
        mavtype: 6,
        autopilot: 8,
        base_mode: 0,
        system_status: 0,
        mavlink_version: 3,
    }
}

/// The request for the list of parameters.
pub open spec fn list_request() -> CommandView {
    CommandView::ParamRequestList { target_system: 0, target_component: 0 }
}

/// The request for all data streams.
pub open spec fn stream_request() -> CommandView {
    CommandView::RequestDataStream {
        target_system: 0,
        target_component: 0,
        req_stream_id: 0,
        req_message_rate: 100,
        start_stop: 1,
    }
}

/// The connection after the vehicle's heartbeat: it is answered with one; the first is answered with
/// the requests for parameters and data too.
pub open spec fn after_heartbeat<T>(c: ConnectionView<T>) -> ConnectionView<T> {
    let answered = c.after_send(heartbeat());
    if c.started {
        answered
    } else {
        ConnectionView { started: true, ..answered }.after_send(list_request()).after_send(
            stream_request(),
        )
    }
}

/// What comes of the messages set aside.
pub struct Drained<T> {
    pub vehicle: VehicleView<T>,
    pub notices: Seq<NoticeView>,
    /// Whether the last message taken named a parameter beyond the list.
    pub fault: bool,
}

impl<T> VehicleView<T> {
    /// The vehicle with other messages set aside.
    pub open spec fn with_buffer(self, buffer: Seq<TelemetryView>) -> VehicleView<T> {
        VehicleView { connection: ConnectionView { buffer, ..self.connection }, ..self }
    }

    /// The vehicle after a message.
    pub open spec fn after(self, msg: TelemetryView) -> VehicleView<T> {
        match msg {
            TelemetryView::Heartbeat => VehicleView {
                connection: after_heartbeat(self.connection),
                ..self
            },
            TelemetryView::ParamValue { .. } => VehicleView {
                parameters: self.parameters.after(msg),
                ..self
            },
            TelemetryView::GlobalPosition { lat, lon, alt } => VehicleView {
                location_global: Some(LocationGlobal { alt, lat, lon }),
                ..self
            },
            _ => self,
        }
    }

    /// The vehicle after a message that names a parameter beyond the list: its value is known by its
    /// name, and it stands at no place of the list.
    pub open spec fn after_fault(self, msg: TelemetryView) -> VehicleView<T> {
        match msg {
            TelemetryView::ParamValue { value, count, id, .. } => VehicleView {
                parameters: self.parameters.resized(count).assigned(
                    UNLISTED_INDEX,
                    text::text_of(id),
                    value,
                ),
                ..self
            },
            _ => self,
        }
    }

    /// Takes account of the messages set aside, one after the other, up to the first that names a
    /// parameter beyond the list.
    pub open spec fn drained(self) -> Drained<T>
        decreases self.connection.buffer.len(),
    {
        let buffer = self.connection.buffer;
        if buffer.len() == 0 {
            Drained { vehicle: self, notices: seq![], fault: false }
        } else {
            let taken = self.with_buffer(buffer.skip(1));
            if !buffer[0].in_range() {
                Drained { vehicle: taken.after_fault(buffer[0]), notices: seq![], fault: true }
            } else {
                let further = taken.after(buffer[0]).drained();
                Drained { notices: notice_seq(buffer[0]) + further.notices, ..further }
            }
        }
    }
}

/// What is to be done next.
#[derive(Clone, Copy, PartialEq, Eq, Debug, Structural)]
pub enum UpdateAction {
    /// Wait for the handler to hand something on, and give it to [`Vehicle::received`].
    Receive,
    /// Give what the handler has already handed on, if anything, to [`Vehicle::received`].
    TryReceive,
    /// Nothing.
    Done,
    /// Give up: the vehicle named a parameter beyond its list.
    Fault,
}

/// What comes of taking account of messages: what to do next, and what to show.
pub struct Update {
    pub next: UpdateAction,
    pub notices: Vec<Notice>,
}

impl<T> Vehicle<T> {
    /// A vehicle of which nothing is known.
    pub fn new(conn: VehicleConnection<T>) -> (r: Vehicle<T>)
        ensures
            r@ == (VehicleView {
                parameters: ParametersView::nothing(),
                location_global: None,
                connection: conn@,
            }),
    {
        Vehicle { parameters: Parameters::new(), location_global: None, connection: conn }
    }

    /// Begins to take account of what has come. The messages set aside are done with at once; what
    /// is to be done about others is said in the result. With `wait`, at least one message is waited
    /// for.
    pub fn update(&mut self, wait: bool) -> (r: Update)
        ensures
            final(self)@ == old(self)@.drained().vehicle,
            notice_views(r.notices@) == old(self)@.drained().notices,
            r.next == (if old(self)@.drained().fault {
                UpdateAction::Fault
            } else if wait && old(self)@.connection.buffer.len() == 0 {
                UpdateAction::Receive
            } else {
                UpdateAction::TryReceive
            }),
            old(self)@.parameters.wf() ==> final(self)@.parameters.wf(),
    {
        let mut notices: Vec<Notice> = Vec::new();
        let none_yet: bool = self.connection.buffer.len() == 0;
        let ghost all = self@.drained();
        assert(notice_views(notices@) + all.notices =~= all.notices);
        while self.connection.buffer.len() > 0
            invariant
                self@.drained().vehicle == all.vehicle,
                self@.drained().fault == all.fault,
                notice_views(notices@) + self@.drained().notices == all.notices,
                old(self)@.parameters.wf() ==> self@.parameters.wf(),
                all == old(self)@.drained(),
                none_yet == (old(self)@.connection.buffer.len() == 0),
            decreases self@.connection.buffer.len(),
        {
            let ghost left = self@;
            let ghost before = notices@;
            if let Some(msg) = self.connection.take_buffered() {
                if !msg.in_range() {
                    self.on_fault(msg);
                    assert(notice_views(notices@) + seq![] =~= notice_views(notices@));
                    return Update { next: UpdateAction::Fault, notices };
                }
                if let Some(notice) = self.on_message(msg) {
                    notices.push(notice);
                }
                assert(notice_views(notices@) =~= notice_views(before) + notice_seq(msg@));
                assert(notice_views(notices@) + self@.drained().notices =~= notice_views(before)
                    + left.drained().notices);
            }
        }
        assert(notice_views(notices@) + seq![] =~= notice_views(notices@));
        if wait && none_yet {
            Update { next: UpdateAction::Receive, notices }
        } else {
            Update { next: UpdateAction::TryReceive, notices }
        }
    }

    /// Goes on to take account of what has come: of what the handler handed on, if it did.
    pub fn received(&mut self, event: Option<DkHandlerRx>) -> (r: Update)
        ensures
            match event {
                Some(DkHandlerRx::RxMessage(msg)) => {
                    &&& msg@.in_range() ==> final(self)@ == old(self)@.after(msg@)
                        && notice_views(r.notices@) == notice_seq(msg@) && r.next
                        == UpdateAction::TryReceive
                    &&& !msg@.in_range() ==> final(self)@ == old(self)@.after_fault(msg@)
                        && r.notices@.len() == 0 && r.next == UpdateAction::Fault
                },
                Some(DkHandlerRx::RxCork) => final(self)@ == old(self)@ && r.notices@.len() == 0
                    && r.next == UpdateAction::TryReceive,
                None => final(self)@ == old(self)@ && r.notices@.len() == 0 && r.next
                    == UpdateAction::Done,
            },
            old(self)@.parameters.wf() ==> final(self)@.parameters.wf(),
    {
        let mut notices: Vec<Notice> = Vec::new();
        match event {
            Some(DkHandlerRx::RxMessage(msg)) => {
                if !msg.in_range() {
                    self.on_fault(msg);
                    return Update { next: UpdateAction::Fault, notices };
                }
                if let Some(notice) = self.on_message(msg) {
                    notices.push(notice);
                }
                assert(notice_views(notices@) =~= notice_seq(msg@));
                Update { next: UpdateAction::TryReceive, notices }
            },
            Some(DkHandlerRx::RxCork) => Update { next: UpdateAction::TryReceive, notices },
            None => Update { next: UpdateAction::Done, notices },
        }
    }

    /// Makes itself known to the vehicle. The result is whether the vehicle is still to be heard
    /// from: then messages are to be waited for until [`Self::waiting`] says otherwise.
    pub fn init(&mut self) -> (r: bool)
        ensures
            final(self)@ == (VehicleView {
                connection: old(self)@.connection.after_send(heartbeat()),
                ..old(self)@
            }),
            r == !old(self)@.connection.started,
    {
        self.send_heartbeat();
        self.waiting()
    }

    /// Whether the vehicle is still to be heard from.
    pub fn waiting(&self) -> (r: bool)
        ensures
            r == !self@.connection.started,
    {
        !self.connection.started
    }

    /// Sends a heartbeat.
    pub fn send_heartbeat(&mut self)
        ensures
            final(self)@ == (VehicleView {
                connection: old(self)@.connection.after_send(heartbeat()),
                ..old(self)@
            }),
    {
        self.connection.send(
            Command::Heartbeat {
                custom_mode: 0,
                mavtype: 6,
                autopilot: 8,
                base_mode: 0,
                system_status: 0,
                mavlink_version: 3,
            },
        );
    }

    /// Takes account of a message that names a parameter beyond the list, as far as that can be done.
    fn on_fault(&mut self, pkt: Telemetry)
        ensures
            final(self)@ == old(self)@.after_fault(pkt@),
            old(self)@.parameters.wf() ==> final(self)@.parameters.wf(),
    {
        if let Telemetry::ParamValue { value, count, index: _, id } = pkt {
            self.parameters.resize(count);
            let name: String = text::parse_mavlink_string(id.as_slice());
            self.parameters.assign(UNLISTED_INDEX, name.as_str(), value);
        }
    }

    /// Takes account of a message. The result is what it wants shown.
    pub fn on_message(&mut self, pkt: Telemetry) -> (r: Option<Notice>)
        requires
            pkt@.in_range(),
        ensures
            final(self)@ == old(self)@.after(pkt@),
            notice_of(pkt@) == (match r {
                Some(n) => Some(n@),
                None => None,
            }),
            old(self)@.parameters.wf() ==> final(self)@.parameters.wf(),
    {
        match pkt {
            Telemetry::Heartbeat => {
                self.send_heartbeat();
                if !self.connection.started {
                    self.connection.started = true;
                    self.connection.send(
                        Command::ParamRequestList { target_system: 0, target_component: 0 },
                    );
                    self.connection.send(
                        Command::RequestDataStream {
                            target_system: 0,
                            target_component: 0,
                            req_stream_id: 0,
                            req_message_rate: 100,
                            start_stop: 1,
                        },
                    );
                }
                None
            },
            Telemetry::StatusText { severity, text } => Some(
                Notice { severity, text: text::parse_mavlink_string(text.as_slice()) },
            ),
            Telemetry::ParamValue { value, count, index, id } => {
                self.parameters.resize(count);
                let name: String = text::parse_mavlink_string(id.as_slice());
                self.parameters.assign(index, name.as_str(), value);
                None
            },
            Telemetry::GlobalPosition { lat, lon, alt } => {
                self.location_global = Some(LocationGlobal { alt, lat, lon });
                None
            },
            Telemetry::Other => None,
        }
    }
}

/// The vehicle after several messages.
pub open spec fn after_all<T>(v: VehicleView<T>, msgs: Seq<TelemetryView>) -> VehicleView<T>
    decreases msgs.len(),
{
    if msgs.len() == 0 {
        v
    } else {
        after_all(v.after(msgs[0]), msgs.skip(1))
    }
}

/// What several messages want shown, in their order.
pub open spec fn notices_of(msgs: Seq<TelemetryView>) -> Seq<NoticeView>
    decreases msgs.len(),
{
    if msgs.len() == 0 {
        seq![]
    } else {
        notice_seq(msgs[0]) + notices_of(msgs.skip(1))
    }
}

/// Every message set aside is taken account of once, in the order of arrival, and none is left.
pub proof fn law_update_takes_all<T>(v: VehicleView<T>)
    requires
        forall|i: int|
            0 <= i < v.connection.buffer.len() ==> (#[trigger] v.connection.buffer[i]).in_range(),
    ensures
        v.drained().vehicle == after_all(v.with_buffer(seq![]), v.connection.buffer),
        v.drained().vehicle.connection.buffer.len() == 0,
        v.drained().notices == notices_of(v.connection.buffer),
        !v.drained().fault,
    decreases v.connection.buffer.len(),
{
    let buffer = v.connection.buffer;
    if buffer.len() == 0 {
        assert(buffer =~= seq![]);
    } else {
        let rest = buffer.skip(1);
        let next = v.with_buffer(rest).after(buffer[0]);
        assert(buffer[0].in_range());
        assert forall|i: int| 0 <= i < rest.len() implies (#[trigger] rest[i]).in_range() by {
            assert(buffer[i + 1].in_range());
        }
        law_update_takes_all(next);
        assert(next.with_buffer(seq![]) == v.with_buffer(seq![]).after(buffer[0]));
    }
}

/// Taking account of messages in two goes is taking account of all.
pub proof fn law_messages_in_parts<T>(
    v: VehicleView<T>,
    first: Seq<TelemetryView>,
    second: Seq<TelemetryView>,
)
    ensures
        after_all(v, first + second) == after_all(after_all(v, first), second),
        notices_of(first + second) == notices_of(first) + notices_of(second),
    decreases first.len(),
{
    if first.len() == 0 {
        assert(first + second =~= second);
        assert(notices_of(first) + notices_of(second) =~= notices_of(second));
    } else {
        assert((first + second).skip(1) =~= first.skip(1) + second);
        law_messages_in_parts(v.after(first[0]), first.skip(1), second);
        assert(notices_of(first + second) =~= notices_of(first) + notices_of(second));
    }
}

/// The requests for parameters and data go out with the answer to the first heartbeat and never
/// again: once the vehicle has been heard from, no message makes more go out than the answer to a
/// heartbeat.
pub proof fn law_requests_go_out_once<T>(v: VehicleView<T>, msg: TelemetryView)
    ensures
        v.after(msg).connection.started == (v.connection.started || msg is Heartbeat),
        v.after(msg).connection == (if !(msg is Heartbeat) {
            v.connection
        } else if v.connection.started {
            v.connection.after_send(heartbeat())
        } else {
            ConnectionView {
                started: true,
                ..v.connection.after_send(heartbeat()).after_send(list_request()).after_send(
                    stream_request(),
                )
            }
        }),
{
}

/// Each kind of message bears on one thing: heartbeats on the connection, parameter values on the
/// parameters, positions on the location, and others on nothing.
pub proof fn law_messages_bear_on_one_thing<T>(v: VehicleView<T>, msg: TelemetryView)
    ensures
        !(msg is ParamValue) ==> v.after(msg).parameters == v.parameters,
        !(msg is GlobalPosition) ==> v.after(msg).location_global == v.location_global,
        !(msg is Heartbeat) ==> v.after(msg).connection == v.connection,
{
}

/// The location known is the one last reported.
pub proof fn law_location_is_last_reported<T>(v: VehicleView<T>, msgs: Seq<TelemetryView>, i: int)
    requires
        0 <= i < msgs.len(),
        msgs[i] is GlobalPosition,
        forall|k: int| i < k < msgs.len() ==> !((#[trigger] msgs[k]) is GlobalPosition),
    ensures
        after_all(v, msgs).location_global == Some(
            LocationGlobal { alt: msgs[i]->alt, lat: msgs[i]->lat, lon: msgs[i]->lon },
        ),
    decreases msgs.len(),
{
    let rest = msgs.skip(1);
    if i > 0 {
        assert(rest[i - 1] == msgs[i]);
        law_location_is_last_reported(v.after(msgs[0]), rest, i - 1);
    } else {
        assert forall|k: int| 0 <= k < rest.len() implies !(
        (#[trigger] rest[k]) is GlobalPosition) by {
            assert(rest[k] == msgs[k + 1]);
        }
        lemma_location_stays(v.after(msgs[0]), rest);
    }
}

/// Messages that report no position leave the location known.
proof fn lemma_location_stays<T>(v: VehicleView<T>, msgs: Seq<TelemetryView>)
    requires
        forall|k: int| 0 <= k < msgs.len() ==> !((#[trigger] msgs[k]) is GlobalPosition),
    ensures
        after_all(v, msgs).location_global == v.location_global,
    decreases msgs.len(),
{
    if msgs.len() > 0 {
        let rest = msgs.skip(1);
        assert(!(msgs[0] is GlobalPosition));
        assert forall|k: int| 0 <= k < rest.len() implies !(
        (#[trigger] rest[k]) is GlobalPosition) by {
            assert(rest[k] == msgs[k + 1]);
        }
        lemma_location_stays(v.after(msgs[0]), rest);
    }
}

/// The parameters known to a vehicle are those that come of its messages.
pub proof fn law_parameters_follow_messages<T>(v: VehicleView<T>, msgs: Seq<TelemetryView>)
    ensures
        after_all(v, msgs).parameters == parameters::after_all(v.parameters, msgs),
    decreases msgs.len(),
{
    if msgs.len() > 0 {
        law_parameters_follow_messages(v.after(msgs[0]), msgs.skip(1));
    }
}

/// The heartbeat that this side sends is read as one by the other side.
pub proof fn law_heartbeat_is_read(number: u8, rest: Seq<u8>)
    ensures
        ({
            let read = handler::scan(connection::packet_for(number, heartbeat()).bytes() + rest);
            &&& read.messages == seq![TelemetryView::Heartbeat] + handler::scan(rest).messages
            &&& read.rest == handler::scan(rest).rest
        }),
{
    connection::law_command_is_read(number, heartbeat(), rest);
}

/// Every status text gives one notice, whatever its severity and its text: it has the severity of the
/// message, and as its text the bytes before the first NUL.
pub proof fn law_every_status_text_is_shown(severity: u8, before: Seq<u8>, rest: Seq<u8>)
    requires
        forall|i: int| 0 <= i < before.len() ==> before[i] != 0,
        rest.len() > 0 ==> rest[0] == 0,
    ensures
        ({
            let msg = TelemetryView::StatusText { severity, text: before + rest };
            &&& notice_of(msg) matches Some(n)
            &&& n.severity == severity
            &&& n.text.len() == before.len()
            &&& forall|i: int| 0 <= i < before.len() ==> (#[trigger] n.text[i]) as int == before[i]
            &&& notices_of(seq![msg]) == seq![n]
            &&& notice_seq(msg) == seq![n]
        }),
{
    let msg = TelemetryView::StatusText { severity, text: before + rest };
    text::law_text_is_the_bytes_before_nul(before, rest);
    reveal_with_fuel(notices_of, 2);
    assert(seq![msg].skip(1) =~= seq![]);
    assert(notices_of(seq![msg]) =~= notice_seq(msg));
}

/// No message but a status text gives a notice.
pub proof fn law_status_texts_alone_are_shown(msg: TelemetryView)
    ensures
        notice_of(msg) is Some <==> msg is StatusText,
        !(msg is StatusText) ==> notice_seq(msg).len() == 0 && notices_of(seq![msg]).len() == 0,
{
    reveal_with_fuel(notices_of, 2);
    assert(seq![msg].skip(1) =~= seq![]);
}

/// Over several messages there are as many notices as status texts, in their order and each with the
/// severity of its own.
pub proof fn law_notices_follow_status_texts(msgs: Seq<TelemetryView>)
    ensures
        ({
            let texts = msgs.filter(|m: TelemetryView| m is StatusText);
            let notices = notices_of(msgs);
            &&& notices.len() == texts.len()
            &&& forall|i: int|
                0 <= i < texts.len() ==> {
                    &&& (#[trigger] notices[i]).severity == texts[i]->severity
                    &&& notices[i].text == text::text_of(texts[i]->text)
                }
        }),
    decreases msgs.len(),
{
    let keep = |m: TelemetryView| m is StatusText;
    reveal(Seq::filter);
    if msgs.len() > 0 {
        let init = msgs.drop_last();
        let last = msgs.last();
        law_notices_follow_status_texts(init);
        law_messages_in_parts::<()>(arbitrary(), init, seq![last]);
        assert(init + seq![last] =~= msgs);
        law_status_texts_alone_are_shown(last);
        reveal_with_fuel(notices_of, 2);
        assert(seq![last].skip(1) =~= seq![]);
        assert(notices_of(seq![last]) =~= notice_seq(last));
        let texts = msgs.filter(keep);
        assert(texts == (if keep(last) {
            init.filter(keep).push(last)
        } else {
            init.filter(keep)
        }));
        assert forall|i: int| 0 <= i < texts.len() implies {
            &&& (#[trigger] notices_of(msgs)[i]).severity == texts[i]->severity
            &&& notices_of(msgs)[i].text == text::text_of(texts[i]->text)
        } by {
            if i < init.filter(keep).len() {
                assert(notices_of(init)[i] == notices_of(msgs)[i]);
            }
        }
    }
}

/// A position that is reported is the location known, whatever it is, and nothing else has changed.
pub proof fn law_position_becomes_the_location<T>(v: VehicleView<T>, lat: i32, lon: i32, alt: i32)
    ensures
        ({
            let w = v.after(TelemetryView::GlobalPosition { lat, lon, alt });
            &&& w.location_global matches Some(at)
            &&& at.lat == lat
            &&& at.lon == lon
            &&& at.alt == alt
            &&& w.parameters == v.parameters
            &&& w.connection == v.connection
        }),
{
}

/// A report that is made to a vehicle is known under its name, and a name that was not reported is as
/// it was, if the list has the same length.
pub proof fn law_report_becomes_known<T>(
    v: VehicleView<T>,
    value: u32,
    count: u16,
    index: u16,
    id: Seq<u8>,
    other: Seq<char>,
)
    requires
        index < count || index == 65535,
        other != text::text_of(id),
    ensures
        ({
            let w = v.after(TelemetryView::ParamValue { value, count, index, id });
            &&& w.parameters.values.contains_key(text::text_of(id))
            &&& w.parameters.values[text::text_of(id)] == value
            &&& w.parameters.values.contains_key(other) == (v.parameters.indexes.len() == count
                && v.parameters.values.contains_key(other))
            &&& w.parameters.values.contains_key(other) ==> w.parameters.values[other]
                == v.parameters.values[other]
            &&& w.parameters.indexes.len() == count
            &&& index < count && index != 65535 ==> w.parameters.indexes[index as int] == Some(
                text::text_of(id),
            )
            &&& w.location_global == v.location_global
            &&& w.connection == v.connection
        }),
{
    parameters::law_last_report_is_known(v.parameters, value, count, index, id, other);
}

/// A heartbeat is answered with a packet of its own behind what was to go out before. The first one is
/// answered with two more: requests for the list of parameters and for data.
pub proof fn law_heartbeat_is_answered<T>(v: VehicleView<T>)
    ensures
        ({
            let c = v.connection;
            let w = v.after(TelemetryView::Heartbeat);
            let sent = |k: int, command: CommandView|
                TxView::<T>::TxMessage(
                    connection::packet_for(((c.msg_id + k) % 256) as u8, command).bytes(),
                );
            &&& w.connection.started
            &&& w.connection.buffer == c.buffer
            &&& w.connection.outbox == c.outbox + (if c.started {
                seq![sent(0, heartbeat())]
            } else {
                seq![sent(0, heartbeat()), sent(1, list_request()), sent(2, stream_request())]
            })
            &&& w.connection.msg_id == (c.msg_id + (if c.started {
                1int
            } else {
                3int
            })) % 256
            &&& w.parameters == v.parameters
            &&& w.location_global == v.location_global
        }),
{
    let c = v.connection;
    let w = v.after(TelemetryView::Heartbeat);
    let sent = |k: int, command: CommandView|
        TxView::<T>::TxMessage(
            connection::packet_for(((c.msg_id + k) % 256) as u8, command).bytes(),
        );
    if c.started {
        assert(w.connection.outbox =~= c.outbox + seq![sent(0, heartbeat())]);
    } else {
        assert(w.connection.outbox =~= c.outbox + seq![
            sent(0, heartbeat()),
            sent(1, list_request()),
            sent(2, stream_request()),
        ]);
    }
}

/// The heartbeat tells of a ground station without an autopilot; the requests go to every system and
/// component, and ask for all data a hundred times a second.
pub proof fn law_what_is_sent_unasked()
    ensures
        heartbeat().message_id() == 0,
        heartbeat().payload() == seq![0u8, 0, 0, 0, 6, 8, 0, 0, 3],
        list_request().message_id() == 21,
        list_request().payload() == seq![0u8, 0],
        stream_request().message_id() == 66,
        stream_request().payload() == seq![100u8, 0, 0, 0, 0, 1],
{
    assert(heartbeat().payload() =~= seq![0u8, 0, 0, 0, 6, 8, 0, 0, 3]);
    assert(list_request().payload() =~= seq![0u8, 0]);
    assert(stream_request().payload() =~= seq![100u8, 0, 0, 0, 0, 1]);
}

/// Status texts and messages that are not acted on change nothing.
pub proof fn law_other_messages_change_nothing<T>(v: VehicleView<T>, msg: TelemetryView)
    requires
        msg is StatusText || msg is Other,
    ensures
        v.after(msg) == v,
{
}

/// Messages set aside are taken up to the first that names a parameter beyond the list. Of that one the
/// value is known by its name; those behind it are still set aside.
pub proof fn law_update_stops_at_a_fault<T>(
    v: VehicleView<T>,
    before: Seq<TelemetryView>,
    value: u32,
    count: u16,
    index: u16,
    id: Seq<u8>,
    behind: Seq<TelemetryView>,
)
    requires
        forall|i: int| 0 <= i < before.len() ==> (#[trigger] before[i]).in_range(),
        index >= count,
        index != 65535,
        v.connection.buffer == before + seq![
            TelemetryView::ParamValue { value, count, index, id },
        ] + behind,
    ensures
        ({
            let d = v.drained();
            let w = after_all(v.with_buffer(behind), before);
            &&& d.fault
            &&& d.notices == notices_of(before)
            &&& d.vehicle.connection == w.connection
            &&& d.vehicle.connection.buffer == behind
            &&& d.vehicle.location_global == w.location_global
            &&& d.vehicle.parameters.values.contains_key(text::text_of(id))
            &&& d.vehicle.parameters.values[text::text_of(id)] == value
            &&& d.vehicle.parameters.indexes == w.parameters.resized(count).indexes
        }),
    decreases before.len(),
{
    let bad = TelemetryView::ParamValue { value, count, index, id };
    let buffer = v.connection.buffer;
    if before.len() == 0 {
        assert(buffer[0] == bad);
        assert(buffer.skip(1) =~= behind);
    } else {
        let rest = before.skip(1);
        assert(buffer[0] == before[0]);
        assert(before[0].in_range());
        assert(buffer.skip(1) =~= rest + seq![bad] + behind);
        let next = v.with_buffer(buffer.skip(1)).after(before[0]);
        assert forall|i: int| 0 <= i < rest.len() implies (#[trigger] rest[i]).in_range() by {
            assert(before[i + 1].in_range());
        }
        law_update_stops_at_a_fault(next, rest, value, count, index, id, behind);
        assert(next.with_buffer(behind) == v.with_buffer(behind).after(before[0]));
    }
}

/// To set other messages aside changes nothing else.
pub proof fn law_with_buffer_keeps_the_rest<T>(v: VehicleView<T>, buffer: Seq<TelemetryView>)
    ensures
        ({
            let w = v.with_buffer(buffer);
            &&& w.connection.buffer == buffer
            &&& w.connection.outbox == v.connection.outbox
            &&& w.connection.msg_id == v.connection.msg_id
            &&& w.connection.started == v.connection.started
            &&& w.parameters == v.parameters
            &&& w.location_global == v.location_global
        }),
{
}

/// What is said of a vehicle and of notices is what they hold.
pub proof fn law_vehicle_views_hold_the_fields<T>(v: Vehicle<T>, notices: Seq<Notice>, i: int)
    ensures
        v@.parameters == v.parameters@,
        v@.location_global == v.location_global,
        v@.connection == v.connection@,
        notice_views(notices).len() == notices.len(),
        0 <= i < notices.len() ==> {
            &&& notice_views(notices)[i].severity == notices[i].severity
            &&& notice_views(notices)[i].text == notices[i].text@
        },
{
}

} // verus!
