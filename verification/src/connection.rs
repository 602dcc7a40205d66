//! The vehicle's side of a connection: what is sent, and what waits to be taken account of.
use std::collections::VecDeque;

use vstd::prelude::*;

use crate::handler;
use crate::handler::DkHandlerMessage;
use crate::handler::DkHandlerRx;
use crate::handler::RxView;
use crate::handler::TxView;
use crate::message;
use crate::message::Command;
use crate::message::CommandView;
use crate::message::Telemetry;
use crate::message::TelemetryView;
use crate::packet::MavPacket;
use crate::packet::PacketView;
use crate::watcher::WatchView;
use crate::watcher::Watcher;
use crate::watcher::WatcherView;

verus! {

/// The system id that this side sends under.
pub const GROUND_STATION: u8 = 255;

/// A connection: the number of the next packet, whether the vehicle has been heard from, the
/// messages set aside, and the requests to the handler that have not gone out yet.
pub struct VehicleConnection<T> {
    pub msg_id: u8,
    pub started: bool,
    pub buffer: VecDeque<Telemetry>,
    pub outbox: Vec<DkHandlerMessage<T>>,
}

/// What a [`VehicleConnection`] holds.
pub struct ConnectionView<T> {
    pub msg_id: u8,
    pub started: bool,
    pub buffer: Seq<TelemetryView>,
    pub outbox: Seq<TxView<T>>,
}

impl<T> View for VehicleConnection<T> {
    type V = ConnectionView<T>;

    open spec fn view(&self) -> ConnectionView<T> {
        ConnectionView {
            msg_id: self.msg_id,
            started: self.started,
            buffer: self.buffer@.map_values(|m: Telemetry| m@),
            outbox: self.outbox@.map_values(|m: DkHandlerMessage<T>| m@),
        }
    }
}

/// The number of the packet after the one numbered `n`.
pub open spec fn next_number(n: u8) -> u8 {
    if n == 255 {
        0
    } else {
        (n + 1) as u8
    }
}

/// The packet that carries a command.
pub open spec fn packet_for(number: u8, command: CommandView) -> PacketView {
    PacketView {
        seq: number,
        system_id: GROUND_STATION,
        component_id: 0,
        message_id: command.message_id(),
        data: command.payload(),
        checksum: 0,
    }.sealed()
}

/// What comes of telling a watch of the messages set aside.
pub enum Replay {
    /// One of them ended it.
    Ended,
    /// None of them did, and the watch is now this.
    Open(WatchView),
    /// It could not take account of one of them.
    Fault,
}

/// Tells a watch of messages, one after the other, until one ends it.
pub open spec fn replay(watch: WatchView, msgs: Seq<TelemetryView>) -> Replay
    decreases msgs.len(),
{
    if msgs.len() == 0 {
        Replay::Open(watch)
    } else if !watch.accepts(msgs[0]) {
        Replay::Fault
    } else if watch.ends_with(msgs[0]) {
        Replay::Ended
    } else {
        replay(watch.after(msgs[0]), msgs.skip(1))
    }
}

impl<T> ConnectionView<T> {
    /// A connection on which nothing has happened.
    pub open spec fn fresh() -> ConnectionView<T> {
        ConnectionView { msg_id: 0, started: false, buffer: seq![], outbox: seq![] }
    }

    /// The connection after one more request.
    pub open spec fn requesting(self, request: TxView<T>) -> ConnectionView<T> {
        ConnectionView { outbox: self.outbox.push(request), ..self }
    }

    /// The connection after a command was sent.
    pub open spec fn after_send(self, command: CommandView) -> ConnectionView<T> {
        ConnectionView {
            msg_id: next_number(self.msg_id),
            outbox: self.outbox.push(TxView::TxMessage(packet_for(self.msg_id, command).bytes())),
            ..self
        }
    }

    /// The connection after a message was set aside.
    pub open spec fn set_aside(self, msg: TelemetryView) -> ConnectionView<T> {
        ConnectionView { buffer: self.buffer.push(msg), ..self }
    }

    /// The connection after a watcher was told of the messages set aside: unless one of them ended
    /// it, it is registered; and then reading goes on.
    pub open spec fn after_resume(self, watcher: WatcherView<T>) -> ConnectionView<T> {
        match replay(watcher.watch, self.buffer) {
            Replay::Ended => self.requesting(TxView::TxUncork),
            Replay::Open(watch) => self.requesting(
                TxView::TxWatcher(WatcherView { watch, promise: watcher.promise }),
            ).requesting(TxView::TxUncork),
            Replay::Fault => self,
        }
    }
}

/// What has become of a watcher after it was told of the messages set aside.
pub enum Resumed<T> {
    /// One of them ended it, and its promise is to be kept.
    Done(T),
    /// It was registered.
    Registered,
    /// It could not take account of one of them.
    Fault,
}

impl<T> VehicleConnection<T> {
    /// A connection on which nothing has happened.
    pub fn new() -> (r: VehicleConnection<T>)
        ensures
            r@ == ConnectionView::<T>::fresh(),
    {
        let r: VehicleConnection<T> = VehicleConnection {
            msg_id: 0,
            started: false,
            buffer: VecDeque::new(),
            outbox: Vec::new(),
        };
        assert(r@.buffer =~= seq![]);
        assert(r@.outbox =~= seq![]);
        r
    }

    /// Adds a request to those that have not gone out yet.
    pub fn request(&mut self, request: DkHandlerMessage<T>)
        ensures
            final(self)@ == old(self)@.requesting(request@),
    {
        self.outbox.push(request);
        assert(self@.outbox =~= old(self)@.outbox.push(request@));
    }

    /// Sends a command under the next number.
    pub fn send(&mut self, data: Command)
        ensures
            final(self)@ == old(self)@.after_send(data@),
    {
        let mut pkt: MavPacket = MavPacket {
            seq: self.msg_id,
            system_id: GROUND_STATION,
            component_id: 0,
            message_id: data.message_id(),
            data: data.serialize(),
            checksum: 0,
        };
        pkt.update_crc();
        let out: Vec<u8> = pkt.encode();
        self.msg_id = self.msg_id.wrapping_add(1);
        self.request(DkHandlerMessage::TxMessage(out));
    }

    /// Asks the handler to stop reading. What it still hands on is to be given to [`Self::corked`].
    pub fn cork(&mut self)
        ensures
            final(self)@ == old(self)@.requesting(TxView::TxCork),
    {
        self.request(DkHandlerMessage::TxCork);
    }

    /// Takes in what the handler hands on after it was asked to stop reading: a message is set
    /// aside. The result is whether reading has stopped.
    pub fn corked(&mut self, rx: DkHandlerRx) -> (r: bool)
        ensures
            r == (rx@ is RxCork),
            final(self)@ == (match rx@ {
                RxView::RxCork => old(self)@,
                RxView::RxMessage(msg) => old(self)@.set_aside(msg),
            }),
    {
        match rx {
            DkHandlerRx::RxCork => true,
            DkHandlerRx::RxMessage(msg) => {
                self.buffer.push_back(msg);
                assert(self@.buffer =~= old(self)@.buffer.push(msg@));
                false
            },
        }
    }

    /// Asks the handler to read on.
    pub fn uncork(&mut self)
        ensures
            final(self)@ == old(self)@.requesting(TxView::TxUncork),
    {
        self.request(DkHandlerMessage::TxUncork);
    }

    /// Takes the first of the messages set aside, if there is one.
    pub fn take_buffered(&mut self) -> (r: Option<Telemetry>)
        ensures
            old(self)@.buffer.len() == 0 ==> r is None && final(self)@ == old(self)@,
            old(self)@.buffer.len() > 0 ==> r is Some && r->0@ == old(self)@.buffer[0]
                && final(self)@ == (ConnectionView {
                buffer: old(self)@.buffer.skip(1),
                ..old(self)@
            }),
    {
        let r: Option<Telemetry> = self.buffer.pop_front();
        assert(r is Some ==> self@.buffer =~= old(self)@.buffer.skip(1));
        r
    }

    /// Tells a watcher of the messages set aside, which stay where they are, registers it unless one
    /// of them ended it, and asks the handler to read on.
    pub fn resume(&mut self, watcher: Watcher<T>) -> (r: Resumed<T>)
        ensures
            final(self)@ == old(self)@.after_resume(watcher@),
            r == (match replay(watcher@.watch, old(self)@.buffer) {
                Replay::Ended => Resumed::Done(watcher.promise),
                Replay::Open(_) => Resumed::Registered,
                Replay::Fault => Resumed::Fault,
            }),
    {
        let mut w: Watcher<T> = watcher;
        let ghost msgs = self@.buffer;
        let mut i: usize = 0;
        assert(msgs.skip(0) =~= msgs);
        while i < self.buffer.len()
            invariant
                i <= self.buffer@.len(),
                *self == *old(self),
                msgs == self@.buffer,
                w.promise == watcher.promise,
                replay(w@.watch, msgs.skip(i as int)) == replay(watcher@.watch, msgs),
            decreases self.buffer@.len() - i,
        {
            assert(msgs.skip(i as int)[0] == self.buffer@[i as int]@);
            assert(msgs.skip(i as int).skip(1) =~= msgs.skip(i + 1));
            if !w.watch.accepts(&self.buffer[i]) {
                return Resumed::Fault;
            }
            if !w.watch.watch(&self.buffer[i]) {
                self.uncork();
                return Resumed::Done(w.promise);
            }
            i = i + 1;
        }
        self.request(DkHandlerMessage::TxWatcher(w));
        self.uncork();
        Resumed::Registered
    }

    /// Takes out the requests that have not gone out yet, in order.
    pub fn take_outbox(&mut self) -> (r: Vec<DkHandlerMessage<T>>)
        ensures
            r@.map_values(|m: DkHandlerMessage<T>| m@) == old(self)@.outbox,
            final(self)@ == (ConnectionView { outbox: seq![], ..old(self)@ }),
    {
        let r: Vec<DkHandlerMessage<T>> = self.outbox.split_off(0);
        assert(r@ =~= old(self).outbox@);
        assert(self@.outbox =~= seq![]);
        r
    }
}

/// A command is read by the other side as the message that its id and payload stand for, and what
/// follows it as if it stood alone.
pub proof fn law_command_is_read(number: u8, command: CommandView, rest: Seq<u8>)
    requires
        command.payload().len() <= 255,
    ensures
        ({
            let read = handler::scan(packet_for(number, command).bytes() + rest);
            &&& read.messages == handler::as_seq(
                message::message_in(command.message_id(), command.payload()),
            ) + handler::scan(rest).messages
            &&& read.rest == handler::scan(rest).rest
        }),
{
    handler::law_packet_is_read(packet_for(number, command), rest);
}

/// The connection after several commands were sent.
pub open spec fn after_sends<T>(c: ConnectionView<T>, commands: Seq<CommandView>) -> ConnectionView<
    T,
>
    decreases commands.len(),
{
    if commands.len() == 0 {
        c
    } else {
        after_sends(c, commands.drop_last()).after_send(commands.last())
    }
}

/// Packets are numbered one after the other, and after 255 from 0 again. Each command goes out as
/// one packet under its number, behind what was to go out before.
pub proof fn law_packets_are_numbered<T>(c: ConnectionView<T>, commands: Seq<CommandView>)
    ensures
        ({
            let after = after_sends(c, commands);
            &&& after.msg_id == (c.msg_id + commands.len()) % 256
            &&& after.outbox == c.outbox + Seq::new(
                commands.len(),
                |i: int|
                    TxView::<T>::TxMessage(
                        packet_for(((c.msg_id + i) % 256) as u8, commands[i]).bytes(),
                    ),
            )
            &&& after.started == c.started
            &&& after.buffer == c.buffer
        }),
    decreases commands.len(),
{
    let sent = |cs: Seq<CommandView>|
        Seq::new(
            cs.len(),
            |i: int|
                TxView::<T>::TxMessage(packet_for(((c.msg_id + i) % 256) as u8, cs[i]).bytes()),
        );
    if commands.len() == 0 {
        assert(c.outbox + sent(commands) =~= c.outbox);
    } else {
        let init = commands.drop_last();
        law_packets_are_numbered(c, init);
        assert(after_sends(c, commands).outbox =~= c.outbox + sent(commands));
    }
}

/// Telling a watch of messages in two goes is telling it of all, unless the first go ends it or
/// brings a message that it cannot take account of.
pub proof fn law_replay_in_parts(
    watch: WatchView,
    first: Seq<TelemetryView>,
    second: Seq<TelemetryView>,
)
    ensures
        replay(watch, first + second) == (match replay(watch, first) {
            Replay::Open(then) => replay(then, second),
            other => other,
        }),
    decreases first.len(),
{
    if first.len() == 0 {
        assert(first + second =~= second);
    } else {
        assert((first + second)[0] == first[0]);
        assert((first + second).skip(1) =~= first.skip(1) + second);
        if watch.accepts(first[0]) && !watch.ends_with(first[0]) {
            law_replay_in_parts(watch.after(first[0]), first.skip(1), second);
        }
    }
}

/// With no watchers, messages are handed on and nothing else comes of them.
proof fn lemma_run_without_watchers<T>(msgs: Seq<TelemetryView>)
    ensures
        ({
            let run = handler::run(Seq::<WatcherView<T>>::empty(), msgs);
            &&& handler::completed(run.dispatches) == Seq::<T>::empty()
            &&& run.watchers == Seq::<WatcherView<T>>::empty()
            &&& !run.fault()
        }),
    decreases msgs.len(),
{
    if msgs.len() > 0 {
        let none = Seq::<WatcherView<T>>::empty();
        let before = handler::run(none, msgs.drop_last());
        lemma_run_without_watchers::<T>(msgs.drop_last());
        handler::law_accepted_message_reaches_all(none, msgs.last());
        let d = handler::dispatched(none, msgs.last());
        assert(before.dispatches.push(d).drop_last() =~= before.dispatches);
        assert(Seq::<T>::empty() + Seq::<T>::empty() =~= Seq::<T>::empty());
    }
}

/// The promises of two lists of dispatches are those of the first and then those of the second.
proof fn lemma_completed_in_parts<T>(
    first: Seq<handler::DispatchView<T>>,
    second: Seq<handler::DispatchView<T>>,
)
    ensures
        handler::completed(first + second) == handler::completed(first) + handler::completed(second),
    decreases second.len(),
{
    if second.len() == 0 {
        assert(first + second =~= first);
        assert(handler::completed(first) + seq![] =~= handler::completed(first));
    } else {
        let init = second.drop_last();
        lemma_completed_in_parts(first, init);
        assert((first + second).drop_last() =~= first + init);
        assert(handler::completed(first) + (handler::completed(init) + second.last().completed)
            =~= handler::completed(first) + handler::completed(init) + second.last().completed);
    }
}

/// No message is missed or counted twice by a watcher that is told of the messages set aside and
/// then registered: what has become of it is what the handler would have made of it, had it been
/// registered before they came.
pub proof fn law_resume_is_as_if_registered_before<T>(
    watcher: WatcherView<T>,
    msgs: Seq<TelemetryView>,
)
    ensures
        ({
            let run = handler::run(seq![watcher], msgs);
            let completed = handler::completed(run.dispatches);
            match replay(watcher.watch, msgs) {
                Replay::Ended => !run.fault() && completed == seq![watcher.promise]
                    && run.watchers == Seq::<WatcherView<T>>::empty(),
                Replay::Open(watch) => !run.fault() && completed == Seq::<T>::empty()
                    && run.watchers == seq![WatcherView { watch, promise: watcher.promise }],
                Replay::Fault => run.fault() && completed == Seq::<T>::empty(),
            }
        }),
    decreases msgs.len(),
{
    let ws = seq![watcher];
    if msgs.len() > 0 {
        let msg = msgs[0];
        let head = seq![msg];
        let tail = msgs.skip(1);
        assert(msgs =~= head + tail);
        handler::law_run_in_parts(ws, head, tail);
        reveal_with_fuel(handler::run, 2);
        reveal_with_fuel(handler::kept, 2);
        reveal_with_fuel(handler::ended, 2);
        reveal_with_fuel(handler::completed, 2);
        assert(head.drop_last() =~= seq![]);
        assert(ws.drop_last() =~= seq![]);
        let first = handler::run(ws, head);
        let d = handler::dispatched(ws, msg);
        assert(first.dispatches =~= seq![d]);
        assert(first.dispatches.drop_last() =~= seq![]);
        assert(handler::completed(first.dispatches) =~= d.completed);
        if !watcher.watch.accepts(msg) {
            assert(!ws[0].watch.accepts(msg));
            assert(ws.take(0) =~= seq![]);
        } else {
            assert(handler::all_accept(ws, msg));
            handler::law_accepted_message_reaches_all(ws, msg);
            let then = handler::run(first.watchers, tail);
            lemma_completed_in_parts(first.dispatches, then.dispatches);
            if then.dispatches.len() > 0 {
                assert((first.dispatches + then.dispatches).last() == then.dispatches.last());
            } else {
                assert(first.dispatches + then.dispatches =~= first.dispatches);
            }
            if watcher.watch.ends_with(msg) {
                assert(first.watchers =~= seq![]);
                assert(d.completed =~= seq![watcher.promise]);
                lemma_run_without_watchers::<T>(tail);
                assert(handler::completed(first.dispatches + then.dispatches) =~= seq![
                    watcher.promise,
                ]);
            } else {
                let next = WatcherView {
                    watch: watcher.watch.after(msg),
                    promise: watcher.promise,
                };
                assert(first.watchers =~= seq![next]);
                assert(d.completed =~= seq![]);
                law_resume_is_as_if_registered_before(next, tail);
                assert(handler::completed(first.dispatches + then.dispatches)
                    =~= handler::completed(then.dispatches));
            }
        }
    }
}

/// The packet that carries a command is intact, has the number given, comes from system 255 and
/// component 0, and holds the id and payload of the command.
pub proof fn law_packet_carries_the_command(number: u8, command: CommandView)
    ensures
        ({
            let p = packet_for(number, command);
            &&& p.intact()
            &&& p.seq == number
            &&& p.system_id == 255
            &&& p.component_id == 0
            &&& p.message_id == command.message_id()
            &&& p.data == command.payload()
        }),
{
}

/// A request goes behind those that have not gone out yet, and changes nothing else. A message set
/// aside goes behind those set aside before, and changes nothing else.
pub proof fn law_requests_and_messages_queue_up<T>(
    c: ConnectionView<T>,
    request: TxView<T>,
    msg: TelemetryView,
)
    ensures
        c.requesting(request).outbox == c.outbox + seq![request],
        c.requesting(request).buffer == c.buffer,
        c.requesting(request).msg_id == c.msg_id,
        c.requesting(request).started == c.started,
        c.set_aside(msg).buffer == c.buffer + seq![msg],
        c.set_aside(msg).outbox == c.outbox,
        c.set_aside(msg).msg_id == c.msg_id,
        c.set_aside(msg).started == c.started,
{
    assert(c.outbox.push(request) =~= c.outbox + seq![request]);
    assert(c.buffer.push(msg) =~= c.buffer + seq![msg]);
}

/// A command goes out as the bytes of one packet, behind what was to go out before. The next one has
/// the next number, or 0 behind 255.
pub proof fn law_command_goes_out_last<T>(c: ConnectionView<T>, command: CommandView)
    ensures
        ({
            let after = c.after_send(command);
            &&& after.outbox == c.outbox + seq![
                TxView::<T>::TxMessage(packet_for(c.msg_id, command).bytes()),
            ]
            &&& (after.msg_id as int - c.msg_id as int - 1) % 256 == 0
            &&& after.buffer == c.buffer
            &&& after.started == c.started
        }),
{
    assert(c.after_send(command).outbox =~= c.outbox + seq![
        TxView::<T>::TxMessage(packet_for(c.msg_id, command).bytes()),
    ]);
}

/// A watch that is told of one message ends, goes on as it then is, or cannot take account of it.
pub proof fn law_replay_of_one_message(watch: WatchView, msg: TelemetryView)
    ensures
        replay(watch, seq![]) == Replay::Open(watch),
        replay(watch, seq![msg]) is Fault <==> !watch.accepts(msg),
        replay(watch, seq![msg]) is Ended <==> watch.accepts(msg) && watch.ends_with(msg),
        watch.accepts(msg) && !watch.ends_with(msg) ==> replay(watch, seq![msg]) == Replay::Open(
            watch.after(msg),
        ),
{
    reveal_with_fuel(replay, 2);
    assert(seq![msg].skip(1) =~= seq![]);
}

/// After a watcher was told of the messages set aside, these are still set aside. Unless there was a
/// fault, the handler is asked to read on, last of all; before that the watcher is registered with its
/// promise, if it has not ended.
pub proof fn law_resume_registers_what_has_not_ended<T>(
    c: ConnectionView<T>,
    watcher: WatcherView<T>,
)
    ensures
        ({
            let after = c.after_resume(watcher);
            &&& after.buffer == c.buffer
            &&& after.msg_id == c.msg_id
            &&& after.started == c.started
            &&& match replay(watcher.watch, c.buffer) {
                Replay::Fault => after.outbox == c.outbox,
                Replay::Ended => after.outbox == c.outbox + seq![TxView::<T>::TxUncork],
                Replay::Open(watch) => after.outbox == c.outbox + seq![
                    TxView::TxWatcher(WatcherView { watch, promise: watcher.promise }),
                    TxView::TxUncork,
                ],
            }
        }),
{
    let after = c.after_resume(watcher);
    match replay(watcher.watch, c.buffer) {
        Replay::Fault => {},
        Replay::Ended => {
            assert(after.outbox =~= c.outbox + seq![TxView::<T>::TxUncork]);
        },
        Replay::Open(watch) => {
            assert(after.outbox =~= c.outbox + seq![
                TxView::TxWatcher(WatcherView { watch, promise: watcher.promise }),
                TxView::TxUncork,
            ]);
        },
    }
}

/// What is said of a connection is what it holds.
pub proof fn law_connection_view_holds_the_fields<T>(c: VehicleConnection<T>, i: int)
    ensures
        c@.msg_id == c.msg_id,
        c@.started == c.started,
        c@.buffer.len() == c.buffer@.len(),
        0 <= i < c.buffer@.len() ==> c@.buffer[i] == c.buffer@[i]@,
        c@.outbox.len() == c.outbox@.len(),
        0 <= i < c.outbox@.len() ==> c@.outbox[i] == c.outbox@[i]@,
{
}

} // verus!
