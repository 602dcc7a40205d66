//! The receiving side of a connection: finds packets in the byte stream and tells the watchers.
use vstd::prelude::*;

use crate::message::Telemetry;
use crate::message::TelemetryView;
use crate::packet::MavPacket;
use crate::packet::PacketView;
use crate::packet::PACKET_OVERHEAD;
use crate::packet::PACKET_START;
use crate::watcher::UpdaterList;
use crate::watcher::Watcher;
use crate::watcher::WatcherView;

verus! {

/// What the handler tells the vehicle's side.
#[derive(Debug, PartialEq)]
pub enum DkHandlerRx {
    /// No more messages are handed on until the handler is uncorked.
    RxCork,
    /// A message of the vehicle.
    RxMessage(Telemetry),
}

/// What a [`DkHandlerRx`] says.
pub enum RxView {
    RxCork,
    RxMessage(TelemetryView),
}

impl View for DkHandlerRx {
    type V = RxView;

    open spec fn view(&self) -> RxView {
        match self {
            DkHandlerRx::RxCork => RxView::RxCork,
            DkHandlerRx::RxMessage(m) => RxView::RxMessage(m@),
        }
    }
}

/// What the vehicle's side asks of the handler.
pub enum DkHandlerMessage<T> {
    /// Write these bytes to the vehicle.
    TxMessage(Vec<u8>),
    /// Register this watcher.
    TxWatcher(Watcher<T>),
    /// Stop reading, and say so.
    TxCork,
    /// Read on.
    TxUncork,
}

/// What a [`DkHandlerMessage`] asks.
pub enum TxView<T> {
    TxMessage(Seq<u8>),
    TxWatcher(WatcherView<T>),
    TxCork,
    TxUncork,
}

impl<T> View for DkHandlerMessage<T> {
    type V = TxView<T>;

    open spec fn view(&self) -> TxView<T> {
        match self {
            DkHandlerMessage::TxMessage(bytes) => TxView::TxMessage(bytes@),
            DkHandlerMessage::TxWatcher(w) => TxView::TxWatcher(w@),
            DkHandlerMessage::TxCork => TxView::TxCork,
            DkHandlerMessage::TxUncork => TxView::TxUncork,
        }
    }
}

/// Where the first start byte stands, or the length if there is none.
pub open spec fn first_start(buf: Seq<u8>) -> int
    decreases buf.len(),
{
    if buf.len() == 0 || buf[0] == PACKET_START {
        0
    } else {
        1 + first_start(buf.skip(1))
    }
}

/// The first start byte opens a frame once all the bytes that the frame says it has are there. The
/// pair gives where the frame begins and where it ends.
pub open spec fn first_frame(buf: Seq<u8>) -> Option<(int, int)> {
    let at = first_start(buf);
    if at + PACKET_OVERHEAD <= buf.len() && at + PACKET_OVERHEAD + buf[at + 1] <= buf.len() {
        Some((at, at + PACKET_OVERHEAD + buf[at + 1]))
    } else {
        None
    }
}

/// What is read from a sequence of bytes: the messages, and the bytes left over.
pub struct Scan {
    pub messages: Seq<TelemetryView>,
    pub rest: Seq<u8>,
}

/// The message as a sequence of one, or the empty sequence.
pub open spec fn as_seq(m: Option<TelemetryView>) -> Seq<TelemetryView> {
    match m {
        Some(m) => seq![m],
        None => seq![],
    }
}

/// Reads a sequence of bytes. An intact frame gives its message, if it is one of the dialect, and
/// reading goes on behind it; of a frame with a wrong checksum only the start byte is passed over.
/// Where no frame is complete, the bytes are left over.
pub open spec fn scan(buf: Seq<u8>) -> Scan
    decreases buf.len(),
    via scan_decreases
{
    match first_frame(buf) {
        None => Scan { messages: seq![], rest: buf },
        Some((at, end)) => {
            let packet = PacketView::of_bytes(buf.subrange(at, end));
            if packet.intact() {
                let further = scan(buf.skip(end));
                Scan { messages: as_seq(packet.parsed()) + further.messages, rest: further.rest }
            } else {
                scan(buf.skip(at + 1))
            }
        },
    }
}

#[via_fn]
proof fn scan_decreases(buf: Seq<u8>) {
    lemma_first_start(buf);
}

/// `first_start` is what its name says.
pub proof fn lemma_first_start(buf: Seq<u8>)
    ensures
        0 <= first_start(buf) <= buf.len(),
        forall|i: int| 0 <= i < first_start(buf) ==> buf[i] != PACKET_START,
        first_start(buf) < buf.len() ==> buf[first_start(buf)] == PACKET_START,
    decreases buf.len(),
{
    if buf.len() > 0 && buf[0] != PACKET_START {
        let rest = buf.skip(1);
        lemma_first_start(rest);
        assert forall|i: int| 0 <= i < first_start(buf) implies buf[i] != PACKET_START by {
            if i > 0 {
                assert(rest[i - 1] == buf[i]);
            }
        }
        if first_start(buf) < buf.len() {
            assert(rest[first_start(rest)] == buf[first_start(buf)]);
        }
    }
}

/// A position with no start byte before it is the first one if it holds one or is the end.
pub proof fn lemma_first_start_unique(buf: Seq<u8>, n: int)
    requires
        0 <= n <= buf.len(),
        forall|i: int| 0 <= i < n ==> buf[i] != PACKET_START,
        n < buf.len() ==> buf[n] == PACKET_START,
    ensures
        first_start(buf) == n,
{
    lemma_first_start(buf);
    let s = first_start(buf);
    if s < n {
        assert(buf[s] == PACKET_START);
    }
    if n < s {
        assert(buf[n] == PACKET_START);
    }
}

/// Finds the first complete frame at or after `start`: where it begins and where it ends.
pub fn find_frame(buf: &[u8], start: usize) -> (r: Option<(usize, usize)>)
    requires
        start <= buf@.len(),
    ensures
        first_frame(buf@.skip(start as int)) == (match r {
            Some((at, end)) => Some((at - start, end - start)),
            None => None,
        }),
        r matches Some((at, end)) ==> start <= at && at + PACKET_OVERHEAD <= end <= buf@.len(),
{
    let ghost tail = buf@.skip(start as int);
    let mut at: usize = start;
    while at < buf.len() && buf[at] != PACKET_START
        invariant
            start <= at <= buf@.len(),
            tail == buf@.skip(start as int),
            forall|i: int| 0 <= i < at - start ==> tail[i] != PACKET_START,
        decreases buf.len() - at,
    {
        at = at + 1;
    }
    proof {
        lemma_first_start_unique(tail, at - start);
    }
    if buf.len() - at < PACKET_OVERHEAD {
        return None;
    }
    let len: usize = buf[at + 1] as usize;
    assert(tail[at - start + 1] == buf@[at + 1]);
    if buf.len() - at - PACKET_OVERHEAD < len {
        return None;
    }
    Some((at, at + PACKET_OVERHEAD + len))
}

/// Where to read on after a frame: behind it if it is intact, and else behind its start byte.
pub fn read_on_at(frame: (usize, usize), intact: bool) -> (r: usize)
    requires
        frame.0 < frame.1,
    ensures
        r == (if intact {
            frame.1 as int
        } else {
            frame.0 + 1
        }),
{
    if intact {
        frame.1
    } else {
        frame.0 + 1
    }
}

/// Reads the messages out of a buffer. The result holds them and the length of what was read.
pub fn read_messages(buf: &[u8]) -> (r: (Vec<Telemetry>, usize))
    ensures
        r.0@.map_values(|m: Telemetry| m@) == scan(buf@).messages,
        r.1 <= buf@.len(),
        buf@.skip(r.1 as int) == scan(buf@).rest,
{
    let mut messages: Vec<Telemetry> = Vec::new();
    let mut start: usize = 0;
    let mut open: bool = true;
    assert(buf@.skip(0) =~= buf@);
    while open
        invariant
            start <= buf@.len(),
            messages@.map_values(|m: Telemetry| m@) + scan(buf@.skip(start as int)).messages
                == scan(buf@).messages,
            scan(buf@.skip(start as int)).rest == scan(buf@).rest,
            !open ==> first_frame(buf@.skip(start as int)) is None,
        decreases
            buf@.len() - start + (if open {
                1int
            } else {
                0int
            }),
    {
        let ghost tail = buf@.skip(start as int);
        let ghost before = messages@;
        match find_frame(buf, start) {
            Some(frame) => {
                let bytes: &[u8] = vstd::slice::slice_subrange(buf, frame.0, frame.1);
                assert(bytes@ =~= tail.subrange(frame.0 - start, frame.1 - start));
                let packet: MavPacket = MavPacket::new(bytes);
                let intact: bool = packet.check_crc();
                if intact {
                    if let Some(m) = packet.parse() {
                        messages.push(m);
                    }
                }
                proof {
                    let view = |m: Telemetry| m@;
                    let end = if intact {
                        frame.1 as int
                    } else {
                        frame.0 + 1
                    };
                    assert(tail.skip(end - start) =~= buf@.skip(end));
                    if intact {
                        assert(messages@.map_values(view) =~= before.map_values(view) + as_seq(
                            packet@.parsed(),
                        ));
                    }
                    assert(messages@.map_values(view) + scan(buf@.skip(end)).messages
                        =~= before.map_values(view) + scan(tail).messages);
                }
                start = read_on_at(frame, intact);
            },
            None => {
                open = false;
            },
        }
    }
    assert(messages@.map_values(|m: Telemetry| m@) + seq![] =~= messages@.map_values(
        |m: Telemetry| m@,
    ));
    (messages, start)
}

/// What the watchers of a list hold.
pub open spec fn watcher_views<T>(watchers: Seq<Watcher<T>>) -> Seq<WatcherView<T>> {
    watchers.map_values(|w: Watcher<T>| w@)
}

/// Whether every watcher can take account of the message.
pub open spec fn all_accept<T>(watchers: Seq<WatcherView<T>>, msg: TelemetryView) -> bool {
    forall|i: int| 0 <= i < watchers.len() ==> #[trigger] watchers[i].watch.accepts(msg)
}

/// The watchers that go on watching after the message, as they are then, in their order.
pub open spec fn kept<T>(watchers: Seq<WatcherView<T>>, msg: TelemetryView) -> Seq<WatcherView<T>>
    decreases watchers.len(),
{
    if watchers.len() == 0 {
        seq![]
    } else {
        let before = kept(watchers.drop_last(), msg);
        let w = watchers.last();
        if w.watch.ends_with(msg) {
            before
        } else {
            before.push(WatcherView { watch: w.watch.after(msg), promise: w.promise })
        }
    }
}

/// The promises of the watchers that the message ends, in their order.
pub open spec fn ended<T>(watchers: Seq<WatcherView<T>>, msg: TelemetryView) -> Seq<T>
    decreases watchers.len(),
{
    if watchers.len() == 0 {
        seq![]
    } else {
        let before = ended(watchers.drop_last(), msg);
        let w = watchers.last();
        if w.watch.ends_with(msg) {
            before.push(w.promise)
        } else {
            before
        }
    }
}

/// How many watchers stand before the first that cannot take account of the message: all of them, if
/// there is none.
pub open spec fn accepting<T>(watchers: Seq<WatcherView<T>>, msg: TelemetryView) -> int
    decreases watchers.len(),
{
    if watchers.len() == 0 || !watchers[0].watch.accepts(msg) {
        0
    } else {
        1 + accepting(watchers.skip(1), msg)
    }
}

/// `accepting` is what its name says.
pub proof fn lemma_accepting<T>(watchers: Seq<WatcherView<T>>, msg: TelemetryView)
    ensures
        0 <= accepting(watchers, msg) <= watchers.len(),
        all_accept(watchers.take(accepting(watchers, msg)), msg),
        accepting(watchers, msg) < watchers.len() ==> !watchers[accepting(
            watchers,
            msg,
        )].watch.accepts(msg),
        accepting(watchers, msg) == watchers.len() <==> all_accept(watchers, msg),
    decreases watchers.len(),
{
    if watchers.len() > 0 && watchers[0].watch.accepts(msg) {
        let rest = watchers.skip(1);
        lemma_accepting(rest, msg);
        let n = accepting(watchers, msg);
        let told = watchers.take(n);
        assert forall|i: int| 0 <= i < told.len() implies #[trigger] told[i].watch.accepts(msg) by {
            if i > 0 {
                assert(rest.take(n - 1)[i - 1] == told[i]);
            }
        }
        if n == watchers.len() {
            assert(told =~= watchers);
        } else {
            assert(rest[n - 1] == watchers[n]);
        }
    } else if watchers.len() > 0 {
        assert(!watchers[0].watch.accepts(msg));
    }
}

/// What comes of one message: what is handed on, then the promises to be kept, and whether some
/// watcher could not take account of it.
pub struct DispatchView<T> {
    pub forward: RxView,
    pub completed: Seq<T>,
    pub fault: bool,
}

/// What comes of telling watchers of a message. They are told one after the other, up to the first
/// that cannot take account of it.
pub open spec fn dispatched<T>(
    watchers: Seq<WatcherView<T>>,
    msg: TelemetryView,
) -> DispatchView<T> {
    DispatchView {
        forward: RxView::RxMessage(msg),
        completed: ended(watchers.take(accepting(watchers, msg)), msg),
        fault: accepting(watchers, msg) < watchers.len(),
    }
}

/// The watchers left after they were told of a message. The first that cannot take account of it is
/// dropped with those behind it.
pub open spec fn left<T>(watchers: Seq<WatcherView<T>>, msg: TelemetryView) -> Seq<WatcherView<T>> {
    kept(watchers.take(accepting(watchers, msg)), msg)
}

/// What comes of a sequence of messages.
pub struct Run<T> {
    /// What comes of each, in their order.
    pub dispatches: Seq<DispatchView<T>>,
    /// The watchers left.
    pub watchers: Seq<WatcherView<T>>,
}

impl<T> Run<T> {
    /// Whether some watcher could not take account of the last message handed on.
    pub open spec fn fault(self) -> bool {
        self.dispatches.len() > 0 && self.dispatches.last().fault
    }
}

/// Tells the watchers of one message after the other, up to the first that one of them cannot take
/// account of.
pub open spec fn run<T>(watchers: Seq<WatcherView<T>>, msgs: Seq<TelemetryView>) -> Run<T>
    decreases msgs.len(),
{
    if msgs.len() == 0 {
        Run { dispatches: seq![], watchers }
    } else {
        let before = run(watchers, msgs.drop_last());
        let msg = msgs.last();
        if before.fault() {
            before
        } else {
            Run {
                dispatches: before.dispatches.push(dispatched(before.watchers, msg)),
                watchers: left(before.watchers, msg),
            }
        }
    }
}

/// The promises to be kept over several messages, in their order.
pub open spec fn completed<T>(dispatches: Seq<DispatchView<T>>) -> Seq<T>
    decreases dispatches.len(),
{
    if dispatches.len() == 0 {
        seq![]
    } else {
        completed(dispatches.drop_last()) + dispatches.last().completed
    }
}

/// The receiving side: bytes that are not yet read, and the watchers.
pub struct DkHandler<T> {
    pub buf: Vec<u8>,
    pub watchers: UpdaterList<T>,
}

/// What a [`DkHandler`] holds.
pub struct HandlerView<T> {
    pub buf: Seq<u8>,
    pub watchers: Seq<WatcherView<T>>,
}

impl<T> View for DkHandler<T> {
    type V = HandlerView<T>;

    open spec fn view(&self) -> HandlerView<T> {
        HandlerView { buf: self.buf@, watchers: watcher_views(self.watchers@) }
    }
}

/// What comes of one message: what is handed on, then the promises to be kept, and whether some
/// watcher could not take account of it.
pub struct Dispatch<T> {
    pub forward: DkHandlerRx,
    pub completed: Vec<T>,
    pub fault: bool,
}

impl<T> View for Dispatch<T> {
    type V = DispatchView<T>;

    open spec fn view(&self) -> DispatchView<T> {
        DispatchView {
            forward: self.forward@,
            completed: self.completed@,
            fault: self.fault,
        }
    }
}

/// What came of several messages.
pub open spec fn dispatch_views<T>(dispatches: Seq<Dispatch<T>>) -> Seq<DispatchView<T>> {
    dispatches.map_values(|d: Dispatch<T>| d@)
}

/// What is to be done with the socket for a request.
#[derive(Debug, PartialEq)]
pub enum HandlerAction {
    /// Nothing.
    Nothing,
    /// Write these bytes.
    Write(Vec<u8>),
    /// Stop reading, and hand on that reading has stopped.
    Cork(DkHandlerRx),
    /// Read on.
    Uncork,
}

/// What a [`HandlerAction`] says.
pub enum ActionView {
    Nothing,
    Write(Seq<u8>),
    Cork(RxView),
    Uncork,
}

impl View for HandlerAction {
    type V = ActionView;

    open spec fn view(&self) -> ActionView {
        match self {
            HandlerAction::Nothing => ActionView::Nothing,
            HandlerAction::Write(bytes) => ActionView::Write(bytes@),
            HandlerAction::Cork(rx) => ActionView::Cork(rx@),
            HandlerAction::Uncork => ActionView::Uncork,
        }
    }
}

impl<T> HandlerView<T> {
    /// What comes of some bytes received.
    pub open spec fn reception(self, input: Seq<u8>) -> Run<T> {
        run(self.watchers, scan(self.buf + input).messages)
    }

    /// The handler after some bytes were received.
    pub open spec fn after_input(self, input: Seq<u8>) -> HandlerView<T> {
        HandlerView { buf: scan(self.buf + input).rest, watchers: self.reception(input).watchers }
    }

    /// The handler after a request.
    pub open spec fn after_request(self, request: TxView<T>) -> HandlerView<T> {
        match request {
            TxView::TxWatcher(w) => HandlerView { watchers: self.watchers.push(w), ..self },
            _ => self,
        }
    }
}

impl<T> TxView<T> {
    /// What a request asks to be done with the socket.
    pub open spec fn action(self) -> ActionView {
        match self {
            TxView::TxMessage(bytes) => ActionView::Write(bytes),
            TxView::TxWatcher(_) => ActionView::Nothing,
            TxView::TxCork => ActionView::Cork(RxView::RxCork),
            TxView::TxUncork => ActionView::Uncork,
        }
    }
}

impl<T> DkHandler<T> {
    /// A handler that has received nothing and has no watchers.
    pub fn new() -> (r: DkHandler<T>)
        ensures
            r@ == (HandlerView::<T> { buf: seq![], watchers: seq![] }),
    {
        let r: DkHandler<T> = DkHandler { buf: Vec::new(), watchers: Vec::new() };
        assert(r@.watchers =~= seq![]);
        r
    }

    /// Hands a message on, and tells the watchers of it, one after the other. Those that it ends are
    /// dropped, and their promises given out. A watcher that cannot take account of it is a fault:
    /// it is dropped with those behind it, which are not told.
    pub fn dispatch(&mut self, pkt: Telemetry) -> (r: Dispatch<T>)
        ensures
            r@ == dispatched(old(self)@.watchers, pkt@),
            final(self)@.watchers == left(old(self)@.watchers, pkt@),
            final(self).buf == old(self).buf,
    {
        let ghost all = self.watchers@;
        let ghost views = self@.watchers;
        let ghost n = accepting(views, pkt@);
        proof {
            lemma_accepting(views, pkt@);
        }
        let mut completed: Vec<T> = Vec::new();
        let mut fault: bool = false;
        let ups: UpdaterList<T> = self.watchers.split_off(0);
        assert(self@.watchers =~= seq![]);
        for x in it: ups
            invariant
                it.seq() == all,
                views == watcher_views(all),
                n == accepting(views, pkt@),
                0 <= n <= views.len(),
                all_accept(views.take(n), pkt@),
                n < views.len() ==> !views[n].watch.accepts(pkt@),
                fault == (n < it.index()),
                completed@ == ended(
                    views.take(
                        if fault {
                            n
                        } else {
                            it.index()
                        },
                    ),
                    pkt@,
                ),
                self@.watchers == kept(
                    views.take(
                        if fault {
                            n
                        } else {
                            it.index()
                        },
                    ),
                    pkt@,
                ),
                self.buf == old(self).buf,
        {
            let mut w: Watcher<T> = x;
            let ghost i = it.index();
            let ghost before = self.watchers@;
            assert(views[i].watch == w.watch@);
            assert(i < n ==> views.take(n)[i].watch.accepts(pkt@));
            assert(views.take(i + 1).drop_last() =~= views.take(i));
            if !fault {
                if !w.watch.accepts(&pkt) {
                    fault = true;
                } else if w.watch.watch(&pkt) {
                    self.watchers.push(w);
                    assert(watcher_views(self.watchers@) =~= watcher_views(before).push(w@));
                } else {
                    completed.push(w.promise);
                }
            }
        }
        Dispatch { forward: DkHandlerRx::RxMessage(pkt), completed, fault }
    }

    /// Hands messages on, one after the other, and tells the watchers of each. The result says what
    /// comes of each, and is to be carried out in its order: the promises of one message before the
    /// next is handed on. It ends with a message that some watcher cannot take account of.
    pub fn deliver(&mut self, messages: Vec<Telemetry>) -> (r: Vec<Dispatch<T>>)
        ensures
            ({
                let run = run(old(self)@.watchers, messages@.map_values(|m: Telemetry| m@));
                &&& final(self)@.watchers == run.watchers
                &&& dispatch_views(r@) == run.dispatches
            }),
            final(self).buf == old(self).buf,
    {
        let ghost views = self@.watchers;
        let ghost msgs = messages@.map_values(|m: Telemetry| m@);
        let mut r: Vec<Dispatch<T>> = Vec::new();
        let mut fault: bool = false;
        assert(dispatch_views(r@) =~= seq![]);
        for m in it: messages
            invariant
                it.seq().map_values(|m: Telemetry| m@) == msgs,
                self.buf == old(self).buf,
                self@.watchers == run(views, msgs.take(it.index())).watchers,
                dispatch_views(r@) == run(views, msgs.take(it.index())).dispatches,
                fault == run(views, msgs.take(it.index())).fault(),
        {
            let ghost i = it.index();
            let ghost before = r@;
            assert(msgs[i] == m@);
            assert(msgs.take(i + 1).drop_last() =~= msgs.take(i));
            if !fault {
                let d: Dispatch<T> = self.dispatch(m);
                fault = d.fault;
                r.push(d);
                assert(dispatch_views(r@) =~= dispatch_views(before).push(d@));
            }
        }
        assert(msgs.take(msgs.len() as int) =~= msgs);
        r
    }

    /// Takes in bytes received: reads the messages that they complete and delivers them.
    pub fn ready(&mut self, input: &[u8]) -> (r: Vec<Dispatch<T>>)
        ensures
            final(self)@ == old(self)@.after_input(input@),
            dispatch_views(r@) == old(self)@.reception(input@).dispatches,
    {
        self.buf.extend_from_slice(input);
        assert(self.buf@ =~= old(self).buf@ + input@);
        let (messages, end): (Vec<Telemetry>, usize) = read_messages(self.buf.as_slice());
        let rest: Vec<u8> = self.buf.split_off(end);
        self.buf = rest;
        self.deliver(messages)
    }

    /// Takes in a request, and says what is to be done with the socket for it.
    pub fn notify(&mut self, message: DkHandlerMessage<T>) -> (r: HandlerAction)
        ensures
            final(self)@ == old(self)@.after_request(message@),
            r@ == message@.action(),
    {
        match message {
            DkHandlerMessage::TxMessage(bytes) => HandlerAction::Write(bytes),
            DkHandlerMessage::TxWatcher(w) => {
                self.watchers.push(w);
                assert(self@.watchers =~= old(self)@.watchers.push(w@));
                HandlerAction::Nothing
            },
            DkHandlerMessage::TxCork => HandlerAction::Cork(DkHandlerRx::RxCork),
            DkHandlerMessage::TxUncork => HandlerAction::Uncork,
        }
    }
}

/// Bytes may come in any pieces: reading a piece, and then what was left over with the next piece,
/// reads the same messages and leaves the same bytes over as reading both at once.
pub proof fn law_scan_in_pieces(x: Seq<u8>, y: Seq<u8>)
    ensures
        scan(x + y).messages == scan(x).messages + scan(scan(x).rest + y).messages,
        scan(x + y).rest == scan(scan(x).rest + y).rest,
    decreases x.len(),
{
    lemma_first_start(x);
    match first_frame(x) {
        None => {
            assert(scan(x).messages + scan(x + y).messages =~= scan(x + y).messages);
        },
        Some((at, end)) => {
            lemma_first_start_unique(x + y, at);
            assert((x + y)[at + 1] == x[at + 1]);
            assert((x + y).subrange(at, end) =~= x.subrange(at, end));
            let packet = PacketView::of_bytes(x.subrange(at, end));
            if packet.intact() {
                law_scan_in_pieces(x.skip(end), y);
                assert((x + y).skip(end) =~= x.skip(end) + y);
                assert(scan(x + y).messages =~= scan(x).messages + scan(
                    scan(x).rest + y,
                ).messages);
            } else {
                law_scan_in_pieces(x.skip(at + 1), y);
                assert((x + y).skip(at + 1) =~= x.skip(at + 1) + y);
            }
        },
    }
}

/// What is left over holds no complete frame, and is the end of what was read.
pub proof fn law_scan_leaves_no_frame(buf: Seq<u8>)
    ensures
        first_frame(scan(buf).rest) is None,
        scan(buf).rest.len() <= buf.len(),
        scan(buf).rest == buf.skip(buf.len() - scan(buf).rest.len()),
    decreases buf.len(),
{
    lemma_first_start(buf);
    match first_frame(buf) {
        None => {
            assert(buf.skip(0) =~= buf);
        },
        Some((at, end)) => {
            let k = if PacketView::of_bytes(buf.subrange(at, end)).intact() {
                end
            } else {
                at + 1
            };
            law_scan_leaves_no_frame(buf.skip(k));
            assert(scan(buf).rest =~= buf.skip(buf.len() - scan(buf).rest.len()));
        },
    }
}

/// An intact packet whose payload length fits its length byte is read as the message that it holds,
/// and what follows it is read as if it stood alone.
pub proof fn law_packet_is_read(p: PacketView, rest: Seq<u8>)
    requires
        p.intact(),
        p.data.len() <= 255,
    ensures
        scan(p.bytes() + rest).messages == as_seq(p.parsed()) + scan(rest).messages,
        scan(p.bytes() + rest).rest == scan(rest).rest,
{
    let b = p.bytes();
    let buf = b + rest;
    lemma_first_start_unique(buf, 0);
    assert(buf[1] == p.data.len());
    assert(first_frame(buf) == Some((0int, b.len() as int)));
    assert(buf.subrange(0, b.len() as int) =~= b);
    crate::packet::law_new_inverts_encode(p);
    assert(buf.skip(b.len() as int) =~= rest);
}

/// Bytes before the first start byte do not change what is read. They are dropped once a frame
/// behind them is complete.
pub proof fn law_noise_is_skipped(noise: Seq<u8>, buf: Seq<u8>)
    requires
        forall|i: int| 0 <= i < noise.len() ==> noise[i] != PACKET_START,
    ensures
        scan(noise + buf).messages == scan(buf).messages,
        first_frame(buf) is Some ==> scan(noise + buf).rest == scan(buf).rest,
        first_frame(buf) is None ==> scan(noise + buf).rest == noise + buf,
{
    let n = noise.len() as int;
    let all = noise + buf;
    lemma_first_start(buf);
    let at = first_start(buf);
    lemma_first_start_unique(all, n + at);
    if at + 1 < buf.len() {
        assert(all[n + at + 1] == buf[at + 1]);
    }
    if let Some((a, end)) = first_frame(buf) {
        assert(first_frame(all) == Some((n + a, n + end)));
        assert(all.subrange(n + a, n + end) =~= buf.subrange(a, end));
        assert(all.skip(n + end) =~= buf.skip(end));
        assert(all.skip(n + a + 1) =~= buf.skip(a + 1));
    }
}

/// The frame between two places of a buffer is intact and holds the message.
pub open spec fn holds_message(buf: Seq<u8>, at: int, end: int, msg: TelemetryView) -> bool {
    &&& 0 <= at < end <= buf.len()
    &&& buf[at] == PACKET_START
    &&& end == at + PACKET_OVERHEAD + buf[at + 1]
    &&& PacketView::of_bytes(buf.subrange(at, end)).intact()
    &&& PacketView::of_bytes(buf.subrange(at, end)).parsed() == Some(msg)
}

/// Only intact frames are read: every message that is read stands in the buffer in a frame with the
/// right checksum.
pub proof fn law_messages_are_intact(buf: Seq<u8>, i: int)
    requires
        0 <= i < scan(buf).messages.len(),
    ensures
        exists|at: int, end: int| holds_message(buf, at, end, scan(buf).messages[i]),
    decreases buf.len(),
{
    lemma_first_start(buf);
    let (at, end) = first_frame(buf).unwrap();
    let packet = PacketView::of_bytes(buf.subrange(at, end));
    let (k, j) = if !packet.intact() {
        (at + 1, i)
    } else if packet.parsed() is Some {
        (end, i - 1)
    } else {
        (end, i)
    };
    if j < 0 {
        assert(holds_message(buf, at, end, scan(buf).messages[i]));
    } else {
        let tail = buf.skip(k);
        let msg = scan(tail).messages[j];
        law_messages_are_intact(tail, j);
        let (a, e) = choose|a: int, e: int| holds_message(tail, a, e, msg);
        assert(tail.subrange(a, e) =~= buf.subrange(k + a, k + e));
        assert(tail[a] == buf[k + a] && tail[a + 1] == buf[k + a + 1]);
        assert(scan(buf).messages[i] == msg);
        assert(holds_message(buf, k + a, k + e, msg));
    }
}

/// Telling the watchers of messages in two goes is telling them of all, if the first go ends without
/// a fault; if it does not, nothing comes of the second.
pub proof fn law_run_in_parts<T>(
    watchers: Seq<WatcherView<T>>,
    first: Seq<TelemetryView>,
    second: Seq<TelemetryView>,
)
    ensures
        run(watchers, first).fault() ==> run(watchers, first + second) == run(watchers, first),
        !run(watchers, first).fault() ==> run(watchers, first + second) == ({
            let a = run(watchers, first);
            let b = run(a.watchers, second);
            Run { dispatches: a.dispatches + b.dispatches, watchers: b.watchers }
        }),
    decreases second.len(),
{
    let a = run(watchers, first);
    if second.len() == 0 {
        assert(first + second =~= first);
        assert(a.dispatches + seq![] =~= a.dispatches);
    } else {
        let init = second.drop_last();
        law_run_in_parts(watchers, first, init);
        assert((first + second).drop_last() =~= first + init);
        if !a.fault() {
            let b = run(a.watchers, init);
            let d = dispatched(b.watchers, second.last());
            assert(a.dispatches + b.dispatches.push(d) =~= (a.dispatches + b.dispatches).push(d));
            if b.dispatches.len() > 0 {
                assert((a.dispatches + b.dispatches).last() == b.dispatches.last());
            } else {
                assert(a.dispatches + b.dispatches =~= a.dispatches);
            }
        }
    }
}

/// Receiving bytes in two pieces is receiving them at once: the handler ends up the same, and the
/// same comes of the same messages in the same order, unless the first piece brings a message that
/// some watcher cannot take account of.
pub proof fn law_ready_in_pieces<T>(h: HandlerView<T>, x: Seq<u8>, y: Seq<u8>)
    requires
        !h.reception(x).fault(),
    ensures
        h.after_input(x + y) == h.after_input(x).after_input(y),
        h.reception(x + y).dispatches == h.reception(x).dispatches + h.after_input(x).reception(
            y,
        ).dispatches,
{
    assert(h.buf + (x + y) =~= (h.buf + x) + y);
    law_scan_in_pieces(h.buf + x, y);
    law_run_in_parts(
        h.watchers,
        scan(h.buf + x).messages,
        scan(scan(h.buf + x).rest + y).messages,
    );
}

/// A message is handed on before the promises that it ends are kept, and these before the next
/// message is handed on: what comes of the message at a place is what comes of it for the watchers
/// that the messages before it have left.
pub proof fn law_messages_take_effect_in_order<T>(
    watchers: Seq<WatcherView<T>>,
    msgs: Seq<TelemetryView>,
    i: int,
)
    requires
        0 <= i < run(watchers, msgs).dispatches.len(),
    ensures
        run(watchers, msgs).dispatches.len() <= msgs.len(),
        run(watchers, msgs).dispatches[i] == dispatched(
            run(watchers, msgs.take(i)).watchers,
            msgs[i],
        ),
        run(watchers, msgs).dispatches[i].fault ==> i == run(watchers, msgs).dispatches.len() - 1,
        !run(watchers, msgs).fault() ==> run(watchers, msgs).dispatches.len() == msgs.len(),
    decreases msgs.len(),
{
    let init = msgs.drop_last();
    let before = run(watchers, init);
    lemma_run_length(watchers, msgs);
    lemma_run_length(watchers, init);
    if i < before.dispatches.len() {
        law_messages_take_effect_in_order(watchers, init, i);
        assert(init.take(i) =~= msgs.take(i));
    } else {
        assert(msgs.take(i) =~= init);
    }
}

/// Something comes of every message, unless there is a fault.
proof fn lemma_run_length<T>(watchers: Seq<WatcherView<T>>, msgs: Seq<TelemetryView>)
    ensures
        run(watchers, msgs).dispatches.len() <= msgs.len(),
        !run(watchers, msgs).fault() ==> run(watchers, msgs).dispatches.len() == msgs.len(),
    decreases msgs.len(),
{
    if msgs.len() > 0 {
        lemma_run_length(watchers, msgs.drop_last());
    }
}

/// Where every watcher can take account of a message, all are told of it and there is no fault.
pub proof fn law_accepted_message_reaches_all<T>(
    watchers: Seq<WatcherView<T>>,
    msg: TelemetryView,
)
    requires
        all_accept(watchers, msg),
    ensures
        dispatched(watchers, msg) == (DispatchView {
            forward: RxView::RxMessage(msg),
            completed: ended(watchers, msg),
            fault: false,
        }),
        left(watchers, msg) == kept(watchers, msg),
{
    lemma_accepting(watchers, msg);
    assert(watchers.take(watchers.len() as int) =~= watchers);
}

/// The promises of a list of watchers.
pub open spec fn promises<T>(watchers: Seq<WatcherView<T>>) -> Seq<T> {
    watchers.map_values(|w: WatcherView<T>| w.promise)
}

/// Every promise stays with its watcher or is given out, and none does both.
pub proof fn law_promises_are_given_out_once<T>(watchers: Seq<WatcherView<T>>, msg: TelemetryView)
    ensures
        promises(kept(watchers, msg)).to_multiset().add(ended(watchers, msg).to_multiset())
            == promises(watchers).to_multiset(),
        kept(watchers, msg).len() + ended(watchers, msg).len() == watchers.len(),
    decreases watchers.len(),
{
    broadcast use vstd::seq_lib::group_to_multiset_ensures;

    if watchers.len() == 0 {
        assert(promises(kept(watchers, msg)).to_multiset().add(ended(watchers, msg).to_multiset())
            =~= promises(watchers).to_multiset());
    } else {
        let init = watchers.drop_last();
        let w = watchers.last();
        law_promises_are_given_out_once(init, msg);
        assert(promises(watchers) =~= promises(init).push(w.promise));
        let k = kept(init, msg);
        let next = WatcherView { watch: w.watch.after(msg), promise: w.promise };
        assert(promises(k.push(next)) =~= promises(k).push(w.promise));
        assert(promises(kept(watchers, msg)).to_multiset().add(ended(watchers, msg).to_multiset())
            =~= promises(watchers).to_multiset());
    }
}

/// Only parameter values bear on watchers.
pub proof fn law_only_parameter_values_matter<T>(watchers: Seq<WatcherView<T>>, msg: TelemetryView)
    requires
        !(msg is ParamValue),
    ensures
        all_accept(watchers, msg),
        kept(watchers, msg) == watchers,
        ended(watchers, msg) == Seq::<T>::empty(),
    decreases watchers.len(),
{
    if watchers.len() > 0 {
        law_only_parameter_values_matter(watchers.drop_last(), msg);
        assert(watchers.drop_last().push(watchers.last()) =~= watchers);
    } else {
        assert(kept(watchers, msg) =~= watchers);
    }
}

/// A frame is complete once the bytes are there that its length byte tells of, counted from the first
/// start byte, and eight more.
pub proof fn law_frame_is_complete(noise: Seq<u8>, rest: Seq<u8>)
    requires
        forall|i: int| 0 <= i < noise.len() ==> noise[i] != 0xfe,
        rest.len() > 0 ==> rest[0] == 0xfe,
    ensures
        rest.len() < 8 ==> first_frame(noise + rest) is None,
        rest.len() >= 8 ==> first_frame(noise + rest) == (if rest.len() >= 8 + rest[1] {
            Some((noise.len() as int, noise.len() + 8 + rest[1]))
        } else {
            None
        }),
{
    let all = noise + rest;
    let n = noise.len() as int;
    lemma_first_start_unique(all, n);
    if rest.len() >= 8 {
        assert(all[n + 1] == rest[1]);
    }
}

/// Behind a packet reading goes on as if what follows stood alone, and the message in an intact packet
/// is read, whichever it is.
pub proof fn law_message_of_packet_is_read(p: PacketView, rest: Seq<u8>)
    requires
        p.intact(),
        p.data.len() <= 255,
    ensures
        p.parsed() matches Some(msg) ==> scan(p.bytes() + rest).messages == seq![msg] + scan(
            rest,
        ).messages,
        p.parsed() is None ==> scan(p.bytes() + rest).messages == scan(rest).messages,
        scan(p.bytes() + rest).rest == scan(rest).rest,
{
    law_packet_is_read(p, rest);
    if p.parsed() is None {
        assert(as_seq(p.parsed()) + scan(rest).messages =~= scan(rest).messages);
    }
}

/// Of a packet that is not intact only the start byte is lost: what stands behind that is read as if
/// it had come alone.
pub proof fn law_damaged_packet_costs_one_byte(p: PacketView, rest: Seq<u8>)
    requires
        !p.intact(),
        p.data.len() <= 255,
    ensures
        scan(p.bytes() + rest) == scan((p.bytes() + rest).skip(1)),
{
    let b = p.bytes();
    let buf = b + rest;
    lemma_first_start_unique(buf, 0);
    assert(buf[1] == p.data.len());
    assert(first_frame(buf) == Some((0int, b.len() as int)));
    assert(buf.subrange(0, b.len() as int) =~= b);
    crate::packet::law_new_inverts_encode(p);
}

/// Where no frame is complete, nothing is read and every byte is left over.
pub proof fn law_incomplete_frame_is_left_over(buf: Seq<u8>)
    requires
        first_frame(buf) is None,
    ensures
        scan(buf).messages.len() == 0,
        scan(buf).rest == buf,
{
}

/// Watchers are told of a message each for itself: what comes of two lists of them is what comes of
/// the one and then of the other.
pub proof fn law_watchers_are_told_each_for_itself<T>(
    a: Seq<WatcherView<T>>,
    b: Seq<WatcherView<T>>,
    msg: TelemetryView,
)
    ensures
        kept(a + b, msg) == kept(a, msg) + kept(b, msg),
        ended(a + b, msg) == ended(a, msg) + ended(b, msg),
    decreases b.len(),
{
    if b.len() == 0 {
        assert(a + b =~= a);
        assert(kept(a, msg) + kept(b, msg) =~= kept(a, msg));
        assert(ended(a, msg) + ended(b, msg) =~= ended(a, msg));
    } else {
        law_watchers_are_told_each_for_itself(a, b.drop_last(), msg);
        assert((a + b).drop_last() =~= a + b.drop_last());
        assert(kept(a + b, msg) =~= kept(a, msg) + kept(b, msg));
        assert(ended(a + b, msg) =~= ended(a, msg) + ended(b, msg));
    }
}

/// A watcher that the message ends gives out its promise and is gone. Any other goes on, as its watch
/// then is, with its promise, and gives out nothing.
pub proof fn law_watcher_ends_or_goes_on<T>(w: WatcherView<T>, msg: TelemetryView)
    ensures
        w.watch.ends_with(msg) ==> kept(seq![w], msg).len() == 0 && ended(seq![w], msg) == seq![
            w.promise,
        ],
        !w.watch.ends_with(msg) ==> {
            &&& ended(seq![w], msg).len() == 0
            &&& kept(seq![w], msg).len() == 1
            &&& kept(seq![w], msg)[0].watch == w.watch.after(msg)
            &&& kept(seq![w], msg)[0].promise == w.promise
        },
{
    let ws = seq![w];
    reveal_with_fuel(kept, 2);
    reveal_with_fuel(ended, 2);
    assert(ws.drop_last() =~= seq![]);
    assert(ended(ws.drop_last(), msg) =~= seq![]);
    assert(ended(ws, msg) =~= (if w.watch.ends_with(msg) {
        seq![w.promise]
    } else {
        seq![]
    }));
}

/// A watcher that cannot take account of a message is a fault. Those before it have been told, and
/// what they give out is given out; it is gone with those behind it.
pub proof fn law_fault_comes_behind_the_watchers_told<T>(
    told: Seq<WatcherView<T>>,
    w: WatcherView<T>,
    behind: Seq<WatcherView<T>>,
    msg: TelemetryView,
)
    requires
        forall|i: int| 0 <= i < told.len() ==> (#[trigger] told[i]).watch.accepts(msg),
        !w.watch.accepts(msg),
    ensures
        ({
            let d = dispatched(told + seq![w] + behind, msg);
            &&& d.fault
            &&& d.forward == RxView::RxMessage(msg)
            &&& d.completed == ended(told, msg)
            &&& left(told + seq![w] + behind, msg) == kept(told, msg)
        }),
{
    let all = told + seq![w] + behind;
    let n = accepting(all, msg);
    lemma_accepting(all, msg);
    if n < told.len() {
        assert(all[n] == told[n]);
    }
    if n > told.len() {
        assert(all.take(n)[told.len() as int] == w);
        assert(all.take(n)[told.len() as int].watch.accepts(msg));
    }
    assert(all.take(n) =~= told);
}

/// A message that every watcher can take account of is no fault, and is handed on as it is.
pub proof fn law_no_fault_without_refusal<T>(ws: Seq<WatcherView<T>>, msg: TelemetryView)
    requires
        forall|i: int| 0 <= i < ws.len() ==> (#[trigger] ws[i]).watch.accepts(msg),
    ensures
        !dispatched(ws, msg).fault,
        dispatched(ws, msg).forward == RxView::RxMessage(msg),
        dispatched(ws, msg).completed == ended(ws, msg),
        left(ws, msg) == kept(ws, msg),
{
    law_accepted_message_reaches_all(ws, msg);
}

/// One message gives one dispatch, and no message none.
pub proof fn law_run_of_one_message<T>(ws: Seq<WatcherView<T>>, msg: TelemetryView)
    ensures
        run(ws, seq![msg]).dispatches == seq![dispatched(ws, msg)],
        run(ws, seq![msg]).watchers == left(ws, msg),
        run(ws, seq![msg]).fault() <==> dispatched(ws, msg).fault,
        run(ws, seq![]).dispatches.len() == 0,
        run(ws, seq![]).watchers == ws,
        !run(ws, seq![]).fault(),
{
    reveal_with_fuel(run, 2);
    assert(seq![msg].drop_last() =~= seq![]);
    assert(run(ws, seq![msg]).dispatches =~= seq![dispatched(ws, msg)]);
}

/// What comes of bytes is what comes of the messages in the bytes left over before and in them, for
/// the watchers that there are; and what is left over of them is kept.
pub proof fn law_bytes_are_read_behind_those_left_over<T>(h: HandlerView<T>, input: Seq<u8>)
    ensures
        h.reception(input).dispatches == run(h.watchers, scan(h.buf + input).messages).dispatches,
        h.after_input(input).watchers == run(h.watchers, scan(h.buf + input).messages).watchers,
        h.after_input(input).buf == scan(h.buf + input).rest,
{
}

/// A watcher is registered behind the others. No other request changes the handler.
pub proof fn law_watcher_is_registered_last<T>(h: HandlerView<T>, request: TxView<T>)
    ensures
        h.after_request(request).buf == h.buf,
        request matches TxView::TxWatcher(w) ==> h.after_request(request).watchers
            == h.watchers + seq![w],
        !(request is TxWatcher) ==> h.after_request(request).watchers == h.watchers,
{
    if let TxView::TxWatcher(w) = request {
        assert(h.watchers.push(w) =~= h.watchers + seq![w]);
    }
}

/// Bytes to be sent are written as they are, and a cork is answered with one.
pub proof fn law_requests_are_carried_out<T>(bytes: Seq<u8>, w: WatcherView<T>)
    ensures
        TxView::<T>::TxMessage(bytes).action() == ActionView::Write(bytes),
        TxView::TxWatcher(w).action() == ActionView::Nothing,
        TxView::<T>::TxCork.action() == ActionView::Cork(RxView::RxCork),
        TxView::<T>::TxUncork.action() == ActionView::Uncork,
{
}

/// What is said of a handler, of what it hands on and of what is asked of it is what they hold.
pub proof fn law_handler_views_hold_the_fields<T>(
    h: DkHandler<T>,
    dispatches: Seq<Dispatch<T>>,
    rx: DkHandlerRx,
    tx: DkHandlerMessage<T>,
    action: HandlerAction,
    i: int,
)
    ensures
        h@.buf == h.buf@,
        h@.watchers.len() == h.watchers@.len(),
        0 <= i < h.watchers@.len() ==> h@.watchers[i] == h.watchers@[i]@,
        dispatch_views(dispatches).len() == dispatches.len(),
        0 <= i < dispatches.len() ==> {
            let d = dispatch_views(dispatches)[i];
            &&& d.forward == dispatches[i].forward@
            &&& d.completed == dispatches[i].completed@
            &&& d.fault == dispatches[i].fault
        },
        rx is RxCork <==> rx@ is RxCork,
        rx matches DkHandlerRx::RxMessage(m) ==> rx@ == RxView::RxMessage(m@),
        tx matches DkHandlerMessage::TxMessage(bytes) ==> tx@ == TxView::<T>::TxMessage(bytes@),
        tx matches DkHandlerMessage::TxWatcher(w) ==> tx@ == TxView::TxWatcher(w@),
        tx is TxCork <==> tx@ is TxCork,
        tx is TxUncork <==> tx@ is TxUncork,
        action matches HandlerAction::Write(bytes) ==> action@ == ActionView::Write(bytes@),
        action matches HandlerAction::Cork(rx) ==> action@ == ActionView::Cork(rx@),
        action is Nothing <==> action@ is Nothing,
        action is Uncork <==> action@ is Uncork,
{
}

} // verus!
