//! The parameters of a vehicle, as far as it has reported them.
use vstd::hash_map::StringHashMap;
use vstd::prelude::*;

use crate::bits;
use crate::connection;
use crate::connection::ConnectionView;
use crate::connection::VehicleConnection;
use crate::handler;
use crate::handler::DispatchView;
use crate::handler::DkHandlerMessage;
use crate::handler::HandlerView;
use crate::handler::RxView;
use crate::handler::TxView;
use crate::message;
use crate::message::Command;
use crate::message::CommandView;
use crate::message::TelemetryView;
use crate::message::UNLISTED_INDEX;
use crate::packet::PacketView;
use crate::text;
use crate::watcher::Watch;
use crate::watcher::WatchView;
use crate::watcher::Watcher;
use crate::watcher::WatcherView;

verus! {

/// The parameters: the last reported value of each name, and which name stands at which place of
/// the vehicle's numbered list.
pub struct Parameters {
    values: StringHashMap<u32>,
    indexes: Vec<Option<String>>,
}

/// What [`Parameters`] hold.
pub struct ParametersView {
    pub values: Map<Seq<char>, u32>,
    pub indexes: Seq<Option<Seq<char>>>,
}

/// The text at a place of the list, if there is one.
pub open spec fn text_at(place: Option<String>) -> Option<Seq<char>> {
    match place {
        Some(name) => Some(name@),
        None => None,
    }
}

impl View for Parameters {
    type V = ParametersView;

    closed spec fn view(&self) -> ParametersView {
        ParametersView {
            values: self.values@,
            indexes: self.indexes@.map_values(|x: Option<String>| text_at(x)),
        }
    }
}

/// How many places of a list are filled.
pub open spec fn filled_count(places: Seq<Option<Seq<char>>>) -> nat
    decreases places.len(),
{
    if places.len() == 0 {
        0
    } else {
        filled_count(places.drop_last()) + if places.last() is Some {
            1nat
        } else {
            0nat
        }
    }
}

impl ParametersView {
    /// Nothing reported yet.
    pub open spec fn nothing() -> ParametersView {
        ParametersView { values: Map::empty(), indexes: seq![] }
    }

    /// The list is no longer than a vehicle can number it, and every name in it has a value.
    pub open spec fn wf(self) -> bool {
        &&& self.indexes.len() <= u16::MAX
        &&& forall|i: int|
            0 <= i < self.indexes.len() && (#[trigger] self.indexes[i]) is Some
                ==> self.values.contains_key(self.indexes[i]->0)
    }

    /// The parameters once the list is known to have `len` places: if it had another number of them,
    /// everything is forgotten.
    pub open spec fn resized(self, len: u16) -> ParametersView {
        if self.indexes.len() == len {
            self
        } else {
            ParametersView { values: Map::empty(), indexes: Seq::new(len as nat, |i: int| None) }
        }
    }

    /// The parameters after a value was reported, at a place of the list or outside of it.
    pub open spec fn assigned(self, index: u16, name: Seq<char>, value: u32) -> ParametersView {
        ParametersView {
            values: self.values.insert(name, value),
            indexes: if index == UNLISTED_INDEX {
                self.indexes
            } else {
                self.indexes.update(index as int, Some(name))
            },
        }
    }

    /// The parameters after a message.
    pub open spec fn after(self, msg: TelemetryView) -> ParametersView {
        match msg {
            TelemetryView::ParamValue { value, count, index, id } => self.resized(count).assigned(
                index,
                text::text_of(id),
                value,
            ),
            _ => self,
        }
    }

    /// Which places of the list are filled.
    pub open spec fn flags(self) -> Seq<bool> {
        self.indexes.map_values(|x: Option<Seq<char>>| x is Some)
    }

    /// Whether the list is known and every place of it is filled.
    pub open spec fn complete(self) -> bool {
        self.indexes.len() > 0 && bits::all_set(self.flags())
    }
}

/// The connection after a parameter was set: a watcher for the vehicle's answer is registered, and
/// the new value is sent.
pub open spec fn after_set<T>(
    conn: ConnectionView<T>,
    name: Seq<char>,
    value: u32,
    promise: T,
) -> ConnectionView<T> {
    conn.requesting(
        TxView::TxWatcher(WatcherView { watch: WatchView::Value { name, value }, promise }),
    ).after_send(
        CommandView::ParamSet {
            param_value: value,
            target_system: 0,
            target_component: 0,
            param_id: text::param_id_of(name),
            param_type: 0,
        },
    )
}

/// What comes of waiting for the list to be complete.
pub enum Completion<T> {
    /// It is, and the promise is to be kept.
    Done(T),
    /// It is not. The handler was asked to stop reading; once it has, the watcher is to be given to
    /// [`VehicleConnection::resume`].
    Pending(Watcher<T>),
}

impl Parameters {
    /// No parameters.
    pub fn new() -> (r: Parameters)
        ensures
            r@ == ParametersView::nothing(),
            r@.wf(),
    {
        let r: Parameters = Parameters { values: StringHashMap::new(), indexes: Vec::new() };
        assert(r@.indexes =~= seq![]);
        r
    }

    /// Takes account of the length of the list. If it is another one than before, everything is
    /// forgotten.
    pub fn resize(&mut self, len: u16)
        ensures
            final(self)@ == old(self)@.resized(len),
            old(self)@.wf() ==> final(self)@.wf(),
    {
        if self.indexes.len() != len as usize {
            self.values = StringHashMap::new();
            let mut indexes: Vec<Option<String>> = Vec::new();
            let mut i: u16 = 0;
            while i < len
                invariant
                    i <= len,
                    indexes@ == Seq::new(i as nat, |k: int| None::<String>),
                decreases len - i,
            {
                indexes.push(None);
                i = i + 1;
            }
            self.indexes = indexes;
            assert(self@.indexes =~= old(self)@.resized(len).indexes);
        }
    }

    /// Takes account of a value reported at a place of the list, or outside of it.
    pub fn assign(&mut self, index: u16, name: &str, value: u32)
        requires
            index == UNLISTED_INDEX || index < old(self)@.indexes.len(),
        ensures
            final(self)@ == old(self)@.assigned(index, name@, value),
            old(self)@.wf() ==> final(self)@.wf(),
    {
        self.values.insert(name.to_owned(), value);
        if index != UNLISTED_INDEX {
            self.indexes.set(index as usize, Some(name.to_owned()));
        }
        assert(self@.indexes =~= old(self)@.assigned(index, name@, value).indexes);
        assert(old(self)@.wf() ==> self@.wf()) by {
            assert forall|i: int|
                old(self)@.wf() && 0 <= i < self@.indexes.len() && (
                #[trigger] self@.indexes[i]) is Some implies self@.values.contains_key(
                self@.indexes[i]->0,
            ) by {
                if i != index {
                    assert(old(self)@.indexes[i] == self@.indexes[i]);
                }
            }
        }
    }

    /// The last reported value of the parameter, if there is one.
    pub fn get(&self, name: &str) -> (r: Option<&u32>)
        ensures
            match r {
                Some(value) => self@.values.contains_key(name@) && *value == self@.values[name@],
                None => !self@.values.contains_key(name@),
            },
    {
        self.values.get(name)
    }

    /// Sets a parameter. The promise is to be kept once the vehicle reports the parameter with this
    /// value.
    pub fn set<T>(&mut self, conn: &mut VehicleConnection<T>, name: &str, value: u32, promise: T)
        ensures
            *final(self) == *old(self),
            final(conn)@ == after_set(old(conn)@, name@, value, promise),
    {
        let watch: Watch = Watch::Value { name: name.to_owned(), value };
        conn.request(DkHandlerMessage::TxWatcher(Watcher { watch, promise }));
        conn.send(
            Command::ParamSet {
                param_value: value,
                target_system: 0,
                target_component: 0,
                param_id: text::encode_param_id(name),
                param_type: 0,
            },
        );
    }

    /// Which places of the list are filled.
    fn flags(&self) -> (r: Vec<bool>)
        ensures
            r@ == self@.flags(),
    {
        let mut r: Vec<bool> = Vec::new();
        let mut i: usize = 0;
        while i < self.indexes.len()
            invariant
                i <= self.indexes@.len(),
                r@ == self@.flags().take(i as int),
            decreases self.indexes.len() - i,
        {
            r.push(self.indexes[i].is_some());
            i = i + 1;
            assert(r@ =~= self@.flags().take(i as int));
        }
        assert(r@ =~= self@.flags());
        r
    }

    /// Waits for the list to be complete. If it is not, the handler is asked to stop reading, so that
    /// no message is missed before a watcher is registered.
    pub fn complete<T>(&self, conn: &mut VehicleConnection<T>, promise: T) -> (r: Completion<T>)
        ensures
            self@.complete() ==> r == Completion::Done(promise) && final(conn)@ == old(conn)@,
            !self@.complete() ==> {
                &&& r matches Completion::Pending(w)
                &&& w@ == (WatcherView {
                    watch: WatchView::List { filled: self@.flags() },
                    promise,
                })
                &&& final(conn)@ == old(conn)@.requesting(TxView::TxCork)
            },
    {
        let filled = bits::from_flags(&self.flags());
        if self.indexes.len() > 0 && bits::all(&filled) {
            Completion::Done(promise)
        } else {
            conn.cork();
            Completion::Pending(Watcher { watch: Watch::List { filled }, promise })
        }
    }

    /// How many places of the list are filled.
    pub fn remaining(&self) -> (r: usize)
        ensures
            r == filled_count(self@.indexes),
    {
        self.available()
    }

    /// How many places of the list are filled.
    pub fn available(&self) -> (r: usize)
        ensures
            r == filled_count(self@.indexes),
    {
        let mut n: usize = 0;
        let mut i: usize = 0;
        assert(self@.indexes.take(0) =~= seq![]);
        while i < self.indexes.len()
            invariant
                n <= i <= self.indexes@.len(),
                self@.indexes.len() == self.indexes@.len(),
                n == filled_count(self@.indexes.take(i as int)),
            decreases self.indexes.len() - i,
        {
            assert(self@.indexes.take(i + 1).drop_last() =~= self@.indexes.take(i as int));
            if self.indexes[i].is_some() {
                n = n + 1;
            }
            i = i + 1;
        }
        assert(self@.indexes.take(i as int) =~= self@.indexes);
        n
    }
}

/// What was last reported of a name is what is known of it, and nothing else known has changed,
/// unless the length of the list has.
pub proof fn law_last_report_is_known(
    p: ParametersView,
    value: u32,
    count: u16,
    index: u16,
    id: Seq<u8>,
    other: Seq<char>,
)
    requires
        index == UNLISTED_INDEX || index < count,
        other != text::text_of(id),
    ensures
        ({
            let after = p.after(TelemetryView::ParamValue { value, count, index, id });
            &&& after.values.contains_key(text::text_of(id))
            &&& after.values[text::text_of(id)] == value
            &&& after.values.contains_key(other) == (p.indexes.len() == count
                && p.values.contains_key(other))
            &&& after.values.contains_key(other) ==> after.values[other] == p.values[other]
            &&& after.indexes.len() == count
        }),
{
}

/// Messages keep the list within bounds, and every name in it with a value.
pub proof fn law_messages_keep_wf(p: ParametersView, msg: TelemetryView)
    requires
        p.wf(),
        msg.in_range(),
    ensures
        p.after(msg).wf(),
{
    if let TelemetryView::ParamValue { value, count, index, id } = msg {
        let sized = p.resized(count);
        let after = p.after(msg);
        assert forall|i: int|
            0 <= i < after.indexes.len() && (
            #[trigger] after.indexes[i]) is Some implies after.values.contains_key(
            after.indexes[i]->0,
        ) by {
            if i != index {
                assert(after.indexes[i] == sized.indexes[i]);
            }
        }
    }
}

/// No more places are filled than there are, and all of them are if and only if their number says
/// so.
pub proof fn law_available_counts(places: Seq<Option<Seq<char>>>)
    ensures
        filled_count(places) <= places.len(),
        filled_count(places) == places.len() <==> (forall|i: int|
            0 <= i < places.len() ==> (#[trigger] places[i]) is Some),
    decreases places.len(),
{
    if places.len() > 0 {
        let init = places.drop_last();
        law_available_counts(init);
        assert(forall|i: int| 0 <= i < init.len() ==> init[i] == places[i]);
        if forall|i: int| 0 <= i < places.len() ==> (#[trigger] places[i]) is Some {
            assert forall|i: int| 0 <= i < init.len() implies (#[trigger] init[i]) is Some by {
                assert(places[i] is Some);
            }
        }
        if filled_count(places) == places.len() {
            assert forall|i: int| 0 <= i < places.len() implies (#[trigger] places[i]) is Some by {
                if i < init.len() {
                    assert(init[i] is Some);
                }
            }
        }
    }
}

/// The list is complete if and only if it is known and all its places are counted as filled.
pub proof fn law_complete_is_all_available(p: ParametersView)
    ensures
        p.complete() <==> p.indexes.len() > 0 && filled_count(p.indexes) == p.indexes.len(),
{
    law_available_counts(p.indexes);
    if bits::all_set(p.flags()) {
        assert forall|i: int| 0 <= i < p.indexes.len() implies (#[trigger] p.indexes[i]) is Some by {
            assert(p.flags()[i]);
        }
    }
}

/// The vehicle's echo of a value that was set ends the watcher that waits for it if and only if the
/// name can be sent whole and the value is a number.
pub proof fn law_echo_ends_set(name: Seq<char>, value: u32, count: u16, index: u16)
    ensures
        (WatchView::Value { name, value }).ends_with(
            TelemetryView::ParamValue { value, count, index, id: text::param_id_of(name) },
        ) <==> text::sendable(name) && message::is_number(value),
{
    text::law_param_id_round_trip(name);
}

/// The promise of a value that was set is given out when the vehicle's echo comes, behind those of
/// the watchers registered before it.
pub proof fn law_set_promise_is_kept<T>(
    h: HandlerView<T>,
    name: Seq<char>,
    value: u32,
    promise: T,
    count: u16,
    index: u16,
)
    requires
        text::sendable(name),
        message::is_number(value),
    ensures
        ({
            let watcher = WatcherView { watch: WatchView::Value { name, value }, promise };
            let echo = TelemetryView::ParamValue {
                value,
                count,
                index,
                id: text::param_id_of(name),
            };
            let then = h.after_request(TxView::TxWatcher(watcher));
            &&& handler::ended(then.watchers, echo) == handler::ended(h.watchers, echo).push(
                promise,
            )
            &&& handler::kept(then.watchers, echo) == handler::kept(h.watchers, echo)
        }),
{
    law_echo_ends_set(name, value, count, index);
    let watcher = WatcherView { watch: WatchView::Value { name, value }, promise };
    assert(h.watchers.push(watcher).drop_last() =~= h.watchers);
}

/// From end to end: once a value was set, the packet in which the vehicle reports it makes the handler
/// hand on the report and then give out the promise, behind those of the watchers registered before,
/// whether the report names a place in the list or not. It has to be one that those watchers can take
/// account of.
pub proof fn law_echo_packet_keeps_promise<T>(
    h: HandlerView<T>,
    name: Seq<char>,
    value: u32,
    promise: T,
    p: PacketView,
    count: u16,
    index: u16,
    kind: u8,
)
    requires
        h.buf.len() == 0,
        text::sendable(name),
        message::is_number(value),
        p.intact(),
        p.message_id == message::PARAM_VALUE_ID,
        p.data == message::param_value_payload(value, count, index, text::param_id_of(name), kind),
        handler::all_accept(
            h.watchers,
            TelemetryView::ParamValue { value, count, index, id: text::param_id_of(name) },
        ),
    ensures
        ({
            let watcher = WatcherView { watch: WatchView::Value { name, value }, promise };
            let echo = TelemetryView::ParamValue {
                value,
                count,
                index,
                id: text::param_id_of(name),
            };
            let then = h.after_request(TxView::TxWatcher(watcher));
            &&& then.reception(p.bytes()).dispatches == seq![
                DispatchView {
                    forward: RxView::RxMessage(echo),
                    completed: handler::ended(h.watchers, echo).push(promise),
                    fault: false,
                },
            ]
            &&& then.after_input(p.bytes()) == (HandlerView {
                buf: seq![],
                watchers: handler::kept(h.watchers, echo),
            })
        }),
{
    let id = text::param_id_of(name);
    let watcher = WatcherView { watch: WatchView::Value { name, value }, promise };
    let echo = TelemetryView::ParamValue { value, count, index, id };
    let then = h.after_request(TxView::TxWatcher(watcher));
    message::law_param_value_is_read_back(value, count, index, id, kind);
    handler::law_packet_is_read(p, seq![]);
    handler::lemma_first_start(seq![]);
    assert(p.bytes() + seq![] =~= p.bytes());
    assert(then.buf + p.bytes() =~= p.bytes());
    assert(handler::scan(p.bytes()).messages =~= seq![echo]);
    reveal_with_fuel(handler::run, 2);
    assert(seq![echo].drop_last() =~= seq![]);
    assert(handler::all_accept(then.watchers, echo)) by {
        assert forall|i: int|
            0 <= i < then.watchers.len() implies #[trigger] then.watchers[i].watch.accepts(echo) by {
            if i < h.watchers.len() {
                assert(h.watchers[i].watch.accepts(echo));
            }
        }
    }
    handler::law_accepted_message_reaches_all(then.watchers, echo);
    law_set_promise_is_kept(h, name, value, promise, count, index);
    assert(then.reception(p.bytes()).dispatches =~= seq![
        handler::dispatched(then.watchers, echo),
    ]);
}

/// A watch over the list keeps step with the parameters: if it starts out knowing what they know, it
/// knows after a message what they know then, and ends if and only if they are then complete.
pub proof fn law_list_watch_keeps_step(p: ParametersView, msg: TelemetryView)
    requires
        msg.listed(),
    ensures
        (WatchView::List { filled: p.flags() }).after(msg) == (WatchView::List {
            filled: p.after(msg).flags(),
        }),
        (WatchView::List { filled: p.flags() }).ends_with(msg) <==> msg is ParamValue && p.after(
            msg,
        ).complete(),
{
    if let TelemetryView::ParamValue { value, count, index, id } = msg {
        let watch = (WatchView::List { filled: p.flags() }).after(msg);
        assert(watch->filled =~= p.after(msg).flags());
    }
}

/// The parameters after several messages.
pub open spec fn after_all(p: ParametersView, msgs: Seq<TelemetryView>) -> ParametersView
    decreases msgs.len(),
{
    if msgs.len() == 0 {
        p
    } else {
        after_all(p.after(msgs[0]), msgs.skip(1))
    }
}

/// The promise to tell when the list is complete is kept at the first message that makes it so. Until
/// then the watcher knows of the list what the parameters know.
pub proof fn law_complete_is_told_in_time(p: ParametersView, msgs: Seq<TelemetryView>)
    requires
        !p.complete(),
        forall|i: int| 0 <= i < msgs.len() ==> (#[trigger] msgs[i]).listed(),
    ensures
        connection::replay(WatchView::List { filled: p.flags() }, msgs) is Ended <==> (exists|n: int|
            0 <= n <= msgs.len() && (#[trigger] after_all(p, msgs.take(n))).complete()),
        !(connection::replay(WatchView::List { filled: p.flags() }, msgs) is Ended)
            ==> connection::replay(WatchView::List { filled: p.flags() }, msgs)
            == connection::Replay::Open(WatchView::List { filled: after_all(p, msgs).flags() }),
    decreases msgs.len(),
{
    let watch = WatchView::List { filled: p.flags() };
    if msgs.len() == 0 {
        assert(forall|n: int| 0 <= n <= msgs.len() ==> #[trigger] msgs.take(n) =~= msgs);
    } else {
        let msg = msgs[0];
        let rest = msgs.skip(1);
        let then = p.after(msg);
        law_list_watch_keeps_step(p, msg);
        assert forall|n: int| 1 <= n <= msgs.len() implies #[trigger] after_all(p, msgs.take(n))
            == after_all(then, rest.take(n - 1)) by {
            assert(msgs.take(n).skip(1) =~= rest.take(n - 1));
        }
        assert(msgs.take(0) =~= seq![]);
        assert(rest.take(0) =~= seq![]);
        if then.complete() {
            assert(msg is ParamValue);
            assert(after_all(p, msgs.take(1)) == after_all(then, rest.take(0)));
            assert(after_all(p, msgs.take(1)).complete());
        } else {
            assert forall|i: int| 0 <= i < rest.len() implies (#[trigger] rest[i]).listed() by {
                assert(msgs[i + 1].listed());
            }
            law_complete_is_told_in_time(then, rest);
            if connection::replay(watch, msgs) is Ended {
                let m = choose|m: int|
                    0 <= m <= rest.len() && (#[trigger] after_all(then, rest.take(m))).complete();
                assert(after_all(p, msgs.take(m + 1)).complete());
            }
            if exists|n: int|
                0 <= n <= msgs.len() && (#[trigger] after_all(p, msgs.take(n))).complete() {
                let n = choose|n: int|
                    0 <= n <= msgs.len() && (#[trigger] after_all(p, msgs.take(n))).complete();
                assert(n > 0);
                assert(after_all(then, rest.take(n - 1)).complete());
            }
        }
    }
}

/// The report of a place fills that very place with the name reported, and leaves every other place of
/// the list as it was; with another length of the list the others are empty. A report outside of the
/// list fills none.
pub proof fn law_report_fills_its_place(
    p: ParametersView,
    value: u32,
    count: u16,
    index: u16,
    id: Seq<u8>,
    i: int,
)
    requires
        index < count || index == 65535,
        0 <= i < count,
    ensures
        ({
            let after = p.after(TelemetryView::ParamValue { value, count, index, id });
            let before = if p.indexes.len() == count {
                p.indexes[i]
            } else {
                None
            };
            &&& after.indexes.len() == count
            &&& i == index && index != 65535 ==> after.indexes[i] == Some(text::text_of(id))
            &&& i != index || index == 65535 ==> after.indexes[i] == before
            &&& after.values.contains_key(text::text_of(id))
            &&& after.values[text::text_of(id)] == value
        }),
{
}

/// Another length of the list forgets everything. The same length changes nothing.
pub proof fn law_length_forgets_or_keeps(p: ParametersView, len: u16, name: Seq<char>, i: int)
    ensures
        p.indexes.len() == len ==> p.resized(len) == p,
        p.indexes.len() != len ==> {
            let q = p.resized(len);
            &&& q.indexes.len() == len
            &&& 0 <= i < len ==> q.indexes[i] is None
            &&& !q.values.contains_key(name)
        },
{
}

/// To assign a value makes it known under its name and leaves every other name as it was. It fills the
/// place given and no other, or none with index 65535.
pub proof fn law_assignment_is_to_one_name_and_place(
    p: ParametersView,
    index: u16,
    name: Seq<char>,
    value: u32,
    other: Seq<char>,
    i: int,
)
    requires
        index < p.indexes.len() || index == 65535,
        0 <= i < p.indexes.len(),
    ensures
        ({
            let q = p.assigned(index, name, value);
            &&& q.values.contains_key(name)
            &&& q.values[name] == value
            &&& other != name ==> q.values.contains_key(other) == p.values.contains_key(other)
            &&& other != name && p.values.contains_key(other) ==> q.values[other]
                == p.values[other]
            &&& q.indexes.len() == p.indexes.len()
            &&& q.indexes[i] == (if i == index && index != 65535 {
                Some(name)
            } else {
                p.indexes[i]
            })
        }),
{
}

/// Messages other than reports change no parameter.
pub proof fn law_reports_alone_change_parameters(p: ParametersView, msg: TelemetryView)
    ensures
        !(msg is ParamValue) ==> p.after(msg) == p,
{
}

/// Every place that is filled counts, and no other does.
pub proof fn law_filled_places_are_counted(places: Seq<Option<Seq<char>>>, name: Seq<char>)
    ensures
        filled_count(seq![]) == 0,
        filled_count(places.push(Some(name))) == filled_count(places) + 1,
        filled_count(places.push(None)) == filled_count(places),
{
    assert(places.push(Some(name)).drop_last() =~= places);
    assert(places.push(None::<Seq<char>>).drop_last() =~= places);
}

/// The list is complete if and only if it has places and each of them holds a name; and the flags tell
/// of each place whether it does.
pub proof fn law_complete_is_every_place_filled(p: ParametersView)
    ensures
        p.flags().len() == p.indexes.len(),
        forall|i: int| 0 <= i < p.indexes.len() ==> #[trigger] p.flags()[i] == (p.indexes[i] is Some),
        p.complete() <==> p.indexes.len() > 0 && (forall|i: int|
            0 <= i < p.indexes.len() ==> (#[trigger] p.indexes[i]) is Some),
{
    if bits::all_set(p.flags()) {
        assert forall|i: int| 0 <= i < p.indexes.len() implies (#[trigger] p.indexes[i]) is Some by {
            assert(p.flags()[i]);
        }
    }
}

/// Whether every report among messages is of a place in a list of this length.
pub open spec fn reports_of(msgs: Seq<TelemetryView>, count: u16) -> bool {
    forall|i: int|
        0 <= i < msgs.len() ==> ((#[trigger] msgs[i]) matches TelemetryView::ParamValue {
            count: c,
            index,
            ..
        } ==> c == count && index < count)
}

/// A place that is filled stays filled.
proof fn lemma_place_stays_filled(
    p: ParametersView,
    msgs: Seq<TelemetryView>,
    count: u16,
    place: int,
)
    requires
        reports_of(msgs, count),
        p.indexes.len() == count,
        0 <= place < count,
        p.indexes[place] is Some,
    ensures
        after_all(p, msgs).indexes.len() == count,
        after_all(p, msgs).indexes[place] is Some,
    decreases msgs.len(),
{
    if msgs.len() > 0 {
        let msg = msgs[0];
        let rest = msgs.skip(1);
        assert forall|i: int| 0 <= i < rest.len() implies ((
        #[trigger] rest[i]) matches TelemetryView::ParamValue { count: c, index, .. } ==> c == count
            && index < count) by {
            assert(rest[i] == msgs[i + 1]);
        }
        if let TelemetryView::ParamValue { value, count: c, index, id } = msg {
            assert(msgs[0] is ParamValue);
            law_report_fills_its_place(p, value, c, index, id, place);
        }
        lemma_place_stays_filled(p.after(msg), rest, count, place);
    }
}

/// A place that is reported is filled from then on.
proof fn lemma_reported_place_is_filled(
    p: ParametersView,
    msgs: Seq<TelemetryView>,
    count: u16,
    at: int,
)
    requires
        reports_of(msgs, count),
        0 <= at < msgs.len(),
        msgs[at] is ParamValue,
    ensures
        after_all(p, msgs).indexes.len() == count,
        after_all(p, msgs).indexes[msgs[at]->index as int] is Some,
    decreases msgs.len(),
{
    let msg = msgs[0];
    let rest = msgs.skip(1);
    assert forall|i: int| 0 <= i < rest.len() implies ((
    #[trigger] rest[i]) matches TelemetryView::ParamValue { count: c, index, .. } ==> c == count
        && index < count) by {
        assert(rest[i] == msgs[i + 1]);
    }
    if at == 0 {
        if let TelemetryView::ParamValue { value, count: c, index, id } = msg {
            law_report_fills_its_place(p, value, c, index, id, index as int);
            lemma_place_stays_filled(p.after(msg), rest, count, index as int);
        }
    } else {
        assert(rest[at - 1] == msgs[at]);
        lemma_reported_place_is_filled(p.after(msg), rest, count, at - 1);
    }
}

/// Once every place of a list has been reported, in whatever order and whatever else came between, all
/// places count as filled, the list is complete, and a watcher that was registered before has ended.
pub proof fn law_whole_list_reported_is_complete(
    p: ParametersView,
    msgs: Seq<TelemetryView>,
    count: u16,
)
    requires
        count > 0,
        reports_of(msgs, count),
        forall|place: int|
            0 <= place < count ==> exists|i: int|
                0 <= i < msgs.len() && (#[trigger] msgs[i]) is ParamValue && msgs[i]->index
                    == #[trigger] (place as u16),
    ensures
        after_all(p, msgs).complete(),
        filled_count(after_all(p, msgs).indexes) == count,
        !p.complete() ==> connection::replay(WatchView::List { filled: p.flags() }, msgs) is Ended,
{
    let q = after_all(p, msgs);
    assert forall|place: int| 0 <= place < count implies q.indexes.len() == count && (
    #[trigger] q.indexes[place]) is Some by {
        let n = place as u16;
        let i = choose|i: int|
            0 <= i < msgs.len() && (#[trigger] msgs[i]) is ParamValue && msgs[i]->index == n;
        lemma_reported_place_is_filled(p, msgs, count, i);
    }
    assert(q.indexes[0] is Some);
    law_complete_is_every_place_filled(q);
    law_complete_is_all_available(q);
    if !p.complete() {
        assert forall|i: int| 0 <= i < msgs.len() implies (#[trigger] msgs[i]).listed() by {}
        law_complete_is_told_in_time(p, msgs);
        assert(msgs.take(msgs.len() as int) =~= msgs);
        assert(after_all(p, msgs.take(msgs.len() as int)).complete());
    }
}

/// To set a parameter registers a watcher with the promise given, and then sends an intact packet that
/// carries the value and the name as they were given. A vehicle that reports the value and the name in
/// that packet ends the watcher, for every name that can be sent whole and every number.
pub proof fn law_set_sends_what_was_set<T>(
    c: ConnectionView<T>,
    name: Seq<char>,
    value: u32,
    promise: T,
    count: u16,
    index: u16,
)
    ensures
        ({
            let after = after_set(c, name, value, promise);
            let n = c.outbox.len() as int;
            &&& after.outbox.len() == n + 2
            &&& after.outbox.take(n) == c.outbox
            &&& after.buffer == c.buffer
            &&& after.started == c.started
            &&& after.outbox[n] matches TxView::TxWatcher(w)
            &&& w.promise == promise
            &&& after.outbox[n + 1] matches TxView::TxMessage(bytes)
            &&& {
                let p = PacketView::of_bytes(bytes);
                let d = p.data;
                &&& p.intact()
                &&& p.bytes() == bytes
                &&& p.seq == c.msg_id
                &&& p.message_id == 23
                &&& d.len() == 23
                &&& d[0] as int + 256 * (d[1] as int) + 65536 * (d[2] as int) + 16777216 * (
                d[3] as int) == value
                &&& d[4] == 0 && d[5] == 0 && d[22] == 0
                &&& forall|i: int|
                    0 <= i < 16 ==> (if i < name.len() {
                        (name[i] as int - (#[trigger] d[6 + i]) as int) % 256 == 0
                    } else {
                        d[6 + i] == 0
                    })
                &&& w.watch.ends_with(
                    TelemetryView::ParamValue {
                        value: message::u32_at(d, 0),
                        count,
                        index,
                        id: d.subrange(6, 22),
                    },
                ) <==> text::sendable(name) && message::is_number(value)
            }
        }),
{
    let after = after_set(c, name, value, promise);
    let n = c.outbox.len() as int;
    let command = CommandView::ParamSet {
        param_value: value,
        target_system: 0,
        target_component: 0,
        param_id: text::param_id_of(name),
        param_type: 0,
    };
    let p = connection::packet_for(c.msg_id, command);
    let d = p.data;
    assert(after.outbox.take(n) =~= c.outbox);
    crate::packet::law_new_inverts_encode(p);
    assert(PacketView::of_bytes(p.bytes()) == p);
    message::law_payload_holds_the_fields(command);
    assert(d.subrange(6, 22) == text::param_id_of(name));
    assert forall|i: int| 0 <= i < 16 implies (if i < name.len() {
        (name[i] as int - (#[trigger] d[6 + i]) as int) % 256 == 0
    } else {
        d[6 + i] == 0
    }) by {
        assert(d.subrange(6, 22)[i] == d[6 + i]);
        text::law_param_id_tells_the_name(name, i);
    }
    law_echo_ends_set(name, value, count, index);
}

/// What is said of parameters is what they hold.
pub proof fn law_parameters_view_holds_the_fields(p: Parameters, i: int)
    ensures
        p@.values == p.values_held(),
        p@.indexes.len() == p.names_held().len(),
        0 <= i < p.names_held().len() ==> {
            &&& p.names_held()[i] matches Some(name) ==> p@.indexes[i] == Some(name@)
            &&& p.names_held()[i] is None ==> p@.indexes[i] is None
        },
{
}

impl Parameters {
    /// The values held.
    pub closed spec fn values_held(self) -> Map<Seq<char>, u32> {
        self.values@
    }

    /// The names held, by their places.
    pub closed spec fn names_held(self) -> Seq<Option<String>> {
        self.indexes@
    }
}

} // verus!
