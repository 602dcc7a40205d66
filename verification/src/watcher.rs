//! Watchers: what waits for the vehicle to report something, and how it is told that it has.
use vstd::prelude::*;

use bit_vec::BitVec;

use crate::bits;
use crate::message;
use crate::message::Telemetry;
use crate::message::TelemetryView;
use crate::text;

verus! {

/// What a watcher waits for.
pub enum Watch {
    /// A parameter of this name, reported with this value.
    Value { name: String, value: u32 },
    /// A value of every parameter in the numbered list. The bits tell which ones have come.
    List { filled: BitVec<u32> },
}

/// What a [`Watch`] waits for.
pub enum WatchView {
    Value { name: Seq<char>, value: u32 },
    List { filled: Seq<bool> },
}

impl View for Watch {
    type V = WatchView;

    open spec fn view(&self) -> WatchView {
        match self {
            Watch::Value { name, value } => WatchView::Value { name: name@, value: *value },
            Watch::List { filled } => WatchView::List { filled: bits::bits_of(*filled) },
        }
    }
}

impl WatchView {
    /// Whether the message can be taken account of: a parameter value that names no place in the
    /// list cannot, by a watch over the whole list.
    pub open spec fn accepts(self, msg: TelemetryView) -> bool {
        self is List ==> msg.listed()
    }

    /// The watch after the message.
    pub open spec fn after(self, msg: TelemetryView) -> WatchView {
        match (self, msg) {
            (
                WatchView::List { filled },
                TelemetryView::ParamValue { count, index, .. },
            ) => {
                let sized = if filled.len() == count {
                    filled
                } else {
                    Seq::new(count as nat, |i: int| false)
                };
                WatchView::List { filled: sized.update(index as int, true) }
            },
            _ => self,
        }
    }

    /// Whether the message is what the watch waited for.
    pub open spec fn ends_with(self, msg: TelemetryView) -> bool {
        match (self, msg) {
            (
                WatchView::Value { name, value },
                TelemetryView::ParamValue { value: reported, id, .. },
            ) => text::text_of(id) == name && message::equal_values(reported, value),
            (WatchView::List { .. }, TelemetryView::ParamValue { .. }) => bits::all_set(
                self.after(msg)->filled,
            ),
            _ => false,
        }
    }
}

impl Watch {
    /// See [`WatchView::accepts`].
    pub fn accepts(&self, msg: &Telemetry) -> (r: bool)
        ensures
            r == self@.accepts(msg@),
    {
        match self {
            Watch::Value { .. } => true,
            Watch::List { .. } => msg.listed(),
        }
    }

    /// Takes account of a message. The result is whether to go on watching.
    pub fn watch(&mut self, msg: &Telemetry) -> (keep: bool)
        requires
            old(self)@.accepts(msg@),
        ensures
            final(self)@ == old(self)@.after(msg@),
            keep == !old(self)@.ends_with(msg@),
    {
        match msg {
            Telemetry::ParamValue { value: reported, count, index, id } => {
                match self {
                    Watch::Value { name, value } => {
                        let reported_name: String = text::parse_mavlink_string(id.as_slice());
                        !(text::same_text(reported_name.as_str(), name.as_str())
                            && message::same_value(*reported, *value))
                    },
                    Watch::List { filled } => {
                        if bits::len(filled) != *count as usize {
                            *filled = bits::from_elem(*count as usize, false);
                        }
                        bits::set(filled, *index as usize, true);
                        !bits::all(filled)
                    },
                }
            },
            _ => true,
        }
    }
}

/// A watch and the promise to be kept once it ends.
pub struct Watcher<T> {
    pub watch: Watch,
    pub promise: T,
}

/// The watchers that are told of every message, in the order of their registration.
pub type UpdaterList<T> = Vec<Watcher<T>>;

/// What a [`Watcher`] holds.
pub struct WatcherView<T> {
    pub watch: WatchView,
    pub promise: T,
}

impl<T> View for Watcher<T> {
    type V = WatcherView<T>;

    open spec fn view(&self) -> WatcherView<T> {
        WatcherView { watch: self.watch@, promise: self.promise }
    }
}

/// A watch for a value ends with the report of that value under that name, and with nothing else. It
/// takes account of every message and stays as it is.
pub proof fn law_value_watch_waits_for_its_value(name: Seq<char>, value: u32, msg: TelemetryView)
    ensures
        ({
            let w = WatchView::Value { name, value };
            &&& w.accepts(msg)
            &&& w.after(msg) == w
            &&& w.ends_with(msg) <==> {
                &&& msg matches TelemetryView::ParamValue { value: reported, id, .. }
                &&& text::text_of(id) == name
                &&& message::equal_values(reported, value)
            }
        }),
{
}

/// A watch over the list notes the report of a place at that very place and at no other. With another
/// length of the list it begins anew. It ends once all places are noted.
pub proof fn law_list_watch_notes_the_place(
    filled: Seq<bool>,
    value: u32,
    count: u16,
    index: u16,
    id: Seq<u8>,
)
    requires
        index < count,
    ensures
        ({
            let w = WatchView::List { filled };
            let msg = TelemetryView::ParamValue { value, count, index, id };
            &&& w.accepts(msg)
            &&& w.after(msg) matches WatchView::List { filled: then }
            &&& then.len() == count
            &&& then[index as int]
            &&& forall|i: int|
                0 <= i < count && i != index ==> #[trigger] then[i] == (filled.len() == count
                    && filled[i])
            &&& w.ends_with(msg) <==> (forall|i: int| 0 <= i < count ==> #[trigger] then[i])
        }),
{
    let w = WatchView::List { filled };
    let msg = TelemetryView::ParamValue { value, count, index, id };
    let then = w.after(msg)->filled;
    if bits::all_set(then) {
        assert(forall|i: int| 0 <= i < count ==> #[trigger] then[i]);
    }
}

/// A watch over the list cannot take account of a report beyond the list, and takes no account of
/// anything but reports.
pub proof fn law_list_watch_takes_reports_alone(filled: Seq<bool>, msg: TelemetryView)
    ensures
        ({
            let w = WatchView::List { filled };
            &&& w.accepts(msg) <==> (msg matches TelemetryView::ParamValue { count, index, .. }
                ==> index < count)
            &&& !(msg is ParamValue) ==> w.after(msg) == w && !w.ends_with(msg)
        }),
{
}

/// What is said of a watcher is what it holds.
pub proof fn law_watcher_view_holds_the_fields<T>(w: Watcher<T>)
    ensures
        w@.promise == w.promise,
        w@.watch == w.watch@,
        w.watch matches Watch::Value { name, value } ==> w.watch@ == (WatchView::Value {
            name: name@,
            value,
        }),
        w.watch matches Watch::List { filled } ==> w.watch@ == (WatchView::List {
            filled: bits::bits_of(filled),
        }),
{
}

} // verus!
