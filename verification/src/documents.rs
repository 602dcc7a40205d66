//! What holds of reading definition files as a whole.
use vstd::prelude::*;

use crate::decimal;
use crate::definitions;
use crate::definitions::EntryView;
use crate::definitions::EnumView;
use crate::definitions::FieldView;
use crate::definitions::MavType;
use crate::definitions::MavXmlElement;
use crate::definitions::MessageView;
use crate::reader::AttributeView;
use crate::reader::DefinitionsView;
use crate::reader::ErrorView;
use crate::reader::EventView;
use crate::reader::ReaderView;

verus! {

impl ReaderView {
    /// Every open element stands within one that it may stand within.
    pub open spec fn nested(self) -> bool {
        forall|i: int|
            0 <= i < self.stack.len() ==> definitions::valid_parent(
                if i == 0 {
                    None
                } else {
                    Some(self.stack[i - 1])
                },
                #[trigger] self.stack[i],
            )
    }

    /// The open elements are nested, and of elements that are not open nothing is told.
    pub open spec fn wf(self) -> bool {
        &&& self.nested()
        &&& self.stack.contains(MavXmlElement::Message) || self.message == MessageView::blank()
        &&& self.stack.contains(MavXmlElement::Field) || self.field == FieldView::blank()
        &&& self.stack.contains(MavXmlElement::Enum) || self.mavenum == EnumView::blank()
        &&& self.stack.contains(MavXmlElement::Entry) || self.entry == EntryView::blank()
        &&& self.stack.contains(MavXmlElement::Param) || self.paramid is None
    }

    /// After several events, up to the first that is in error.
    pub open spec fn after_events(self, events: Seq<EventView>) -> Result<ReaderView, ErrorView>
        decreases events.len(),
    {
        if events.len() == 0 {
            Ok(self)
        } else {
            match self.after(events[0]) {
                Ok(next) => next.after_events(events.skip(1)),
                Err(e) => Err(e),
            }
        }
    }
}

/// Attributes bear on what is told of their element alone.
proof fn lemma_attributes(s: ReaderView, element: MavXmlElement, list: Seq<AttributeView>)
    ensures
        s.attributes(element, list) matches Ok(t) ==> {
            &&& t.stack == s.stack
            &&& t.messages == s.messages
            &&& t.enums == s.enums
            &&& t.includes == s.includes
            &&& element != MavXmlElement::Message ==> t.message == s.message
            &&& element != MavXmlElement::Field ==> t.field == s.field
            &&& element != MavXmlElement::Enum ==> t.mavenum == s.mavenum
            &&& element != MavXmlElement::Entry && element != MavXmlElement::Param ==> t.entry
                == s.entry
            &&& element != MavXmlElement::Param ==> t.paramid == s.paramid
        },
    decreases list.len(),
{
    if list.len() > 0 {
        if let Ok(next) = s.attribute(element, list[0]) {
            lemma_attributes(next, element, list.skip(1));
        }
    }
}

/// No event that is not in error breaks the nesting of the open elements, or leaves anything told of
/// an element that is not open.
pub proof fn law_events_keep_wf(s: ReaderView, event: EventView)
    requires
        s.wf(),
    ensures
        s.after(event) matches Ok(t) ==> t.wf(),
{
    match event {
        EventView::Start { name, attributes } => {
            if let Some(element) = definitions::element_of(name) {
                let open = s.opened(element);
                lemma_attributes(open, element, attributes);
                if let Ok(t) = s.after(event) {
                    let n = s.stack.len() as int;
                    assert(t.stack == s.stack.push(element));
                    assert forall|i: int| 0 <= i < t.stack.len() implies definitions::valid_parent(
                        if i == 0 {
                            None
                        } else {
                            Some(t.stack[i - 1])
                        },
                        #[trigger] t.stack[i],
                    ) by {
                        if i < n {
                            assert(t.stack[i] == s.stack[i]);
                        }
                    }
                    assert(t.stack[n] == element);
                    if element == MavXmlElement::Param {
                        assert(s.stack[n - 1] == MavXmlElement::Entry);
                        assert(t.stack[n - 1] == MavXmlElement::Entry);
                    }
                    assert forall|e: MavXmlElement| s.stack.contains(e) implies t.stack.contains(
                        e,
                    ) by {
                        let i = choose|i: int| 0 <= i < n && s.stack[i] == e;
                        assert(t.stack[i] == e);
                    }
                }
            }
        },
        EventView::Text(text) => {
            let n = s.stack.len() as int;
            if n > 1 {
                assert(s.stack.contains(s.stack[n - 1]));
                assert(s.stack.contains(s.stack[n - 2]));
            }
        },
        EventView::End => {
            let t = s.ended();
            let n = s.stack.len() as int;
            if n > 0 {
                assert(t.stack == s.stack.drop_last());
                assert forall|i: int| 0 <= i < t.stack.len() implies definitions::valid_parent(
                    if i == 0 {
                        None
                    } else {
                        Some(t.stack[i - 1])
                    },
                    #[trigger] t.stack[i],
                ) by {
                    assert(t.stack[i] == s.stack[i]);
                }
                assert forall|e: MavXmlElement|
                    s.stack.contains(e) && e != s.stack[n - 1] implies t.stack.contains(e) by {
                    let i = choose|i: int| 0 <= i < n && s.stack[i] == e;
                    assert(t.stack[i] == e);
                }
                // A field closes within its message, and an entry within its enumeration.
                if n > 1 {
                    assert(s.stack[n - 1] == MavXmlElement::Field ==> s.stack[n - 2]
                        == MavXmlElement::Message);
                    assert(s.stack[n - 1] == MavXmlElement::Entry ==> s.stack[n - 2]
                        == MavXmlElement::Enum);
                    assert(t.stack[n - 2] == s.stack[n - 2]);
                }
            }
        },
        EventView::Other => {},
    }
}

/// Whatever is read, the open elements are nested, and of elements that are not open nothing is
/// told.
pub proof fn law_reading_keeps_wf(s: ReaderView, events: Seq<EventView>)
    requires
        s.wf(),
    ensures
        ReaderView::fresh().wf(),
        s.after_events(events) matches Ok(t) ==> t.wf(),
    decreases events.len(),
{
    if events.len() > 0 {
        law_events_keep_wf(s, events[0]);
        if let Ok(next) = s.after(events[0]) {
            law_reading_keeps_wf(next, events.skip(1));
        }
    }
}

/// Nesting by one level goes at least one level deeper.
proof fn lemma_level(s: ReaderView, i: int)
    requires
        s.nested(),
        0 <= i < s.stack.len(),
    ensures
        i < s.stack[i].level(),
    decreases i,
{
    if i > 0 {
        lemma_level(s, i - 1);
        assert(definitions::valid_parent(Some(s.stack[i - 1]), s.stack[i]));
        definitions::law_nesting_is_bounded(s.stack[i - 1], s.stack[i]);
    } else {
        definitions::law_nesting_is_bounded(s.stack[i], s.stack[i]);
    }
}

/// No more than five elements are ever open at once, and the outermost is the root.
pub proof fn law_depth_is_bounded(s: ReaderView)
    requires
        s.nested(),
    ensures
        s.stack.len() <= 5,
        s.stack.len() > 0 ==> s.stack[0] == MavXmlElement::Mavlink,
{
    if s.stack.len() > 0 {
        let n = s.stack.len() as int;
        lemma_level(s, n - 1);
        definitions::law_nesting_is_bounded(s.stack[n - 1], s.stack[n - 1]);
        assert(definitions::valid_parent(None, s.stack[0]));
    }
}

/// What was defined stays defined, in its order.
pub proof fn law_definitions_stay(s: ReaderView, event: EventView)
    ensures
        s.after(event) matches Ok(t) ==> s.messages.is_prefix_of(t.messages)
            && s.enums.is_prefix_of(t.enums) && s.includes.is_prefix_of(t.includes),
{
    if let EventView::Start { name, attributes } = event {
        if let Some(element) = definitions::element_of(name) {
            lemma_attributes(s.opened(element), element, attributes);
        }
    }
}

/// The end of an element makes up for its start: the open elements are those from before.
pub proof fn law_end_closes_start(s: ReaderView, name: Seq<char>, attributes: Seq<AttributeView>)
    ensures
        s.started(name, attributes) matches Ok(t) ==> t.ended().stack == s.stack,
{
    if let Some(element) = definitions::element_of(name) {
        lemma_attributes(s.opened(element), element, attributes);
        assert(s.stack.push(element).drop_last() =~= s.stack);
    }
}

/// Reading events in two goes is reading all of them, unless the first go ends in error.
pub proof fn law_events_in_parts(s: ReaderView, first: Seq<EventView>, second: Seq<EventView>)
    ensures
        s.after_events(first + second) == (match s.after_events(first) {
            Ok(t) => t.after_events(second),
            Err(e) => Err(e),
        }),
    decreases first.len(),
{
    if first.len() == 0 {
        assert(first + second =~= second);
    } else {
        assert((first + second)[0] == first[0]);
        assert((first + second).skip(1) =~= first.skip(1) + second);
        if let Ok(next) = s.after(first[0]) {
            law_events_in_parts(next, first.skip(1), second);
        }
    }
}

/// Events that were met.
pub open spec fn met(events: Seq<EventView>) -> Seq<Result<EventView, Seq<char>>> {
    events.map_values(|e: EventView| Ok::<EventView, Seq<char>>(e))
}

/// A definition file that is met with events and then with an error defines what the events define,
/// whatever follows.
pub proof fn law_error_ends_reading(
    s: ReaderView,
    events: Seq<EventView>,
    message: Seq<char>,
    more: Seq<Result<EventView, Seq<char>>>,
)
    ensures
        s.read(met(events) + seq![Err::<EventView, Seq<char>>(message)] + more) == (
        match s.after_events(events) {
            Ok(t) => Ok(t.defined(Some(message))),
            Err(e) => Err(e),
        }),
    decreases events.len(),
{
    let all = met(events) + seq![Err::<EventView, Seq<char>>(message)] + more;
    if events.len() > 0 {
        assert(all[0] == Ok::<EventView, Seq<char>>(events[0]));
        assert(all.skip(1) =~= met(events.skip(1)) + seq![Err::<EventView, Seq<char>>(message)]
            + more);
        if let Ok(next) = s.after(events[0]) {
            law_error_ends_reading(next, events.skip(1), message, more);
        }
    } else {
        assert(all[0] == Err::<EventView, Seq<char>>(message));
    }
}

/// A definition file that is met with events alone defines what they define.
pub proof fn law_events_define(s: ReaderView, events: Seq<EventView>)
    ensures
        s.read(met(events)) == (match s.after_events(events) {
            Ok(t) => Ok(t.defined(None)),
            Err(e) => Err(e),
        }),
    decreases events.len(),
{
    if events.len() > 0 {
        assert(met(events)[0] == Ok::<EventView, Seq<char>>(events[0]));
        assert(met(events).skip(1) =~= met(events.skip(1)));
        if let Ok(next) = s.after(events[0]) {
            law_events_define(next, events.skip(1));
        }
    }
}

/// The start of an element.
pub open spec fn opening(element: MavXmlElement, attributes: Seq<AttributeView>) -> EventView {
    EventView::Start { name: element.name(), attributes }
}

/// The name of a type, if it has one.
pub open spec fn name_of_type(t: MavType) -> Seq<char> {
    match t {
        MavType::UInt8MavlinkVersion => seq![],
        MavType::UInt8 => "uint8_t"@,
        MavType::UInt16 => "uint16_t"@,
        MavType::UInt32 => "uint32_t"@,
        MavType::UInt64 => "uint64_t"@,
        MavType::Int8 => "int8_t"@,
        MavType::Int16 => "int16_t"@,
        MavType::Int32 => "int32_t"@,
        MavType::Int64 => "int64_t"@,
        MavType::Char => "char"@,
        MavType::Float => "float"@,
        MavType::Double => "Double"@,
        MavType::Buffer(n) => "uint8_t["@ + decimal::digits_of(n as nat) + seq![']'],
    }
}

/// Every type but that of the version field is read back from its name.
pub proof fn law_type_is_read_back(t: MavType)
    requires
        t != MavType::UInt8MavlinkVersion,
    ensures
        definitions::type_of(name_of_type(t)) == Some(t),
{
    if let MavType::Buffer(n) = t {
        definitions::law_buffer_is_read_back(n);
    } else {
        reveal_strlit("uint8_t");
        reveal_strlit("uint16_t");
        reveal_strlit("uint32_t");
        reveal_strlit("uint64_t");
        reveal_strlit("int8_t");
        reveal_strlit("int16_t");
        reveal_strlit("int32_t");
        reveal_strlit("int64_t");
        reveal_strlit("char");
        reveal_strlit("float");
        reveal_strlit("Double");
        let s = name_of_type(t);
        assert(s.len() >= 4);
        assert(s[3] == name_of_type(t)[3]);
        assert(s.len() >= 5 ==> s[4] == name_of_type(t)[4]);
    }
}

/// A signed number in decimal.
pub open spec fn signed_digits(n: int) -> Seq<char> {
    if n < 0 {
        seq!['-'] + decimal::digits_of((-n) as nat)
    } else {
        decimal::digits_of(n as nat)
    }
}

/// A description, if there is one.
pub open spec fn description_events(text: Option<Seq<char>>) -> Seq<EventView> {
    match text {
        Some(text) => seq![
            opening(MavXmlElement::Description, seq![]),
            EventView::Text(text),
            EventView::End,
        ],
        None => seq![],
    }
}

/// The attributes of a field.
pub open spec fn field_attributes(f: FieldView) -> Seq<AttributeView> {
    let always = seq![
        AttributeView { name: "type"@, value: name_of_type(f.mavtype) },
        AttributeView { name: "name"@, value: f.name },
    ];
    match f.enumtype {
        Some(value) => always.push(AttributeView { name: "enum"@, value }),
        None => always,
    }
}

/// A field as it is written down.
pub open spec fn field_events(f: FieldView) -> Seq<EventView> {
    let open = seq![opening(MavXmlElement::Field, field_attributes(f))];
    match f.description {
        Some(text) => open + seq![EventView::Text(text), EventView::End],
        None => open + seq![EventView::End],
    }
}

/// Fields as they are written down.
pub open spec fn fields_events(list: Seq<FieldView>) -> Seq<EventView>
    decreases list.len(),
{
    if list.len() == 0 {
        seq![]
    } else {
        fields_events(list.drop_last()) + field_events(list.last())
    }
}

/// The attributes of a message.
pub open spec fn message_attributes(m: MessageView) -> Seq<AttributeView> {
    seq![
        AttributeView { name: "id"@, value: decimal::digits_of(m.id as nat) },
        AttributeView { name: "name"@, value: m.name },
    ]
}

/// A message as it is written down.
pub open spec fn message_events(m: MessageView) -> Seq<EventView> {
    seq![opening(MavXmlElement::Message, message_attributes(m))] + description_events(m.description)
        + fields_events(m.fields) + seq![EventView::End]
}

/// Messages as they are written down.
pub open spec fn messages_events(list: Seq<MessageView>) -> Seq<EventView>
    decreases list.len(),
{
    if list.len() == 0 {
        seq![]
    } else {
        messages_events(list.drop_last()) + message_events(list.last())
    }
}

/// Whether the fields of a message are of types that have names.
pub open spec fn writable_message(m: MessageView) -> bool {
    forall|i: int|
        0 <= i < m.fields.len() ==> (#[trigger] m.fields[i]).mavtype
            != MavType::UInt8MavlinkVersion
}

/// The first of several events.
proof fn lemma_first(s: ReaderView, event: EventView, rest: Seq<EventView>)
    ensures
        s.after_events(seq![event] + rest) == (match s.after(event) {
            Ok(t) => t.after_events(rest),
            Err(e) => Err(e),
        }),
{
    let all = seq![event] + rest;
    assert(all[0] == event);
    assert(all.skip(1) =~= rest);
}

/// One event.
proof fn lemma_one(s: ReaderView, event: EventView)
    ensures
        s.after_events(seq![event]) == s.after(event),
{
    lemma_first(s, event, seq![]);
    assert(seq![event] + seq![] =~= seq![event]);
}

/// A field is read back where a message is open.
pub proof fn law_field_is_read_back(s: ReaderView, f: FieldView)
    requires
        s.top() == Some(MavXmlElement::Message),
        f.mavtype != MavType::UInt8MavlinkVersion,
    ensures
        s.after_events(field_events(f)) == Ok::<ReaderView, ErrorView>(
            ReaderView {
                message: MessageView { fields: s.message.fields.push(f), ..s.message },
                field: FieldView::blank(),
                ..s
            },
        ),
{
    let e = MavXmlElement::Field;
    definitions::law_elements_have_one_name(e, e.name());
    law_type_is_read_back(f.mavtype);
    reveal_strlit("type");
    reveal_strlit("name");
    reveal_strlit("enum");
    assert("type"@[0] != "name"@[0] && "type"@[0] != "enum"@[0] && "name"@[0] != "enum"@[0]);
    let list = field_attributes(f);
    let open = s.opened(e);
    let a = open.attribute(e, list[0])->Ok_0;
    let b = a.attribute(e, list[1])->Ok_0;
    assert(open.attributes(e, list) == a.attributes(e, list.skip(1)));
    assert(list.skip(1)[0] == list[1]);
    assert(list.skip(1).skip(1) =~= list.skip(2));
    assert(a.attributes(e, list.skip(1)) == b.attributes(e, list.skip(2)));
    let c = if f.enumtype is Some {
        b.attribute(e, list[2])->Ok_0
    } else {
        b
    };
    if f.enumtype is Some {
        assert(list.skip(2)[0] == list[2]);
        assert(list.skip(2).skip(1) =~= seq![]);
        assert(b.attributes(e, list.skip(2)) == c.attributes(e, seq![]));
    } else {
        assert(list.skip(2) =~= seq![]);
    }
    assert(open.attributes(e, list) == Ok::<ReaderView, ErrorView>(c));
    assert(c.field == (FieldView { description: None, ..f }));
    assert(c.stack[c.stack.len() - 2] == MavXmlElement::Message);
    assert(c.stack.drop_last() =~= s.stack);
    let done = ReaderView {
        message: MessageView { fields: s.message.fields.push(f), ..s.message },
        field: FieldView::blank(),
        ..s
    };
    match f.description {
        Some(text) => {
            let d = c.told(text)->Ok_0;
            lemma_first(s, opening(e, list), seq![EventView::Text(text), EventView::End]);
            assert(seq![EventView::Text(text), EventView::End] =~= seq![EventView::Text(text)]
                + seq![EventView::End]);
            lemma_first(c, EventView::Text(text), seq![EventView::End]);
            lemma_one(d, EventView::End);
            assert(d.field == f);
            assert(d.ended() == done);
        },
        None => {
            lemma_first(s, opening(e, list), seq![EventView::End]);
            lemma_one(c, EventView::End);
            assert(c.ended() == done);
        },
    }
}

/// Fields are read back in their order where a message is open.
proof fn lemma_fields_are_read_back(s: ReaderView, list: Seq<FieldView>)
    requires
        s.top() == Some(MavXmlElement::Message),
        s.field == FieldView::blank(),
        forall|i: int|
            0 <= i < list.len() ==> (#[trigger] list[i]).mavtype != MavType::UInt8MavlinkVersion,
    ensures
        s.after_events(fields_events(list)) == Ok::<ReaderView, ErrorView>(
            ReaderView {
                message: MessageView { fields: s.message.fields + list, ..s.message },
                ..s
            },
        ),
    decreases list.len(),
{
    if list.len() == 0 {
        assert(s.message.fields + list =~= s.message.fields);
    } else {
        let init = list.drop_last();
        assert forall|i: int| 0 <= i < init.len() implies (#[trigger] init[i]).mavtype
            != MavType::UInt8MavlinkVersion by {
            assert(list[i].mavtype != MavType::UInt8MavlinkVersion);
        }
        lemma_fields_are_read_back(s, init);
        law_events_in_parts(s, fields_events(init), field_events(list.last()));
        let t = s.after_events(fields_events(init))->Ok_0;
        law_field_is_read_back(t, list.last());
        assert(s.message.fields + list =~= (s.message.fields + init).push(list.last()));
    }
}

/// The description of a message is read back.
proof fn lemma_message_description(s: ReaderView, text: Option<Seq<char>>)
    requires
        s.top() == Some(MavXmlElement::Message),
        s.message.description is None,
    ensures
        s.after_events(description_events(text)) == Ok::<ReaderView, ErrorView>(
            ReaderView { message: MessageView { description: text, ..s.message }, ..s },
        ),
{
    if let Some(text) = text {
        let e = MavXmlElement::Description;
        definitions::law_elements_have_one_name(e, e.name());
        let open = opening(e, seq![]);
        let a = s.after(open)->Ok_0;
        let b = a.told(text)->Ok_0;
        assert(description_events(Some(text)) =~= seq![open] + (seq![EventView::Text(text)] + seq![
            EventView::End,
        ]));
        lemma_first(s, open, seq![EventView::Text(text)] + seq![EventView::End]);
        lemma_first(a, EventView::Text(text), seq![EventView::End]);
        lemma_one(b, EventView::End);
        assert(b.stack.drop_last() =~= s.stack);
    }
}

/// A message is read back where messages stand.
pub proof fn law_message_is_read_back(s: ReaderView, m: MessageView)
    requires
        s.wf(),
        s.top() == Some(MavXmlElement::Messages),
        writable_message(m),
    ensures
        s.after_events(message_events(m)) == Ok::<ReaderView, ErrorView>(
            ReaderView { messages: s.messages.push(m), ..s },
        ),
{
    lemma_nothing_told(s);
    let e = MavXmlElement::Message;
    definitions::law_elements_have_one_name(e, e.name());
    decimal::law_digits_are_read_back(m.id as nat);
    reveal_strlit("id");
    reveal_strlit("name");
    assert("id"@[0] != "name"@[0]);
    let list = message_attributes(m);
    let open = s.opened(e);
    let a = open.attribute(e, list[0])->Ok_0;
    let b = a.attribute(e, list[1])->Ok_0;
    assert(open.attributes(e, list) == a.attributes(e, list.skip(1)));
    assert(list.skip(1)[0] == list[1]);
    assert(list.skip(1).skip(1) =~= seq![]);
    assert(a.attributes(e, list.skip(1)) == b.attributes(e, seq![]));
    assert(s.after(opening(e, list)) == Ok::<ReaderView, ErrorView>(b));
    let c = ReaderView { message: MessageView { description: m.description, ..b.message }, ..b };
    let d = ReaderView { message: m, ..b };
    lemma_message_description(b, m.description);
    lemma_fields_are_read_back(c, m.fields);
    assert(c.message.fields + m.fields =~= m.fields);
    lemma_one(d, EventView::End);
    let de = description_events(m.description);
    let fe = fields_events(m.fields);
    let end = seq![EventView::End];
    assert(message_events(m) =~= seq![opening(e, list)] + (de + (fe + end)));
    lemma_first(s, opening(e, list), de + (fe + end));
    law_events_in_parts(b, de, fe + end);
    law_events_in_parts(c, fe, end);
    assert(d.stack.drop_last() =~= s.stack);
}

/// Where messages or enumerations stand, or neither, nothing is told of any element.
proof fn lemma_nothing_told(s: ReaderView)
    requires
        s.wf(),
        s.top() == Some(MavXmlElement::Messages) || s.top() == Some(MavXmlElement::Enums),
    ensures
        s.message == MessageView::blank(),
        s.field == FieldView::blank(),
        s.mavenum == EnumView::blank(),
        s.entry == EntryView::blank(),
        s.paramid is None,
{
    let n = s.stack.len() as int;
    assert(definitions::valid_parent(
        if n == 1 {
            None
        } else {
            Some(s.stack[n - 2])
        },
        s.stack[n - 1],
    ));
    assert(n > 1 && s.stack[n - 2] == MavXmlElement::Mavlink);
    assert(definitions::valid_parent(
        if n == 2 {
            None
        } else {
            Some(s.stack[n - 3])
        },
        s.stack[n - 2],
    ));
    assert(n == 2);
}

/// A parameter of an entry, at a place counted from 1.
pub open spec fn param_opening(place: nat) -> EventView {
    opening(
        MavXmlElement::Param,
        seq![AttributeView { name: "index"@, value: decimal::digits_of(place) }],
    )
}

/// Parameters of an entry as they are written down.
pub open spec fn listed_params_events(list: Seq<Seq<char>>) -> Seq<EventView>
    decreases list.len(),
{
    if list.len() == 0 {
        seq![]
    } else {
        listed_params_events(list.drop_last()) + seq![
            param_opening(list.len()),
            EventView::Text(list.last()),
            EventView::End,
        ]
    }
}

/// The parameters of an entry as they are written down. An empty list of them is written as one
/// without text.
pub open spec fn params_events(params: Option<Seq<Seq<char>>>) -> Seq<EventView> {
    match params {
        None => seq![],
        Some(list) => if list.len() == 0 {
            seq![param_opening(1), EventView::End]
        } else {
            listed_params_events(list)
        },
    }
}

/// The attributes of an entry.
pub open spec fn entry_attributes(e: EntryView) -> Seq<AttributeView> {
    seq![
        AttributeView { name: "value"@, value: signed_digits(e.value as int) },
        AttributeView { name: "name"@, value: e.name },
    ]
}

/// An entry as it is written down.
pub open spec fn entry_events(e: EntryView) -> Seq<EventView> {
    seq![opening(MavXmlElement::Entry, entry_attributes(e))] + description_events(e.description)
        + params_events(e.params) + seq![EventView::End]
}

/// Entries as they are written down.
pub open spec fn entries_events(list: Seq<EntryView>) -> Seq<EventView>
    decreases list.len(),
{
    if list.len() == 0 {
        seq![]
    } else {
        entries_events(list.drop_last()) + entry_events(list.last())
    }
}

/// An enumeration as it is written down.
pub open spec fn enum_events(e: EnumView) -> Seq<EventView> {
    seq![opening(MavXmlElement::Enum, seq![AttributeView { name: "name"@, value: e.name }])]
        + description_events(e.description) + entries_events(e.entries) + seq![EventView::End]
}

/// Enumerations as they are written down.
pub open spec fn enums_events(list: Seq<EnumView>) -> Seq<EventView>
    decreases list.len(),
{
    if list.len() == 0 {
        seq![]
    } else {
        enums_events(list.drop_last()) + enum_events(list.last())
    }
}

/// Whether the places of an entry's parameters can be counted.
pub open spec fn writable_entry(e: EntryView) -> bool {
    e.params matches Some(list) ==> list.len() <= usize::MAX
}

/// Whether the places of all parameters can be counted.
pub open spec fn writable_enum(e: EnumView) -> bool {
    forall|i: int| 0 <= i < e.entries.len() ==> writable_entry(#[trigger] e.entries[i])
}

/// The start of a parameter is read.
proof fn lemma_param_opening(s: ReaderView, place: nat)
    requires
        s.top() == Some(MavXmlElement::Entry),
        place <= usize::MAX,
    ensures
        s.after(param_opening(place)) == Ok::<ReaderView, ErrorView>(
            ReaderView {
                stack: s.stack.push(MavXmlElement::Param),
                entry: EntryView {
                    params: Some(
                        match s.entry.params {
                            Some(list) => list,
                            None => seq![],
                        },
                    ),
                    ..s.entry
                },
                paramid: Some(place as usize),
                ..s
            },
        ),
{
    let e = MavXmlElement::Param;
    definitions::law_elements_have_one_name(e, e.name());
    decimal::law_digits_are_read_back(place);
    let list = seq![AttributeView { name: "index"@, value: decimal::digits_of(place) }];
    let open = s.opened(e);
    let a = open.attribute(e, list[0])->Ok_0;
    assert(list.skip(1) =~= seq![]);
    assert(open.attributes(e, list) == a.attributes(e, seq![]));
}

/// Parameters are read back where an entry is open.
proof fn lemma_listed_params(s: ReaderView, list: Seq<Seq<char>>)
    requires
        s.top() == Some(MavXmlElement::Entry),
        s.entry.params is None,
        s.paramid is None,
        list.len() <= usize::MAX,
    ensures
        s.after_events(listed_params_events(list)) == Ok::<ReaderView, ErrorView>(
            ReaderView {
                entry: EntryView {
                    params: if list.len() == 0 {
                        None
                    } else {
                        Some(list)
                    },
                    ..s.entry
                },
                ..s
            },
        ),
    decreases list.len(),
{
    if list.len() > 0 {
        let init = list.drop_last();
        let text = list.last();
        lemma_listed_params(s, init);
        let one = seq![param_opening(list.len()), EventView::Text(text), EventView::End];
        law_events_in_parts(s, listed_params_events(init), one);
        let t = s.after_events(listed_params_events(init))->Ok_0;
        lemma_param_opening(t, list.len());
        let a = t.after(param_opening(list.len()))->Ok_0;
        assert(a.entry.params->0 =~= init);
        assert(init.insert(init.len() as int, text) =~= list);
        let b = a.told(text)->Ok_0;
        assert(a.stack[a.stack.len() - 2] == MavXmlElement::Entry);
        assert(one =~= seq![param_opening(list.len())] + (seq![EventView::Text(text)] + seq![
            EventView::End,
        ]));
        lemma_first(
            t,
            param_opening(list.len()),
            seq![EventView::Text(text)] + seq![EventView::End],
        );
        lemma_first(a, EventView::Text(text), seq![EventView::End]);
        lemma_one(b, EventView::End);
        assert(b.stack.drop_last() =~= s.stack);
    }
}

/// The parameters of an entry are read back.
proof fn lemma_params(s: ReaderView, params: Option<Seq<Seq<char>>>)
    requires
        s.top() == Some(MavXmlElement::Entry),
        s.entry.params is None,
        s.paramid is None,
        params matches Some(list) ==> list.len() <= usize::MAX,
    ensures
        s.after_events(params_events(params)) == Ok::<ReaderView, ErrorView>(
            ReaderView { entry: EntryView { params, ..s.entry }, ..s },
        ),
{
    if let Some(list) = params {
        if list.len() == 0 {
            lemma_param_opening(s, 1);
            let a = s.after(param_opening(1))->Ok_0;
            assert(params_events(params) =~= seq![param_opening(1)] + seq![EventView::End]);
            lemma_first(s, param_opening(1), seq![EventView::End]);
            lemma_one(a, EventView::End);
            assert(a.stack.drop_last() =~= s.stack);
            assert(list =~= seq![]);
        } else {
            lemma_listed_params(s, list);
        }
    }
}

/// The description of an entry is read back.
proof fn lemma_entry_description(s: ReaderView, text: Option<Seq<char>>)
    requires
        s.top() == Some(MavXmlElement::Entry),
        s.entry.description is None,
    ensures
        s.after_events(description_events(text)) == Ok::<ReaderView, ErrorView>(
            ReaderView { entry: EntryView { description: text, ..s.entry }, ..s },
        ),
{
    if let Some(text) = text {
        let e = MavXmlElement::Description;
        definitions::law_elements_have_one_name(e, e.name());
        let open = opening(e, seq![]);
        let a = s.after(open)->Ok_0;
        let b = a.told(text)->Ok_0;
        assert(description_events(Some(text)) =~= seq![open] + (seq![EventView::Text(text)] + seq![
            EventView::End,
        ]));
        lemma_first(s, open, seq![EventView::Text(text)] + seq![EventView::End]);
        lemma_first(a, EventView::Text(text), seq![EventView::End]);
        lemma_one(b, EventView::End);
        assert(b.stack.drop_last() =~= s.stack);
    }
}

/// The description of an enumeration is read back.
proof fn lemma_enum_description(s: ReaderView, text: Option<Seq<char>>)
    requires
        s.top() == Some(MavXmlElement::Enum),
        s.mavenum.description is None,
    ensures
        s.after_events(description_events(text)) == Ok::<ReaderView, ErrorView>(
            ReaderView { mavenum: EnumView { description: text, ..s.mavenum }, ..s },
        ),
{
    if let Some(text) = text {
        let e = MavXmlElement::Description;
        definitions::law_elements_have_one_name(e, e.name());
        let open = opening(e, seq![]);
        let a = s.after(open)->Ok_0;
        let b = a.told(text)->Ok_0;
        assert(description_events(Some(text)) =~= seq![open] + (seq![EventView::Text(text)] + seq![
            EventView::End,
        ]));
        lemma_first(s, open, seq![EventView::Text(text)] + seq![EventView::End]);
        lemma_first(a, EventView::Text(text), seq![EventView::End]);
        lemma_one(b, EventView::End);
        assert(b.stack.drop_last() =~= s.stack);
    }
}

/// An entry is read back where an enumeration is open.
pub proof fn law_entry_is_read_back(s: ReaderView, v: EntryView)
    requires
        s.top() == Some(MavXmlElement::Enum),
        s.paramid is None,
        writable_entry(v),
    ensures
        s.after_events(entry_events(v)) == Ok::<ReaderView, ErrorView>(
            ReaderView {
                mavenum: EnumView { entries: s.mavenum.entries.push(v), ..s.mavenum },
                entry: EntryView::blank(),
                ..s
            },
        ),
{
    let e = MavXmlElement::Entry;
    definitions::law_elements_have_one_name(e, e.name());
    if v.value < 0 {
        decimal::law_digits_are_read_back((-v.value) as nat);
    } else {
        decimal::law_digits_are_read_back(v.value as nat);
    }
    reveal_strlit("value");
    reveal_strlit("name");
    assert("value"@[0] != "name"@[0]);
    let list = entry_attributes(v);
    let open = s.opened(e);
    let a = open.attribute(e, list[0])->Ok_0;
    let b = a.attribute(e, list[1])->Ok_0;
    assert(open.attributes(e, list) == a.attributes(e, list.skip(1)));
    assert(list.skip(1)[0] == list[1]);
    assert(list.skip(1).skip(1) =~= seq![]);
    assert(a.attributes(e, list.skip(1)) == b.attributes(e, seq![]));
    assert(s.after(opening(e, list)) == Ok::<ReaderView, ErrorView>(b));
    let c = ReaderView { entry: EntryView { description: v.description, ..b.entry }, ..b };
    let d = ReaderView { entry: v, ..b };
    lemma_entry_description(b, v.description);
    lemma_params(c, v.params);
    assert(b.entry == (EntryView { value: v.value, name: v.name, ..EntryView::blank() }));
    lemma_one(d, EventView::End);
    let de = description_events(v.description);
    let pe = params_events(v.params);
    let end = seq![EventView::End];
    assert(entry_events(v) =~= seq![opening(e, list)] + (de + (pe + end)));
    lemma_first(s, opening(e, list), de + (pe + end));
    law_events_in_parts(b, de, pe + end);
    law_events_in_parts(c, pe, end);
    assert(d.stack.drop_last() =~= s.stack);
}

/// Entries are read back in their order where an enumeration is open.
proof fn lemma_entries_are_read_back(s: ReaderView, list: Seq<EntryView>)
    requires
        s.top() == Some(MavXmlElement::Enum),
        s.entry == EntryView::blank(),
        s.paramid is None,
        forall|i: int| 0 <= i < list.len() ==> writable_entry(#[trigger] list[i]),
    ensures
        s.after_events(entries_events(list)) == Ok::<ReaderView, ErrorView>(
            ReaderView {
                mavenum: EnumView { entries: s.mavenum.entries + list, ..s.mavenum },
                ..s
            },
        ),
    decreases list.len(),
{
    if list.len() == 0 {
        assert(s.mavenum.entries + list =~= s.mavenum.entries);
    } else {
        let init = list.drop_last();
        assert forall|i: int| 0 <= i < init.len() implies writable_entry(#[trigger] init[i]) by {
            assert(writable_entry(list[i]));
        }
        lemma_entries_are_read_back(s, init);
        law_events_in_parts(s, entries_events(init), entry_events(list.last()));
        let t = s.after_events(entries_events(init))->Ok_0;
        law_entry_is_read_back(t, list.last());
        assert(s.mavenum.entries + list =~= (s.mavenum.entries + init).push(list.last()));
    }
}

/// An enumeration is read back where enumerations stand.
pub proof fn law_enum_is_read_back(s: ReaderView, v: EnumView)
    requires
        s.wf(),
        s.top() == Some(MavXmlElement::Enums),
        writable_enum(v),
    ensures
        s.after_events(enum_events(v)) == Ok::<ReaderView, ErrorView>(
            ReaderView { enums: s.enums.push(v), ..s },
        ),
{
    lemma_nothing_told(s);
    let e = MavXmlElement::Enum;
    definitions::law_elements_have_one_name(e, e.name());
    let list = seq![AttributeView { name: "name"@, value: v.name }];
    let open = s.opened(e);
    let b = open.attribute(e, list[0])->Ok_0;
    assert(list.skip(1) =~= seq![]);
    assert(open.attributes(e, list) == b.attributes(e, seq![]));
    assert(s.after(opening(e, list)) == Ok::<ReaderView, ErrorView>(b));
    let c = ReaderView { mavenum: EnumView { description: v.description, ..b.mavenum }, ..b };
    let d = ReaderView { mavenum: v, ..b };
    lemma_enum_description(b, v.description);
    lemma_entries_are_read_back(c, v.entries);
    assert(c.mavenum.entries + v.entries =~= v.entries);
    lemma_one(d, EventView::End);
    let de = description_events(v.description);
    let ee = entries_events(v.entries);
    let end = seq![EventView::End];
    assert(enum_events(v) =~= seq![opening(e, list)] + (de + (ee + end)));
    lemma_first(s, opening(e, list), de + (ee + end));
    law_events_in_parts(b, de, ee + end);
    law_events_in_parts(c, ee, end);
    assert(d.stack.drop_last() =~= s.stack);
}

/// Messages are read back in their order where messages stand.
proof fn lemma_messages_are_read_back(s: ReaderView, list: Seq<MessageView>)
    requires
        s.wf(),
        s.top() == Some(MavXmlElement::Messages),
        forall|i: int| 0 <= i < list.len() ==> writable_message(#[trigger] list[i]),
    ensures
        s.after_events(messages_events(list)) == Ok::<ReaderView, ErrorView>(
            ReaderView { messages: s.messages + list, ..s },
        ),
    decreases list.len(),
{
    if list.len() == 0 {
        assert(s.messages + list =~= s.messages);
    } else {
        let init = list.drop_last();
        assert forall|i: int| 0 <= i < init.len() implies writable_message(#[trigger] init[i]) by {
            assert(writable_message(list[i]));
        }
        lemma_messages_are_read_back(s, init);
        law_events_in_parts(s, messages_events(init), message_events(list.last()));
        let t = s.after_events(messages_events(init))->Ok_0;
        law_message_is_read_back(t, list.last());
        assert(s.messages + list =~= (s.messages + init).push(list.last()));
    }
}

/// Enumerations are read back in their order where enumerations stand.
proof fn lemma_enums_are_read_back(s: ReaderView, list: Seq<EnumView>)
    requires
        s.wf(),
        s.top() == Some(MavXmlElement::Enums),
        forall|i: int| 0 <= i < list.len() ==> writable_enum(#[trigger] list[i]),
    ensures
        s.after_events(enums_events(list)) == Ok::<ReaderView, ErrorView>(
            ReaderView { enums: s.enums + list, ..s },
        ),
    decreases list.len(),
{
    if list.len() == 0 {
        assert(s.enums + list =~= s.enums);
    } else {
        let init = list.drop_last();
        assert forall|i: int| 0 <= i < init.len() implies writable_enum(#[trigger] init[i]) by {
            assert(writable_enum(list[i]));
        }
        lemma_enums_are_read_back(s, init);
        law_events_in_parts(s, enums_events(init), enum_events(list.last()));
        let t = s.after_events(enums_events(init))->Ok_0;
        law_enum_is_read_back(t, list.last());
        assert(s.enums + list =~= (s.enums + init).push(list.last()));
    }
}

/// The enumerations of a definition file as they are written down.
pub open spec fn enums_part(enums: Seq<EnumView>) -> Seq<EventView> {
    seq![opening(MavXmlElement::Enums, seq![])] + (enums_events(enums) + seq![EventView::End])
}

/// The messages of a definition file as they are written down.
pub open spec fn messages_part(messages: Seq<MessageView>) -> Seq<EventView> {
    seq![opening(MavXmlElement::Messages, seq![])] + (messages_events(messages) + seq![
        EventView::End,
    ])
}

/// References to other definition files as they are written down.
pub open spec fn includes_events(list: Seq<Seq<char>>) -> Seq<EventView>
    decreases list.len(),
{
    if list.len() == 0 {
        seq![]
    } else {
        includes_events(list.drop_last()) + seq![
            opening(MavXmlElement::Include, seq![]),
            EventView::Text(list.last()),
            EventView::End,
        ]
    }
}

/// References to other definition files are read back in their order where the root is open.
proof fn lemma_includes_are_read_back(s: ReaderView, list: Seq<Seq<char>>)
    requires
        s.top() == Some(MavXmlElement::Mavlink),
    ensures
        s.after_events(includes_events(list)) == Ok::<ReaderView, ErrorView>(
            ReaderView { includes: s.includes + list, ..s },
        ),
    decreases list.len(),
{
    if list.len() == 0 {
        assert(s.includes + list =~= s.includes);
    } else {
        let init = list.drop_last();
        let text = list.last();
        let e = MavXmlElement::Include;
        lemma_includes_are_read_back(s, init);
        definitions::law_elements_have_one_name(e, e.name());
        let open = opening(e, seq![]);
        let one = seq![open, EventView::Text(text), EventView::End];
        law_events_in_parts(s, includes_events(init), one);
        let t = s.after_events(includes_events(init))->Ok_0;
        let a = t.after(open)->Ok_0;
        let b = a.told(text)->Ok_0;
        assert(one =~= seq![open] + (seq![EventView::Text(text)] + seq![EventView::End]));
        lemma_first(t, open, seq![EventView::Text(text)] + seq![EventView::End]);
        lemma_first(a, EventView::Text(text), seq![EventView::End]);
        lemma_one(b, EventView::End);
        assert(b.stack.drop_last() =~= s.stack);
        assert(s.includes + list =~= (s.includes + init).push(text));
    }
}

/// A definition file as it is written down.
pub open spec fn document_events(
    includes: Seq<Seq<char>>,
    enums: Seq<EnumView>,
    messages: Seq<MessageView>,
) -> Seq<EventView> {
    seq![opening(MavXmlElement::Mavlink, seq![])] + (includes_events(includes) + (enums_part(enums)
        + (messages_part(messages) + seq![EventView::End])))
}

/// What is written down in a definition file is what is read from it: the references, enumerations
/// and messages, each in full and in their order, and nothing else.
pub proof fn law_document_is_read_back(
    includes: Seq<Seq<char>>,
    enums: Seq<EnumView>,
    messages: Seq<MessageView>,
)
    requires
        forall|i: int| 0 <= i < enums.len() ==> writable_enum(#[trigger] enums[i]),
        forall|i: int| 0 <= i < messages.len() ==> writable_message(#[trigger] messages[i]),
    ensures
        ReaderView::fresh().read(met(document_events(includes, enums, messages))) == Ok::<
            DefinitionsView,
            ErrorView,
        >(DefinitionsView { messages, enums, includes, error: None }),
{
    let s = ReaderView::fresh();
    let end = seq![EventView::End];
    let root = MavXmlElement::Mavlink;
    definitions::law_elements_have_one_name(root, root.name());
    definitions::law_elements_have_one_name(MavXmlElement::Enums, MavXmlElement::Enums.name());
    definitions::law_elements_have_one_name(
        MavXmlElement::Messages,
        MavXmlElement::Messages.name(),
    );
    let top = ReaderView { stack: seq![root], ..s };
    assert(s.stack.push(root) =~= top.stack);
    let rest = enums_part(enums) + (messages_part(messages) + end);
    lemma_first(s, opening(root, seq![]), includes_events(includes) + rest);
    // The references.
    let a = ReaderView { includes, ..top };
    assert(top.includes + includes =~= includes);
    lemma_includes_are_read_back(top, includes);
    law_events_in_parts(top, includes_events(includes), rest);
    // The enumerations.
    let b = ReaderView { stack: a.stack.push(MavXmlElement::Enums), ..a };
    let c = ReaderView { enums, ..b };
    let d = ReaderView { enums, ..a };
    assert(b.wf());
    assert(b.enums + enums =~= enums);
    lemma_enums_are_read_back(b, enums);
    law_events_in_parts(b, enums_events(enums), end);
    lemma_one(c, EventView::End);
    assert(c.stack.drop_last() =~= a.stack);
    assert(c.ended() == d);
    lemma_first(a, opening(MavXmlElement::Enums, seq![]), enums_events(enums) + end);
    law_events_in_parts(a, enums_part(enums), messages_part(messages) + end);
    // The messages.
    let f = ReaderView { stack: d.stack.push(MavXmlElement::Messages), ..d };
    let g = ReaderView { messages, ..f };
    let h = ReaderView { messages, ..d };
    assert(f.wf());
    assert(f.messages + messages =~= messages);
    lemma_messages_are_read_back(f, messages);
    law_events_in_parts(f, messages_events(messages), end);
    lemma_one(g, EventView::End);
    assert(g.stack.drop_last() =~= d.stack);
    assert(g.ended() == h);
    lemma_first(d, opening(MavXmlElement::Messages, seq![]), messages_events(messages) + end);
    law_events_in_parts(d, messages_part(messages), end);
    lemma_one(h, EventView::End);
    law_events_define(s, document_events(includes, enums, messages));
}

} // verus!
