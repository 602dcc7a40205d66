//! Reads MAVLink definition files.
use vstd::prelude::*;

use xml::reader::EventReader;

use crate::decimal;
use crate::definitions;
use crate::definitions::EntryView;
use crate::definitions::EnumView;
use crate::definitions::FieldView;
use crate::definitions::MavEnum;
use crate::definitions::MavEnumEntry;
use crate::definitions::MavField;
use crate::definitions::MavMessage;
use crate::definitions::MavXmlElement;
use crate::definitions::MessageView;
use crate::text;

verus! {

/// An attribute of an element.
#[derive(Debug, PartialEq)]
pub struct XmlAttribute {
    pub name: String,
    pub value: String,
}

/// What an [`XmlAttribute`] says.
pub struct AttributeView {
    pub name: Seq<char>,
    pub value: Seq<char>,
}

impl View for XmlAttribute {
    type V = AttributeView;

    open spec fn view(&self) -> AttributeView {
        AttributeView { name: self.name@, value: self.value@ }
    }
}

/// Something met in an XML document.
#[derive(Debug, PartialEq)]
pub enum XmlEvent {
    /// The start of an element.
    Start { name: String, attributes: Vec<XmlAttribute> },
    /// Text that the document holds as characters.
    Text(String),
    /// The end of an element.
    End,
    /// Anything else.
    Other,
}

/// What an [`XmlEvent`] says.
pub enum EventView {
    Start { name: Seq<char>, attributes: Seq<AttributeView> },
    Text(Seq<char>),
    End,
    Other,
}

/// What the attributes say.
pub open spec fn attribute_views(attributes: Seq<XmlAttribute>) -> Seq<AttributeView> {
    attributes.map_values(|a: XmlAttribute| a@)
}

impl View for XmlEvent {
    type V = EventView;

    open spec fn view(&self) -> EventView {
        match self {
            XmlEvent::Start { name, attributes } => EventView::Start {
                name: name@,
                attributes: attribute_views(attributes@),
            },
            XmlEvent::Text(s) => EventView::Text(s@),
            XmlEvent::End => EventView::End,
            XmlEvent::Other => EventView::Other,
        }
    }
}

/// What an event says, or why there is none.
pub open spec fn event_view(e: Result<XmlEvent, String>) -> Result<EventView, Seq<char>> {
    match e {
        Ok(e) => Ok(e@),
        Err(s) => Err(s@),
    }
}

/// What `xml` meets in a document, up to its end or the first error, which is given by its message.
pub uninterp spec fn xml_events(bytes: Seq<u8>) -> Seq<Result<EventView, Seq<char>>>;

/// Trusted: `EventReader` of the `xml-rs` crate, created by `new` and iterated to its end. The events
/// are a function of the bytes, named [`xml_events`]. Of an element the name is kept as it is
/// displayed and of an attribute the local name; events other than elements and characters are kept
/// as such without what they hold.
#[verifier::external_body]
fn events_in(bytes: &[u8]) -> (r: Vec<Result<XmlEvent, String>>)
    ensures
        r@.map_values(|e: Result<XmlEvent, String>| event_view(e)) == xml_events(bytes@),
{
    let mut out = Vec::new();
    for e in EventReader::new(bytes) {
        out.push(match e {
            Ok(xml::reader::XmlEvent::StartElement { name, attributes, .. }) => Ok(XmlEvent::Start {
                name: name.to_string(),
                attributes: attributes.into_iter().map(|a| XmlAttribute { name: a.name.local_name, value: a.value }).collect(),
            }),
            Ok(xml::reader::XmlEvent::Characters(s)) => Ok(XmlEvent::Text(s)),
            Ok(xml::reader::XmlEvent::EndElement { .. }) => Ok(XmlEvent::End),
            Ok(_) => Ok(XmlEvent::Other),
            Err(e) => Err(e.to_string()),
        });
    }
    out
}

/// Why a document is no definition file.
#[derive(Debug, PartialEq)]
pub enum DefinitionError {
    /// An element of no known name.
    UnexpectedElement { name: String },
    /// An element that may not stand where it does.
    InvalidParent { parent: Option<MavXmlElement>, element: MavXmlElement },
    /// An attribute whose value is not of the form that it has to have.
    InvalidValue { element: MavXmlElement, attribute: String, value: String },
    /// Text that may not stand where it does.
    UnexpectedText { text: String },
    /// Text of a parameter that has no index.
    MissingIndex { text: String },
    /// Text of a parameter whose index leaves a gap, or is 0.
    InvalidIndex { index: usize, text: String },
}

/// What a [`DefinitionError`] says.
pub enum ErrorView {
    UnexpectedElement { name: Seq<char> },
    InvalidParent { parent: Option<MavXmlElement>, element: MavXmlElement },
    InvalidValue { element: MavXmlElement, attribute: Seq<char>, value: Seq<char> },
    UnexpectedText { text: Seq<char> },
    MissingIndex { text: Seq<char> },
    InvalidIndex { index: usize, text: Seq<char> },
}

impl View for DefinitionError {
    type V = ErrorView;

    open spec fn view(&self) -> ErrorView {
        match self {
            DefinitionError::UnexpectedElement { name } => ErrorView::UnexpectedElement {
                name: name@,
            },
            DefinitionError::InvalidParent { parent, element } => ErrorView::InvalidParent {
                parent: *parent,
                element: *element,
            },
            DefinitionError::InvalidValue { element, attribute, value } => ErrorView::InvalidValue {
                element: *element,
                attribute: attribute@,
                value: value@,
            },
            DefinitionError::UnexpectedText { text } => ErrorView::UnexpectedText { text: text@ },
            DefinitionError::MissingIndex { text } => ErrorView::MissingIndex { text: text@ },
            DefinitionError::InvalidIndex { index, text } => ErrorView::InvalidIndex {
                index: *index,
                text: text@,
            },
        }
    }
}

/// A definition file that is being read: the elements that are open, what was defined so far, and
/// what the elements last opened have told so far.
pub struct DefinitionReader {
    pub stack: Vec<MavXmlElement>,
    pub messages: Vec<MavMessage>,
    pub enums: Vec<MavEnum>,
    pub includes: Vec<String>,
    pub message: MavMessage,
    pub field: MavField,
    pub mavenum: MavEnum,
    pub entry: MavEnumEntry,
    pub paramid: Option<usize>,
}

/// What a [`DefinitionReader`] holds.
pub struct ReaderView {
    pub stack: Seq<MavXmlElement>,
    pub messages: Seq<MessageView>,
    pub enums: Seq<EnumView>,
    pub includes: Seq<Seq<char>>,
    pub message: MessageView,
    pub field: FieldView,
    pub mavenum: EnumView,
    pub entry: EntryView,
    pub paramid: Option<usize>,
}

impl View for DefinitionReader {
    type V = ReaderView;

    open spec fn view(&self) -> ReaderView {
        ReaderView {
            stack: self.stack@,
            messages: self.messages@.map_values(|m: MavMessage| m@),
            enums: self.enums@.map_values(|e: MavEnum| e@),
            includes: definitions::texts(self.includes@),
            message: self.message@,
            field: self.field@,
            mavenum: self.mavenum@,
            entry: self.entry@,
            paramid: self.paramid,
        }
    }
}

impl ReaderView {
    /// Nothing read yet.
    pub open spec fn fresh() -> ReaderView {
        ReaderView {
            stack: seq![],
            messages: seq![],
            enums: seq![],
            includes: seq![],
            message: MessageView::blank(),
            field: FieldView::blank(),
            mavenum: EnumView::blank(),
            entry: EntryView::blank(),
            paramid: None,
        }
    }

    /// The innermost open element.
    pub open spec fn top(self) -> Option<MavXmlElement> {
        if self.stack.len() > 0 {
            Some(self.stack.last())
        } else {
            None
        }
    }

    /// The element that the innermost open one stands within.
    pub open spec fn below(self) -> Option<MavXmlElement> {
        if self.stack.len() > 1 {
            Some(self.stack[self.stack.len() - 2])
        } else {
            None
        }
    }

    /// With an element opened, of which nothing has been told.
    pub open spec fn opened(self, element: MavXmlElement) -> ReaderView {
        let open = ReaderView { stack: self.stack.push(element), ..self };
        match element {
            MavXmlElement::Message => ReaderView { message: MessageView::blank(), ..open },
            MavXmlElement::Field => ReaderView { field: FieldView::blank(), ..open },
            MavXmlElement::Enum => ReaderView { mavenum: EnumView::blank(), ..open },
            MavXmlElement::Entry => ReaderView { entry: EntryView::blank(), ..open },
            MavXmlElement::Param => ReaderView { paramid: None, ..open },
            _ => open,
        }
    }

    /// After an attribute of an enumeration.
    pub open spec fn enum_attribute(self, a: AttributeView) -> Result<ReaderView, ErrorView> {
        if a.name == "name"@ {
            Ok(ReaderView { mavenum: EnumView { name: a.value, ..self.mavenum }, ..self })
        } else {
            Ok(self)
        }
    }

    /// After an attribute of an entry.
    pub open spec fn entry_attribute(self, a: AttributeView) -> Result<ReaderView, ErrorView> {
        if a.name == "name"@ {
            Ok(ReaderView { entry: EntryView { name: a.value, ..self.entry }, ..self })
        } else if a.name == "value"@ {
            match decimal::between(
                decimal::signed_number(a.value),
                i32::MIN as int,
                i32::MAX as int,
            ) {
                Some(n) => Ok(
                    ReaderView { entry: EntryView { value: n as i32, ..self.entry }, ..self },
                ),
                None => Err(
                    ErrorView::InvalidValue {
                        element: MavXmlElement::Entry,
                        attribute: a.name,
                        value: a.value,
                    },
                ),
            }
        } else {
            Ok(self)
        }
    }

    /// After an attribute of a message.
    pub open spec fn message_attribute(self, a: AttributeView) -> Result<ReaderView, ErrorView> {
        if a.name == "name"@ {
            Ok(ReaderView { message: MessageView { name: a.value, ..self.message }, ..self })
        } else if a.name == "id"@ {
            match decimal::between(decimal::unsigned_number(a.value), 0, u8::MAX as int) {
                Some(n) => Ok(
                    ReaderView { message: MessageView { id: n as u8, ..self.message }, ..self },
                ),
                None => Err(
                    ErrorView::InvalidValue {
                        element: MavXmlElement::Message,
                        attribute: a.name,
                        value: a.value,
                    },
                ),
            }
        } else {
            Ok(self)
        }
    }

    /// After an attribute of a field.
    pub open spec fn field_attribute(self, a: AttributeView) -> Result<ReaderView, ErrorView> {
        if a.name == "name"@ {
            Ok(ReaderView { field: FieldView { name: a.value, ..self.field }, ..self })
        } else if a.name == "type"@ {
            match definitions::type_of(a.value) {
                Some(mavtype) => Ok(
                    ReaderView { field: FieldView { mavtype, ..self.field }, ..self },
                ),
                None => Err(
                    ErrorView::InvalidValue {
                        element: MavXmlElement::Field,
                        attribute: a.name,
                        value: a.value,
                    },
                ),
            }
        } else if a.name == "enum"@ {
            Ok(ReaderView { field: FieldView { enumtype: Some(a.value), ..self.field }, ..self })
        } else {
            Ok(self)
        }
    }

    /// After an attribute of a parameter. The first one makes its entry one that has parameters.
    pub open spec fn param_attribute(self, a: AttributeView) -> Result<ReaderView, ErrorView> {
        let params = match self.entry.params {
            Some(list) => list,
            None => seq![],
        };
        let told = ReaderView { entry: EntryView { params: Some(params), ..self.entry }, ..self };
        if a.name == "index"@ {
            match decimal::between(decimal::unsigned_number(a.value), 0, usize::MAX as int) {
                Some(n) => Ok(ReaderView { paramid: Some(n as usize), ..told }),
                None => Err(
                    ErrorView::InvalidValue {
                        element: MavXmlElement::Param,
                        attribute: a.name,
                        value: a.value,
                    },
                ),
            }
        } else {
            Ok(told)
        }
    }

    /// After an attribute of an element.
    pub open spec fn attribute(self, element: MavXmlElement, a: AttributeView) -> Result<
        ReaderView,
        ErrorView,
    > {
        match element {
            MavXmlElement::Enum => self.enum_attribute(a),
            MavXmlElement::Entry => self.entry_attribute(a),
            MavXmlElement::Message => self.message_attribute(a),
            MavXmlElement::Field => self.field_attribute(a),
            MavXmlElement::Param => self.param_attribute(a),
            _ => Ok(self),
        }
    }

    /// After attributes of an element, up to the first that is in error.
    pub open spec fn attributes(self, element: MavXmlElement, list: Seq<AttributeView>) -> Result<
        ReaderView,
        ErrorView,
    >
        decreases list.len(),
    {
        if list.len() == 0 {
            Ok(self)
        } else {
            match self.attribute(element, list[0]) {
                Ok(next) => next.attributes(element, list.skip(1)),
                Err(e) => Err(e),
            }
        }
    }

    /// After the start of an element.
    pub open spec fn started(self, name: Seq<char>, list: Seq<AttributeView>) -> Result<
        ReaderView,
        ErrorView,
    > {
        match definitions::element_of(name) {
            None => Err(ErrorView::UnexpectedElement { name }),
            Some(element) => if !definitions::valid_parent(self.top(), element) {
                Err(ErrorView::InvalidParent { parent: self.top(), element })
            } else {
                self.opened(element).attributes(element, list)
            },
        }
    }

    /// After the text of a parameter: it is inserted at the place that its index says, if its entry
    /// is one that has parameters.
    pub open spec fn param_text(self, text: Seq<char>) -> Result<ReaderView, ErrorView> {
        match (self.entry.params, self.paramid) {
            (None, _) => Ok(self),
            (Some(_), None) => Err(ErrorView::MissingIndex { text }),
            (Some(list), Some(index)) => if 1 <= index <= list.len() + 1 {
                Ok(
                    ReaderView {
                        entry: EntryView {
                            params: Some(list.insert(index - 1, text)),
                            ..self.entry
                        },
                        ..self
                    },
                )
            } else {
                Err(ErrorView::InvalidIndex { index, text })
            },
        }
    }

    /// After text.
    pub open spec fn told(self, text: Seq<char>) -> Result<ReaderView, ErrorView> {
        match (self.top(), self.below()) {
            (Some(MavXmlElement::Description), Some(MavXmlElement::Message)) => Ok(
                ReaderView {
                    message: MessageView { description: Some(text), ..self.message },
                    ..self
                },
            ),
            (Some(MavXmlElement::Field), Some(MavXmlElement::Message)) => Ok(
                ReaderView { field: FieldView { description: Some(text), ..self.field }, ..self },
            ),
            (Some(MavXmlElement::Description), Some(MavXmlElement::Enum)) => Ok(
                ReaderView {
                    mavenum: EnumView { description: Some(text), ..self.mavenum },
                    ..self
                },
            ),
            (Some(MavXmlElement::Description), Some(MavXmlElement::Entry)) => Ok(
                ReaderView { entry: EntryView { description: Some(text), ..self.entry }, ..self },
            ),
            (Some(MavXmlElement::Param), Some(MavXmlElement::Entry)) => self.param_text(text),
            (Some(MavXmlElement::Include), Some(MavXmlElement::Mavlink)) => Ok(
                ReaderView { includes: self.includes.push(text), ..self },
            ),
            _ => Err(ErrorView::UnexpectedText { text }),
        }
    }

    /// After the end of the innermost open element: what it defines is defined.
    pub open spec fn ended(self) -> ReaderView {
        let stack = if self.stack.len() > 0 {
            self.stack.drop_last()
        } else {
            self.stack
        };
        let closed = ReaderView { stack, ..self };
        match self.top() {
            Some(MavXmlElement::Field) => ReaderView {
                message: MessageView {
                    fields: self.message.fields.push(self.field),
                    ..self.message
                },
                field: FieldView::blank(),
                ..closed
            },
            Some(MavXmlElement::Message) => ReaderView {
                messages: self.messages.push(self.message),
                message: MessageView::blank(),
                ..closed
            },
            Some(MavXmlElement::Entry) => ReaderView {
                mavenum: EnumView {
                    entries: self.mavenum.entries.push(self.entry),
                    ..self.mavenum
                },
                entry: EntryView::blank(),
                ..closed
            },
            Some(MavXmlElement::Enum) => ReaderView {
                enums: self.enums.push(self.mavenum),
                mavenum: EnumView::blank(),
                ..closed
            },
            Some(MavXmlElement::Param) => ReaderView { paramid: None, ..closed },
            _ => closed,
        }
    }

    /// After an event.
    pub open spec fn after(self, event: EventView) -> Result<ReaderView, ErrorView> {
        match event {
            EventView::Start { name, attributes } => self.started(name, attributes),
            EventView::Text(text) => self.told(text),
            EventView::End => Ok(self.ended()),
            EventView::Other => Ok(self),
        }
    }
}

/// What a result says.
pub open spec fn result_view(r: Result<DefinitionReader, DefinitionError>) -> Result<
    ReaderView,
    ErrorView,
> {
    match r {
        Ok(reader) => Ok(reader@),
        Err(e) => Err(e@),
    }
}

/// The error of an attribute's value.
fn invalid_value(element: MavXmlElement, a: XmlAttribute) -> (r: DefinitionError)
    ensures
        r@ == (ErrorView::InvalidValue { element, attribute: a@.name, value: a@.value }),
{
    DefinitionError::InvalidValue { element, attribute: a.name, value: a.value }
}

impl DefinitionReader {
    /// Nothing read yet.
    pub fn new() -> (r: DefinitionReader)
        ensures
            r@ == ReaderView::fresh(),
    {
        let r: DefinitionReader = DefinitionReader {
            stack: Vec::new(),
            messages: Vec::new(),
            enums: Vec::new(),
            includes: Vec::new(),
            message: MavMessage::default(),
            field: MavField::default(),
            mavenum: MavEnum::default(),
            entry: MavEnumEntry::default(),
            paramid: None,
        };
        assert(r@.messages =~= seq![]);
        assert(r@.enums =~= seq![]);
        assert(r@.includes =~= seq![]);
        r
    }

    /// The innermost open element.
    fn top(&self) -> (r: Option<MavXmlElement>)
        ensures
            r == self@.top(),
    {
        let n: usize = self.stack.len();
        if n > 0 {
            Some(self.stack[n - 1])
        } else {
            None
        }
    }

    /// The element that the innermost open one stands within.
    fn below(&self) -> (r: Option<MavXmlElement>)
        ensures
            r == self@.below(),
    {
        let n: usize = self.stack.len();
        if n > 1 {
            Some(self.stack[n - 2])
        } else {
            None
        }
    }

    /// Opens an element.
    fn open(self, element: MavXmlElement) -> (r: DefinitionReader)
        ensures
            r@ == self@.opened(element),
    {
        let mut r: DefinitionReader = self;
        match element {
            MavXmlElement::Message => {
                r.message = MavMessage::default();
            },
            MavXmlElement::Field => {
                r.field = MavField::default();
            },
            MavXmlElement::Enum => {
                r.mavenum = MavEnum::default();
            },
            MavXmlElement::Entry => {
                r.entry = MavEnumEntry::default();
            },
            MavXmlElement::Param => {
                r.paramid = None;
            },
            _ => {},
        }
        r.stack.push(element);
        r
    }

    /// Takes account of an attribute of an enumeration.
    fn enum_attribute(self, a: XmlAttribute) -> (r: Result<DefinitionReader, DefinitionError>)
        ensures
            result_view(r) == self@.enum_attribute(a@),
    {
        let mut r: DefinitionReader = self;
        if text::same_text(a.name.as_str(), "name") {
            r.mavenum.name = a.value;
        }
        Ok(r)
    }

    /// Takes account of an attribute of an entry.
    fn entry_attribute(self, a: XmlAttribute) -> (r: Result<DefinitionReader, DefinitionError>)
        ensures
            result_view(r) == self@.entry_attribute(a@),
    {
        let mut r: DefinitionReader = self;
        if text::same_text(a.name.as_str(), "name") {
            r.entry.name = a.value;
        } else if text::same_text(a.name.as_str(), "value") {
            match decimal::parse_i32(a.value.as_str()) {
                Some(n) => {
                    r.entry.value = n;
                },
                None => {
                    return Err(invalid_value(MavXmlElement::Entry, a));
                },
            }
        }
        Ok(r)
    }

    /// Takes account of an attribute of a message.
    fn message_attribute(self, a: XmlAttribute) -> (r: Result<DefinitionReader, DefinitionError>)
        ensures
            result_view(r) == self@.message_attribute(a@),
    {
        let mut r: DefinitionReader = self;
        if text::same_text(a.name.as_str(), "name") {
            r.message.name = a.value;
        } else if text::same_text(a.name.as_str(), "id") {
            match decimal::parse_u8(a.value.as_str()) {
                Some(n) => {
                    r.message.id = n;
                },
                None => {
                    return Err(invalid_value(MavXmlElement::Message, a));
                },
            }
        }
        Ok(r)
    }

    /// Takes account of an attribute of a field.
    fn field_attribute(self, a: XmlAttribute) -> (r: Result<DefinitionReader, DefinitionError>)
        ensures
            result_view(r) == self@.field_attribute(a@),
    {
        let mut r: DefinitionReader = self;
        if text::same_text(a.name.as_str(), "name") {
            r.field.name = a.value;
        } else if text::same_text(a.name.as_str(), "type") {
            match definitions::parse_type(a.value.as_str()) {
                Some(mavtype) => {
                    r.field.mavtype = mavtype;
                },
                None => {
                    return Err(invalid_value(MavXmlElement::Field, a));
                },
            }
        } else if text::same_text(a.name.as_str(), "enum") {
            r.field.enumtype = Some(a.value);
        }
        Ok(r)
    }

    /// Takes account of an attribute of a parameter.
    fn param_attribute(self, a: XmlAttribute) -> (r: Result<DefinitionReader, DefinitionError>)
        ensures
            result_view(r) == self@.param_attribute(a@),
    {
        let mut r: DefinitionReader = self;
        if r.entry.params.is_none() {
            let list: Vec<String> = Vec::new();
            assert(definitions::texts(list@) =~= seq![]);
            r.entry.params = Some(list);
        }
        if text::same_text(a.name.as_str(), "index") {
            match decimal::parse_usize(a.value.as_str()) {
                Some(n) => {
                    r.paramid = Some(n);
                },
                None => {
                    return Err(invalid_value(MavXmlElement::Param, a));
                },
            }
        }
        Ok(r)
    }

    /// Takes account of an attribute of an element.
    fn attribute(self, element: MavXmlElement, a: XmlAttribute) -> (r: Result<
        DefinitionReader,
        DefinitionError,
    >)
        ensures
            result_view(r) == self@.attribute(element, a@),
    {
        match element {
            MavXmlElement::Enum => self.enum_attribute(a),
            MavXmlElement::Entry => self.entry_attribute(a),
            MavXmlElement::Message => self.message_attribute(a),
            MavXmlElement::Field => self.field_attribute(a),
            MavXmlElement::Param => self.param_attribute(a),
            _ => Ok(self),
        }
    }

    /// Takes account of the start of an element.
    pub fn start(self, name: String, attributes: Vec<XmlAttribute>) -> (r: Result<
        DefinitionReader,
        DefinitionError,
    >)
        ensures
            result_view(r) == self@.started(name@, attribute_views(attributes@)),
    {
        let element: MavXmlElement = match definitions::identify_element(name.as_str()) {
            None => {
                return Err(DefinitionError::UnexpectedElement { name });
            },
            Some(element) => element,
        };
        let parent: Option<MavXmlElement> = self.top();
        if !definitions::is_valid_parent(parent, element) {
            return Err(DefinitionError::InvalidParent { parent, element });
        }
        let mut r: DefinitionReader = self.open(element);
        let ghost list = attribute_views(attributes@);
        let ghost whole = self@.started(name@, list);
        assert(list.skip(0) =~= list);
        for a in it: attributes
            invariant
                attribute_views(it.seq()) == list,
                list == attribute_views(attributes@),
                whole == self@.started(name@, list),
                r@.attributes(element, list.skip(it.index())) == whole,
        {
            let ghost i = it.index();
            assert(list.skip(i)[0] == a@);
            assert(list.skip(i).skip(1) =~= list.skip(i + 1));
            match r.attribute(element, a) {
                Ok(next) => {
                    r = next;
                },
                Err(e) => {
                    return Err(e);
                },
            }
        }
        Ok(r)
    }

    /// Takes account of the text of a parameter.
    fn param_text(self, text: String) -> (r: Result<DefinitionReader, DefinitionError>)
        ensures
            result_view(r) == self@.param_text(text@),
    {
        let mut r: DefinitionReader = self;
        let params: Option<Vec<String>> = r.entry.params.take();
        if let Some(list) = params {
            let mut list: Vec<String> = list;
            let ghost before = list@;
            let index: usize = match r.paramid {
                Some(index) => index,
                None => {
                    return Err(DefinitionError::MissingIndex { text });
                },
            };
            if index == 0 || index - 1 > list.len() {
                return Err(DefinitionError::InvalidIndex { index, text });
            }
            list.insert(index - 1, text);
            assert(definitions::texts(list@) =~= definitions::texts(before).insert(
                index - 1,
                text@,
            ));
            r.entry.params = Some(list);
        }
        Ok(r)
    }

    /// Takes account of text.
    pub fn text(self, text: String) -> (r: Result<DefinitionReader, DefinitionError>)
        ensures
            result_view(r) == self@.told(text@),
    {
        let mut r: DefinitionReader = self;
        match (r.top(), r.below()) {
            (Some(MavXmlElement::Description), Some(MavXmlElement::Message)) => {
                r.message.description = Some(text);
            },
            (Some(MavXmlElement::Field), Some(MavXmlElement::Message)) => {
                r.field.description = Some(text);
            },
            (Some(MavXmlElement::Description), Some(MavXmlElement::Enum)) => {
                r.mavenum.description = Some(text);
            },
            (Some(MavXmlElement::Description), Some(MavXmlElement::Entry)) => {
                r.entry.description = Some(text);
            },
            (Some(MavXmlElement::Param), Some(MavXmlElement::Entry)) => {
                return r.param_text(text);
            },
            (Some(MavXmlElement::Include), Some(MavXmlElement::Mavlink)) => {
                r.includes.push(text);
                assert(r@.includes =~= self@.includes.push(text@));
            },
            _ => {
                return Err(DefinitionError::UnexpectedText { text });
            },
        }
        Ok(r)
    }

    /// Takes account of the end of the innermost open element.
    pub fn end(self) -> (r: DefinitionReader)
        ensures
            r@ == self@.ended(),
    {
        let mut r: DefinitionReader = self;
        match r.top() {
            Some(MavXmlElement::Field) => {
                let mut field: MavField = MavField::default();
                std::mem::swap(&mut field, &mut r.field);
                r.message.fields.push(field);
                assert(r@.message.fields =~= self@.message.fields.push(self@.field));
            },
            Some(MavXmlElement::Message) => {
                let mut message: MavMessage = MavMessage::default();
                std::mem::swap(&mut message, &mut r.message);
                r.messages.push(message);
                assert(r@.messages =~= self@.messages.push(self@.message));
            },
            Some(MavXmlElement::Entry) => {
                let mut entry: MavEnumEntry = MavEnumEntry::default();
                std::mem::swap(&mut entry, &mut r.entry);
                r.mavenum.entries.push(entry);
                assert(r@.mavenum.entries =~= self@.mavenum.entries.push(self@.entry));
            },
            Some(MavXmlElement::Enum) => {
                let mut mavenum: MavEnum = MavEnum::default();
                std::mem::swap(&mut mavenum, &mut r.mavenum);
                r.enums.push(mavenum);
                assert(r@.enums =~= self@.enums.push(self@.mavenum));
            },
            Some(MavXmlElement::Param) => {
                r.paramid = None;
            },
            _ => {},
        }
        let _ = r.stack.pop();
        r
    }

    /// Takes account of an event.
    pub fn handle(self, event: XmlEvent) -> (r: Result<DefinitionReader, DefinitionError>)
        ensures
            result_view(r) == self@.after(event@),
    {
        match event {
            XmlEvent::Start { name, attributes } => self.start(name, attributes),
            XmlEvent::Text(text) => self.text(text),
            XmlEvent::End => Ok(self.end()),
            XmlEvent::Other => Ok(self),
        }
    }
}

/// What a definition file defines, and what ended its reading before its end, if anything did.
#[derive(Debug, PartialEq)]
pub struct Definitions {
    pub messages: Vec<MavMessage>,
    pub enums: Vec<MavEnum>,
    /// The definition files that it refers to.
    pub includes: Vec<String>,
    pub error: Option<String>,
}

/// What [`Definitions`] hold.
pub struct DefinitionsView {
    pub messages: Seq<MessageView>,
    pub enums: Seq<EnumView>,
    pub includes: Seq<Seq<char>>,
    pub error: Option<Seq<char>>,
}

impl View for Definitions {
    type V = DefinitionsView;

    open spec fn view(&self) -> DefinitionsView {
        DefinitionsView {
            messages: self.messages@.map_values(|m: MavMessage| m@),
            enums: self.enums@.map_values(|e: MavEnum| e@),
            includes: definitions::texts(self.includes@),
            error: definitions::text_view(self.error),
        }
    }
}

impl ReaderView {
    /// What was defined.
    pub open spec fn defined(self, error: Option<Seq<char>>) -> DefinitionsView {
        DefinitionsView {
            messages: self.messages,
            enums: self.enums,
            includes: self.includes,
            error,
        }
    }

    /// What is defined once the events are read, up to the first that is in error or is no event.
    pub open spec fn read(self, events: Seq<Result<EventView, Seq<char>>>) -> Result<
        DefinitionsView,
        ErrorView,
    >
        decreases events.len(),
    {
        if events.len() == 0 {
            Ok(self.defined(None))
        } else {
            match events[0] {
                Ok(event) => match self.after(event) {
                    Ok(next) => next.read(events.skip(1)),
                    Err(e) => Err(e),
                },
                Err(message) => Ok(self.defined(Some(message))),
            }
        }
    }
}

/// What a result says.
pub open spec fn definitions_view(r: Result<Definitions, DefinitionError>) -> Result<
    DefinitionsView,
    ErrorView,
> {
    match r {
        Ok(d) => Ok(d@),
        Err(e) => Err(e@),
    }
}

/// Reads a definition file from what is met in it.
pub fn read_events(events: Vec<Result<XmlEvent, String>>) -> (r: Result<
    Definitions,
    DefinitionError,
>)
    ensures
        definitions_view(r) == ReaderView::fresh().read(
            events@.map_values(|e: Result<XmlEvent, String>| event_view(e)),
        ),
{
    let mut reader: DefinitionReader = DefinitionReader::new();
    let ghost list = events@.map_values(|e: Result<XmlEvent, String>| event_view(e));
    assert(list.skip(0) =~= list);
    for e in it: events
        invariant
            it.seq().map_values(|e: Result<XmlEvent, String>| event_view(e)) == list,
            list == events@.map_values(|e: Result<XmlEvent, String>| event_view(e)),
            reader@.read(list.skip(it.index())) == ReaderView::fresh().read(list),
    {
        let ghost i = it.index();
        assert(list.skip(i)[0] == event_view(e));
        assert(list.skip(i).skip(1) =~= list.skip(i + 1));
        match e {
            Ok(event) => match reader.handle(event) {
                Ok(next) => {
                    reader = next;
                },
                Err(e) => {
                    return Err(e);
                },
            },
            Err(message) => {
                return Ok(
                    Definitions {
                        messages: reader.messages,
                        enums: reader.enums,
                        includes: reader.includes,
                        error: Some(message),
                    },
                );
            },
        }
    }
    Ok(
        Definitions {
            messages: reader.messages,
            enums: reader.enums,
            includes: reader.includes,
            error: None,
        },
    )
}

/// Reads a definition file.
pub fn read_definitions(bytes: &[u8]) -> (r: Result<Definitions, DefinitionError>)
    ensures
        definitions_view(r) == ReaderView::fresh().read(xml_events(bytes@)),
{
    read_events(events_in(bytes))
}

} // verus!
