//! What holds of the parts of a definition file: attributes, texts, and the ends of elements.
use vstd::prelude::*;

use crate::decimal;
use crate::definitions;
use crate::definitions::EntryView;
use crate::definitions::EnumView;
use crate::definitions::FieldView;
use crate::definitions::MavXmlElement;
use crate::definitions::MessageView;
use crate::reader;
use crate::reader::AttributeView;
use crate::reader::DefinitionError;
use crate::reader::DefinitionReader;
use crate::reader::Definitions;
use crate::reader::ErrorView;
use crate::reader::EventView;
use crate::reader::ReaderView;
use crate::reader::XmlAttribute;
use crate::reader::XmlEvent;

verus! {

/// The value of the last attribute of a name, if there is one.
pub open spec fn last_value(list: Seq<AttributeView>, name: Seq<char>) -> Option<Seq<char>>
    decreases list.len(),
{
    if list.len() == 0 {
        None
    } else {
        match last_value(list.skip(1), name) {
            Some(value) => Some(value),
            None => if list[0].name == name {
                Some(list[0].value)
            } else {
                None
            },
        }
    }
}

/// `last_value` is what its name says.
pub proof fn law_last_value(list: Seq<AttributeView>, name: Seq<char>, i: int)
    requires
        0 <= i < list.len(),
        list[i].name == name,
        forall|k: int| i < k < list.len() ==> (#[trigger] list[k]).name != name,
    ensures
        last_value(list, name) == Some(list[i].value),
    decreases list.len(),
{
    let rest = list.skip(1);
    if i > 0 {
        assert(rest[i - 1] == list[i]);
        assert forall|k: int| i - 1 < k < rest.len() implies (#[trigger] rest[k]).name != name by {
            assert(list[k + 1].name != name);
        }
        law_last_value(rest, name, i - 1);
    } else {
        assert forall|k: int| 0 <= k < rest.len() implies (#[trigger] rest[k]).name != name by {
            assert(list[k + 1].name != name);
        }
        law_no_value(rest, name);
    }
}

/// Where no attribute has the name, there is no last one.
pub proof fn law_no_value(list: Seq<AttributeView>, name: Seq<char>)
    requires
        forall|k: int| 0 <= k < list.len() ==> (#[trigger] list[k]).name != name,
    ensures
        last_value(list, name) is None,
    decreases list.len(),
{
    if list.len() > 0 {
        let rest = list.skip(1);
        assert(list[0].name != name);
        assert forall|k: int| 0 <= k < rest.len() implies (#[trigger] rest[k]).name != name by {
            assert(list[k + 1].name != name);
        }
        law_no_value(rest, name);
    }
}

/// The names of attributes differ.
proof fn lemma_attribute_names()
    ensures
        "name"@ != "value"@,
        "name"@ != "id"@,
        "name"@ != "type"@,
        "name"@ != "enum"@,
        "type"@ != "enum"@,
{
    reveal_strlit("name");
    reveal_strlit("value");
    reveal_strlit("id");
    reveal_strlit("type");
    reveal_strlit("enum");
    assert("name"@[0] == 'n' && "value"@[0] == 'v' && "id"@[0] == 'i' && "type"@[0] == 't'
        && "enum"@[0] == 'e');
}

/// Whether the value of an attribute has the form that it has to have in its element.
pub open spec fn well_valued(element: MavXmlElement, a: AttributeView) -> bool {
    &&& element is Entry && a.name == "value"@ ==> (decimal::signed_number(a.value) matches Some(n)
        && -0x8000_0000 <= n <= 0x7fff_ffff)
    &&& element is Message && a.name == "id"@ ==> (decimal::unsigned_number(a.value) matches Some(n)
        && 0 <= n <= 255)
    &&& element is Field && a.name == "type"@ ==> definitions::type_of(a.value) is Some
    &&& element is Param && a.name == "index"@ ==> (decimal::unsigned_number(
        a.value,
    ) matches Some(n) && 0 <= n <= usize::MAX)
}

/// Attributes are read if and only if each has a value of the form that it has to have. The first that
/// has not is the error.
pub proof fn law_attributes_have_to_be_well_valued(
    s: ReaderView,
    element: MavXmlElement,
    list: Seq<AttributeView>,
)
    ensures
        s.attributes(element, list) is Ok <==> (forall|i: int|
            0 <= i < list.len() ==> well_valued(element, #[trigger] list[i])),
        forall|i: int|
            #![trigger list[i]]
            0 <= i < list.len() && !well_valued(element, list[i]) && (forall|k: int|
                0 <= k < i ==> well_valued(element, #[trigger] list[k])) ==> s.attributes(
                element,
                list,
            ) == Err::<ReaderView, ErrorView>(
                ErrorView::InvalidValue {
                    element,
                    attribute: list[i].name,
                    value: list[i].value,
                },
            ),
    decreases list.len(),
{
    if list.len() > 0 {
        let a = list[0];
        let rest = list.skip(1);
        let one = s.attribute(element, a);
        lemma_attribute_names();
        assert(one is Ok <==> well_valued(element, a));
        if let Ok(next) = one {
            law_attributes_have_to_be_well_valued(next, element, rest);
            assert forall|i: int| 0 <= i < rest.len() implies rest[i] == #[trigger] list[i + 1] by {}
            if forall|i: int| 0 <= i < rest.len() ==> well_valued(element, #[trigger] rest[i]) {
                assert forall|i: int| 0 <= i < list.len() implies well_valued(
                    element,
                    #[trigger] list[i],
                ) by {
                    if i > 0 {
                        assert(well_valued(element, rest[i - 1]));
                    }
                }
            }
            if forall|i: int| 0 <= i < list.len() ==> well_valued(element, #[trigger] list[i]) {
                assert forall|i: int| 0 <= i < rest.len() implies well_valued(
                    element,
                    #[trigger] rest[i],
                ) by {
                    assert(well_valued(element, list[i + 1]));
                }
            }
            assert forall|i: int|
                #![trigger list[i]]
                0 <= i < list.len() && !well_valued(element, list[i]) && (forall|k: int|
                    0 <= k < i ==> well_valued(element, #[trigger] list[k])) implies s.attributes(
                element,
                list,
            ) == Err::<ReaderView, ErrorView>(
                ErrorView::InvalidValue {
                    element,
                    attribute: list[i].name,
                    value: list[i].value,
                },
            ) by {
                assert(i > 0);
                assert(rest[i - 1] == list[i]);
                assert forall|k: int| 0 <= k < i - 1 implies well_valued(
                    element,
                    #[trigger] rest[k],
                ) by {
                    assert(well_valued(element, list[k + 1]));
                }
            }
        } else {
            assert(!well_valued(element, list[0]));
        }
    }
}

/// Of the attributes of an entry the last name is its name and the last value its value, wherever they
/// stand and whatever stands between. Nothing else changes.
pub proof fn law_entry_attributes_set_their_parts(s: ReaderView, list: Seq<AttributeView>)
    ensures
        s.attributes(MavXmlElement::Entry, list) matches Ok(t) ==> {
            &&& t.entry.name == (match last_value(list, "name"@) {
                Some(value) => value,
                None => s.entry.name,
            })
            &&& match last_value(list, "value"@) {
                Some(value) => decimal::signed_number(value) == Some(t.entry.value as int),
                None => t.entry.value == s.entry.value,
            }
            &&& t.entry.description == s.entry.description
            &&& t.entry.params == s.entry.params
            &&& t.stack == s.stack
            &&& t.messages == s.messages
            &&& t.enums == s.enums
            &&& t.includes == s.includes
            &&& t.message == s.message
            &&& t.field == s.field
            &&& t.mavenum == s.mavenum
            &&& t.paramid == s.paramid
        },
    decreases list.len(),
{
    lemma_attribute_names();
    if list.len() > 0 {
        if let Ok(next) = s.attribute(MavXmlElement::Entry, list[0]) {
            law_entry_attributes_set_their_parts(next, list.skip(1));
        }
    }
}

/// Of the attributes of a message the last name is its name and the last id its id, wherever they stand
/// and whatever stands between. Nothing else changes.
pub proof fn law_message_attributes_set_their_parts(s: ReaderView, list: Seq<AttributeView>)
    ensures
        s.attributes(MavXmlElement::Message, list) matches Ok(t) ==> {
            &&& t.message.name == (match last_value(list, "name"@) {
                Some(value) => value,
                None => s.message.name,
            })
            &&& match last_value(list, "id"@) {
                Some(value) => decimal::unsigned_number(value) == Some(t.message.id as int),
                None => t.message.id == s.message.id,
            }
            &&& t.message.description == s.message.description
            &&& t.message.fields == s.message.fields
            &&& t.stack == s.stack
            &&& t.messages == s.messages
            &&& t.enums == s.enums
            &&& t.includes == s.includes
            &&& t.field == s.field
            &&& t.mavenum == s.mavenum
            &&& t.entry == s.entry
            &&& t.paramid == s.paramid
        },
    decreases list.len(),
{
    lemma_attribute_names();
    if list.len() > 0 {
        if let Ok(next) = s.attribute(MavXmlElement::Message, list[0]) {
            law_message_attributes_set_their_parts(next, list.skip(1));
        }
    }
}

/// Of the attributes of a field the last name is its name, the last type its type and the last
/// enumeration its enumeration, wherever they stand and whatever stands between. Nothing else changes.
pub proof fn law_field_attributes_set_their_parts(s: ReaderView, list: Seq<AttributeView>)
    ensures
        s.attributes(MavXmlElement::Field, list) matches Ok(t) ==> {
            &&& t.field.name == (match last_value(list, "name"@) {
                Some(value) => value,
                None => s.field.name,
            })
            &&& match last_value(list, "type"@) {
                Some(value) => definitions::type_of(value) == Some(t.field.mavtype),
                None => t.field.mavtype == s.field.mavtype,
            }
            &&& t.field.enumtype == (match last_value(list, "enum"@) {
                Some(value) => Some(value),
                None => s.field.enumtype,
            })
            &&& t.field.description == s.field.description
            &&& t.stack == s.stack
            &&& t.messages == s.messages
            &&& t.enums == s.enums
            &&& t.includes == s.includes
            &&& t.message == s.message
            &&& t.mavenum == s.mavenum
            &&& t.entry == s.entry
            &&& t.paramid == s.paramid
        },
    decreases list.len(),
{
    lemma_attribute_names();
    if list.len() > 0 {
        if let Ok(next) = s.attribute(MavXmlElement::Field, list[0]) {
            law_field_attributes_set_their_parts(next, list.skip(1));
        }
    }
}

/// Of the attributes of an enumeration the last name is its name, wherever it stands. Nothing else
/// changes.
pub proof fn law_enum_attributes_set_their_parts(s: ReaderView, list: Seq<AttributeView>)
    ensures
        s.attributes(MavXmlElement::Enum, list) matches Ok(t) ==> {
            &&& t.mavenum.name == (match last_value(list, "name"@) {
                Some(value) => value,
                None => s.mavenum.name,
            })
            &&& t.mavenum.description == s.mavenum.description
            &&& t.mavenum.entries == s.mavenum.entries
            &&& t.stack == s.stack
            &&& t.messages == s.messages
            &&& t.enums == s.enums
            &&& t.includes == s.includes
            &&& t.message == s.message
            &&& t.field == s.field
            &&& t.entry == s.entry
            &&& t.paramid == s.paramid
        },
    decreases list.len(),
{
    lemma_attribute_names();
    if list.len() > 0 {
        if let Ok(next) = s.attribute(MavXmlElement::Enum, list[0]) {
            law_enum_attributes_set_their_parts(next, list.skip(1));
        }
    }
}

/// Of the attributes of a parameter the last index is its index, wherever it stands. Any attribute makes
/// its entry one that has parameters, and those that it has are kept. Nothing else changes.
pub proof fn law_param_attributes_set_their_parts(s: ReaderView, list: Seq<AttributeView>)
    ensures
        s.attributes(MavXmlElement::Param, list) matches Ok(t) ==> {
            &&& match last_value(list, "index"@) {
                Some(value) => t.paramid matches Some(n) && decimal::unsigned_number(value) == Some(
                    n as int,
                ),
                None => t.paramid == s.paramid,
            }
            &&& s.entry.params is Some || list.len() == 0 ==> t.entry.params == s.entry.params
            &&& s.entry.params is None && list.len() > 0 ==> t.entry.params == Some(
                Seq::<Seq<char>>::empty(),
            )
            &&& t.entry.value == s.entry.value
            &&& t.entry.name == s.entry.name
            &&& t.entry.description == s.entry.description
            &&& t.stack == s.stack
            &&& t.messages == s.messages
            &&& t.enums == s.enums
            &&& t.includes == s.includes
            &&& t.message == s.message
            &&& t.field == s.field
            &&& t.mavenum == s.mavenum
        },
    decreases list.len(),
{
    if list.len() > 0 {
        if let Ok(next) = s.attribute(MavXmlElement::Param, list[0]) {
            law_param_attributes_set_their_parts(next, list.skip(1));
        }
    }
}

/// Elements other than these have no attributes that matter.
pub proof fn law_other_elements_have_no_attributes(
    s: ReaderView,
    element: MavXmlElement,
    list: Seq<AttributeView>,
)
    requires
        element is Mavlink || element is Include || element is Enums || element is Messages
            || element is Description,
    ensures
        s.attributes(element, list) == Ok::<ReaderView, ErrorView>(s),
    decreases list.len(),
{
    if list.len() > 0 {
        law_other_elements_have_no_attributes(s, element, list.skip(1));
    }
}

/// Attributes in two goes are all of them.
proof fn lemma_attributes_in_parts(
    s: ReaderView,
    element: MavXmlElement,
    first: Seq<AttributeView>,
    second: Seq<AttributeView>,
)
    ensures
        s.attributes(element, first + second) == (match s.attributes(element, first) {
            Ok(t) => t.attributes(element, second),
            Err(e) => Err(e),
        }),
    decreases first.len(),
{
    if first.len() == 0 {
        assert(first + second =~= second);
    } else {
        assert((first + second)[0] == first[0]);
        assert((first + second).skip(1) =~= first.skip(1) + second);
        if let Ok(next) = s.attribute(element, first[0]) {
            lemma_attributes_in_parts(next, element, first.skip(1), second);
        }
    }
}

/// The order of two attributes of different names does not matter, in any element and whatever stands
/// before and behind them.
pub proof fn law_order_of_attributes_does_not_matter(
    s: ReaderView,
    element: MavXmlElement,
    before: Seq<AttributeView>,
    x: AttributeView,
    y: AttributeView,
    behind: Seq<AttributeView>,
)
    requires
        x.name != y.name,
        s.attributes(element, before + seq![x, y] + behind) is Ok,
    ensures
        s.attributes(element, before + seq![y, x] + behind) == s.attributes(
            element,
            before + seq![x, y] + behind,
        ),
{
    lemma_attribute_names();
    let t = s.attributes(element, before)->Ok_0;
    lemma_attributes_in_parts(s, element, before, seq![x, y]);
    lemma_attributes_in_parts(s, element, before, seq![y, x]);
    lemma_attributes_in_parts(s, element, before + seq![x, y], behind);
    lemma_attributes_in_parts(s, element, before + seq![y, x], behind);
    reveal_with_fuel(ReaderView::attributes, 3);
    assert(seq![x, y].skip(1) =~= seq![y]);
    assert(seq![y, x].skip(1) =~= seq![x]);
    assert(seq![x].skip(1) =~= seq![]);
    assert(seq![y].skip(1) =~= seq![]);
    assert(t.attributes(element, seq![y, x]) == t.attributes(element, seq![x, y]));
}

/// To open an element puts it on top of those that are open, and begins anew what is told of it. What
/// is told of others stays.
pub proof fn law_opening_begins_anew(s: ReaderView, element: MavXmlElement)
    ensures
        ({
            let t = s.opened(element);
            &&& t.stack == s.stack + seq![element]
            &&& t.messages == s.messages
            &&& t.enums == s.enums
            &&& t.includes == s.includes
            &&& t.message == (if element is Message {
                MessageView { id: 0, name: seq![], description: None, fields: seq![] }
            } else {
                s.message
            })
            &&& t.field == (if element is Field {
                FieldView {
                    mavtype: definitions::MavType::UInt8,
                    name: seq![],
                    description: None,
                    enumtype: None,
                }
            } else {
                s.field
            })
            &&& t.mavenum == (if element is Enum {
                EnumView { name: seq![], description: None, entries: seq![] }
            } else {
                s.mavenum
            })
            &&& t.entry == (if element is Entry {
                EntryView { value: 0, name: seq![], description: None, params: None }
            } else {
                s.entry
            })
            &&& t.paramid == (if element is Param {
                None
            } else {
                s.paramid
            })
        }),
{
    assert(s.stack.push(element) =~= s.stack + seq![element]);
}

/// An element is refused if its name is not known or if it may not stand within the innermost open
/// one. Any other is opened, and then its attributes are read.
pub proof fn law_start_is_refused_or_opens(
    s: ReaderView,
    name: Seq<char>,
    list: Seq<AttributeView>,
)
    ensures
        ({
            let parent = if s.stack.len() == 0 {
                None
            } else {
                Some(s.stack[s.stack.len() - 1])
            };
            match definitions::element_of(name) {
                None => s.started(name, list) == Err::<ReaderView, ErrorView>(
                    ErrorView::UnexpectedElement { name },
                ),
                Some(element) => if definitions::valid_parent(parent, element) {
                    s.started(name, list) == s.opened(element).attributes(element, list)
                } else {
                    s.started(name, list) == Err::<ReaderView, ErrorView>(
                        ErrorView::InvalidParent { parent, element },
                    )
                },
            }
        }),
{
}

/// Text goes to the element that it stands in: descriptions to their message, enumeration or entry, the
/// text of a field to the field, that of a reference to the list of them. Nothing else changes.
pub proof fn law_text_goes_to_its_element(s: ReaderView, text: Seq<char>)
    ensures
        ({
            let n = s.stack.len() as int;
            let within = |inner: MavXmlElement, outer: MavXmlElement|
                n >= 2 && s.stack[n - 1] == inner && s.stack[n - 2] == outer;
            let r = s.told(text);
            &&& within(MavXmlElement::Description, MavXmlElement::Message) ==> (r matches Ok(t) && {
                &&& t.message.description == Some(text)
                &&& t.message.id == s.message.id
                &&& t.message.name == s.message.name
                &&& t.message.fields == s.message.fields
                &&& t.stack == s.stack
                &&& t.messages == s.messages
                &&& t.enums == s.enums
                &&& t.includes == s.includes
                &&& t.field == s.field
                &&& t.mavenum == s.mavenum
                &&& t.entry == s.entry
                &&& t.paramid == s.paramid
            })
            &&& within(MavXmlElement::Field, MavXmlElement::Message) ==> (r matches Ok(t) && {
                &&& t.field.description == Some(text)
                &&& t.field.mavtype == s.field.mavtype
                &&& t.field.name == s.field.name
                &&& t.field.enumtype == s.field.enumtype
                &&& t.stack == s.stack
                &&& t.messages == s.messages
                &&& t.enums == s.enums
                &&& t.includes == s.includes
                &&& t.message == s.message
                &&& t.mavenum == s.mavenum
                &&& t.entry == s.entry
                &&& t.paramid == s.paramid
            })
            &&& within(MavXmlElement::Description, MavXmlElement::Enum) ==> (r matches Ok(t) && {
                &&& t.mavenum.description == Some(text)
                &&& t.mavenum.name == s.mavenum.name
                &&& t.mavenum.entries == s.mavenum.entries
                &&& t.stack == s.stack
                &&& t.messages == s.messages
                &&& t.enums == s.enums
                &&& t.includes == s.includes
                &&& t.message == s.message
                &&& t.field == s.field
                &&& t.entry == s.entry
                &&& t.paramid == s.paramid
            })
            &&& within(MavXmlElement::Description, MavXmlElement::Entry) ==> (r matches Ok(t) && {
                &&& t.entry.description == Some(text)
                &&& t.entry.value == s.entry.value
                &&& t.entry.name == s.entry.name
                &&& t.entry.params == s.entry.params
                &&& t.stack == s.stack
                &&& t.messages == s.messages
                &&& t.enums == s.enums
                &&& t.includes == s.includes
                &&& t.message == s.message
                &&& t.field == s.field
                &&& t.mavenum == s.mavenum
                &&& t.paramid == s.paramid
            })
            &&& within(MavXmlElement::Include, MavXmlElement::Mavlink) ==> (r matches Ok(t) && {
                &&& t.includes == s.includes + seq![text]
                &&& t.stack == s.stack
                &&& t.messages == s.messages
                &&& t.enums == s.enums
                &&& t.message == s.message
                &&& t.field == s.field
                &&& t.mavenum == s.mavenum
                &&& t.entry == s.entry
                &&& t.paramid == s.paramid
            })
            &&& !within(MavXmlElement::Description, MavXmlElement::Message) && !within(
                MavXmlElement::Field,
                MavXmlElement::Message,
            ) && !within(MavXmlElement::Description, MavXmlElement::Enum) && !within(
                MavXmlElement::Description,
                MavXmlElement::Entry,
            ) && !within(MavXmlElement::Include, MavXmlElement::Mavlink) && !within(
                MavXmlElement::Param,
                MavXmlElement::Entry,
            ) ==> r == Err::<ReaderView, ErrorView>(ErrorView::UnexpectedText { text })
        }),
{
    assert(s.includes.push(text) =~= s.includes + seq![text]);
}

/// The text of a parameter goes to the place in its entry that its index says, counted from 1; those
/// from that place on move up by one. Without an index, or with one that leaves a gap, it is refused;
/// in an entry that has no parameters it is dropped.
pub proof fn law_parameter_text_goes_to_its_place(s: ReaderView, text: Seq<char>)
    requires
        s.stack.len() >= 2,
        s.stack[s.stack.len() - 1] is Param,
        s.stack[s.stack.len() - 2] is Entry,
    ensures
        ({
            let r = s.told(text);
            match s.entry.params {
                None => r == Ok::<ReaderView, ErrorView>(s),
                Some(list) => match s.paramid {
                    None => r == Err::<ReaderView, ErrorView>(ErrorView::MissingIndex { text }),
                    Some(index) => if index == 0 || index > list.len() + 1 {
                        r == Err::<ReaderView, ErrorView>(ErrorView::InvalidIndex { index, text })
                    } else {
                        &&& r matches Ok(t)
                        &&& t.entry.params == Some(
                            list.take(index - 1) + seq![text] + list.skip(index - 1),
                        )
                        &&& t.entry.value == s.entry.value
                        &&& t.entry.name == s.entry.name
                        &&& t.entry.description == s.entry.description
                        &&& t.stack == s.stack
                        &&& t.messages == s.messages
                        &&& t.enums == s.enums
                        &&& t.includes == s.includes
                        &&& t.message == s.message
                        &&& t.field == s.field
                        &&& t.mavenum == s.mavenum
                        &&& t.paramid == s.paramid
                    },
                },
            }
        }),
{
    if let Some(list) = s.entry.params {
        if let Some(index) = s.paramid {
            if 1 <= index <= list.len() + 1 {
                assert(list.insert(index - 1, text) =~= list.take(index - 1) + seq![text]
                    + list.skip(index - 1));
            }
        }
    }
}

/// The end of an element closes the innermost open one. What was told of a field goes to its message
/// behind the others, that of an entry to its enumeration, and those of a message and an enumeration to
/// what is defined. Nothing that was told before is changed.
pub proof fn law_end_defines(s: ReaderView, init: Seq<MavXmlElement>, element: MavXmlElement)
    requires
        s.stack == init + seq![element],
    ensures
        ({
            let t = s.ended();
            &&& t.stack == init
            &&& t.includes == s.includes
            &&& t.messages == (if element is Message {
                s.messages + seq![s.message]
            } else {
                s.messages
            })
            &&& t.enums == (if element is Enum {
                s.enums + seq![s.mavenum]
            } else {
                s.enums
            })
            &&& element is Field ==> {
                &&& t.message.fields == s.message.fields + seq![s.field]
                &&& t.message.id == s.message.id
                &&& t.message.name == s.message.name
                &&& t.message.description == s.message.description
            }
            &&& element is Entry ==> {
                &&& t.mavenum.entries == s.mavenum.entries + seq![s.entry]
                &&& t.mavenum.name == s.mavenum.name
                &&& t.mavenum.description == s.mavenum.description
            }
            &&& !(element is Field || element is Message) ==> t.message == s.message
            &&& !(element is Entry || element is Enum) ==> t.mavenum == s.mavenum
            &&& !(element is Field) ==> t.field == s.field
            &&& !(element is Entry) ==> t.entry == s.entry
            &&& !(element is Param) ==> t.paramid == s.paramid
        }),
{
    assert(s.stack.last() == element);
    assert(s.stack.drop_last() =~= init);
    assert(s.messages.push(s.message) =~= s.messages + seq![s.message]);
    assert(s.enums.push(s.mavenum) =~= s.enums + seq![s.mavenum]);
    assert(s.message.fields.push(s.field) =~= s.message.fields + seq![s.field]);
    assert(s.mavenum.entries.push(s.entry) =~= s.mavenum.entries + seq![s.entry]);
}

/// Each event does what it stands for, and one that stands for nothing changes nothing. An end with no
/// element open changes nothing either.
pub proof fn law_events_do_what_they_stand_for(
    s: ReaderView,
    name: Seq<char>,
    list: Seq<AttributeView>,
    text: Seq<char>,
)
    ensures
        s.after(EventView::Start { name, attributes: list }) == s.started(name, list),
        s.after(EventView::Text(text)) == s.told(text),
        s.after(EventView::End) == Ok::<ReaderView, ErrorView>(s.ended()),
        s.after(EventView::Other) == Ok::<ReaderView, ErrorView>(s),
        s.stack.len() == 0 ==> s.ended() == s,
{
}

/// What a file defines is what has been read of it.
pub proof fn law_what_is_read_is_defined(s: ReaderView, error: Option<Seq<char>>)
    ensures
        s.defined(error).messages == s.messages,
        s.defined(error).enums == s.enums,
        s.defined(error).includes == s.includes,
        s.defined(error).error == error,
        s.read(seq![]) == Ok::<reader::DefinitionsView, ErrorView>(s.defined(None)),
{
}

/// Reading begins with nothing open and nothing told.
pub proof fn law_reading_begins_with_nothing()
    ensures
        ({
            let s = ReaderView::fresh();
            &&& s.stack.len() == 0
            &&& s.messages.len() == 0
            &&& s.enums.len() == 0
            &&& s.includes.len() == 0
            &&& s.paramid is None
        }),
{
}

/// The innermost open element is the one opened last, and the one that it stands within the one opened
/// before it.
pub proof fn law_innermost_elements(
    s: ReaderView,
    init: Seq<MavXmlElement>,
    outer: MavXmlElement,
    inner: MavXmlElement,
)
    ensures
        s.stack == init + seq![outer, inner] ==> s.top() == Some(inner) && s.below() == Some(outer),
        s.stack == seq![inner] ==> s.top() == Some(inner) && s.below() is None,
        s.stack.len() == 0 ==> s.top() is None && s.below() is None,
{
}

/// What is said of a reader, of events, of errors and of definitions is what they hold.
pub proof fn law_reader_views_hold_the_fields(
    r: DefinitionReader,
    d: Definitions,
    a: XmlAttribute,
    list: Seq<XmlAttribute>,
    event: XmlEvent,
    message: String,
    i: int,
)
    ensures
        r@.stack == r.stack@,
        r@.messages.len() == r.messages@.len(),
        0 <= i < r.messages@.len() ==> r@.messages[i] == r.messages@[i]@,
        r@.enums.len() == r.enums@.len(),
        0 <= i < r.enums@.len() ==> r@.enums[i] == r.enums@[i]@,
        r@.includes == definitions::texts(r.includes@),
        r@.message == r.message@,
        r@.field == r.field@,
        r@.mavenum == r.mavenum@,
        r@.entry == r.entry@,
        r@.paramid == r.paramid,
        reader::result_view(Ok(r)) == Ok::<ReaderView, ErrorView>(r@),
        d@.messages.len() == d.messages@.len(),
        0 <= i < d.messages@.len() ==> d@.messages[i] == d.messages@[i]@,
        d@.enums.len() == d.enums@.len(),
        0 <= i < d.enums@.len() ==> d@.enums[i] == d.enums@[i]@,
        d@.includes == definitions::texts(d.includes@),
        d.error matches Some(e) ==> d@.error == Some(e@),
        d.error is None ==> d@.error is None,
        reader::definitions_view(Ok(d)) == Ok::<reader::DefinitionsView, ErrorView>(d@),
        a@.name == a.name@,
        a@.value == a.value@,
        reader::attribute_views(list).len() == list.len(),
        0 <= i < list.len() ==> reader::attribute_views(list)[i] == list[i]@,
        event matches XmlEvent::Start { name, attributes } ==> event@ == (EventView::Start {
            name: name@,
            attributes: reader::attribute_views(attributes@),
        }),
        event matches XmlEvent::Text(text) ==> event@ == EventView::Text(text@),
        event is End <==> event@ is End,
        event is Other <==> event@ is Other,
        reader::event_view(Ok(event)) == Ok::<EventView, Seq<char>>(event@),
        reader::event_view(Err(message)) == Err::<EventView, Seq<char>>(message@),
{
}

/// What is said of an error is what it holds.
pub proof fn law_error_view_holds_the_fields(e: DefinitionError)
    ensures
        reader::result_view(Err(e)) == Err::<ReaderView, ErrorView>(e@),
        reader::definitions_view(Err(e)) == Err::<reader::DefinitionsView, ErrorView>(e@),
        e matches DefinitionError::UnexpectedElement { name } ==> e@ == (
        ErrorView::UnexpectedElement { name: name@ }),
        e matches DefinitionError::InvalidParent { parent, element } ==> e@ == (
        ErrorView::InvalidParent { parent, element }),
        e matches DefinitionError::InvalidValue { element, attribute, value } ==> e@ == (
        ErrorView::InvalidValue { element, attribute: attribute@, value: value@ }),
        e matches DefinitionError::UnexpectedText { text } ==> e@ == (ErrorView::UnexpectedText {
            text: text@,
        }),
        e matches DefinitionError::MissingIndex { text } ==> e@ == (ErrorView::MissingIndex {
            text: text@,
        }),
        e matches DefinitionError::InvalidIndex { index, text } ==> e@ == (
        ErrorView::InvalidIndex { index, text: text@ }),
{
}

} // verus!
