//! What a MAVLink definition file defines: enumerations and messages, and the elements that they are
//! written down with.
use vstd::prelude::*;

use crate::decimal;
use crate::text;

verus! {

/// `size` levels of indentation, four spaces each.
pub fn indent(size: usize) -> (r: String)
    requires
        size * 4 <= isize::MAX,
    ensures
        r@ == Seq::new((size * 4) as nat, |i: int| ' '),
{
    let mut r: String = String::new();
    let mut i: usize = 0;
    while i < size
        invariant
            i <= size,
            r@ == Seq::new((i * 4) as nat, |k: int| ' '),
        decreases size - i,
    {
        proof {
            reveal_strlit("    ");
        }
        r.append("    ");
        i = i + 1;
    }
    r
}

/// The text, if there is one.
pub open spec fn text_view(text: Option<String>) -> Option<Seq<char>> {
    match text {
        Some(s) => Some(s@),
        None => None,
    }
}

/// The texts of a list.
pub open spec fn texts(list: Seq<String>) -> Seq<Seq<char>> {
    list.map_values(|s: String| s@)
}

/// An enumeration.
#[derive(Debug, PartialEq, Clone)]
pub struct MavEnum {
    pub name: String,
    pub description: Option<String>,
    pub entries: Vec<MavEnumEntry>,
}

/// What a [`MavEnum`] says.
pub struct EnumView {
    pub name: Seq<char>,
    pub description: Option<Seq<char>>,
    pub entries: Seq<EntryView>,
}

impl View for MavEnum {
    type V = EnumView;

    open spec fn view(&self) -> EnumView {
        EnumView {
            name: self.name@,
            description: text_view(self.description),
            entries: self.entries@.map_values(|e: MavEnumEntry| e@),
        }
    }
}

impl EnumView {
    /// An enumeration without a name or entries.
    pub open spec fn blank() -> EnumView {
        EnumView { name: seq![], description: None, entries: seq![] }
    }
}

impl Default for MavEnum {
    fn default() -> (r: MavEnum)
        ensures
            r@ == EnumView::blank(),
    {
        let r: MavEnum = MavEnum {
            name: String::new(),
            description: None,
            entries: Vec::new(),
        };
        assert(r@.entries =~= seq![]);
        r
    }
}

/// An entry of an enumeration.
#[derive(Debug, PartialEq, Clone)]
pub struct MavEnumEntry {
    pub value: i32,
    pub name: String,
    pub description: Option<String>,
    pub params: Option<Vec<String>>,
}

/// What a [`MavEnumEntry`] says.
pub struct EntryView {
    pub value: i32,
    pub name: Seq<char>,
    pub description: Option<Seq<char>>,
    pub params: Option<Seq<Seq<char>>>,
}

impl View for MavEnumEntry {
    type V = EntryView;

    open spec fn view(&self) -> EntryView {
        EntryView {
            value: self.value,
            name: self.name@,
            description: text_view(self.description),
            params: match self.params {
                Some(list) => Some(texts(list@)),
                None => None,
            },
        }
    }
}

impl EntryView {
    /// An entry of value 0 without a name.
    pub open spec fn blank() -> EntryView {
        EntryView { value: 0, name: seq![], description: None, params: None }
    }
}

impl Default for MavEnumEntry {
    fn default() -> (r: MavEnumEntry)
        ensures
            r@ == EntryView::blank(),
    {
        MavEnumEntry { value: 0, name: String::new(), description: None, params: None }
    }
}

/// A message.
#[derive(Debug, PartialEq, Clone)]
pub struct MavMessage {
    pub id: u8,
    pub name: String,
    pub description: Option<String>,
    pub fields: Vec<MavField>,
}

/// What a [`MavMessage`] says.
pub struct MessageView {
    pub id: u8,
    pub name: Seq<char>,
    pub description: Option<Seq<char>>,
    pub fields: Seq<FieldView>,
}

impl View for MavMessage {
    type V = MessageView;

    open spec fn view(&self) -> MessageView {
        MessageView {
            id: self.id,
            name: self.name@,
            description: text_view(self.description),
            fields: self.fields@.map_values(|f: MavField| f@),
        }
    }
}

impl MessageView {
    /// A message of id 0 without a name or fields.
    pub open spec fn blank() -> MessageView {
        MessageView { id: 0, name: seq![], description: None, fields: seq![] }
    }
}

impl Default for MavMessage {
    fn default() -> (r: MavMessage)
        ensures
            r@ == MessageView::blank(),
    {
        let r: MavMessage = MavMessage {
            id: 0,
            name: String::new(),
            description: None,
            fields: Vec::new(),
        };
        assert(r@.fields =~= seq![]);
        r
    }
}

/// The type of a field.
#[derive(Debug, PartialEq, Eq, Clone, Copy, Structural)]
pub enum MavType {
    UInt8MavlinkVersion,
    UInt8,
    UInt16,
    UInt32,
    UInt64,
    Int8,
    Int16,
    Int32,
    Int64,
    Char,
    Float,
    Double,
    /// An array of bytes of this length.
    Buffer(u32),
}

/// The type that a text names. An array of bytes is written with its length in brackets.
pub open spec fn type_of(s: Seq<char>) -> Option<MavType> {
    if s == "uint8_t"@ {
        Some(MavType::UInt8)
    } else if s == "uint16_t"@ {
        Some(MavType::UInt16)
    } else if s == "uint32_t"@ {
        Some(MavType::UInt32)
    } else if s == "uint64_t"@ {
        Some(MavType::UInt64)
    } else if s == "int8_t"@ {
        Some(MavType::Int8)
    } else if s == "int16_t"@ {
        Some(MavType::Int16)
    } else if s == "int32_t"@ {
        Some(MavType::Int32)
    } else if s == "int64_t"@ {
        Some(MavType::Int64)
    } else if s == "char"@ {
        Some(MavType::Char)
    } else if s == "float"@ {
        Some(MavType::Float)
    } else if s == "Double"@ {
        Some(MavType::Double)
    } else if s.len() >= 9 && s.take(8) == "uint8_t["@ && s.last() == ']' {
        match decimal::between(
            decimal::unsigned_number(s.subrange(8, s.len() - 1)),
            0,
            u32::MAX as int,
        ) {
            Some(n) => Some(MavType::Buffer(n as u32)),
            None => None,
        }
    } else {
        None
    }
}

/// Whether the text is that of the other followed by more.
fn starts_with(s: &[char], prefix: &str) -> (r: bool)
    ensures
        r == (s@.len() >= prefix@.len() && s@.take(prefix@.len() as int) == prefix@),
{
    let p: Vec<char> = text::chars_of(prefix);
    if s.len() < p.len() {
        return false;
    }
    let mut i: usize = 0;
    while i < p.len()
        invariant
            i <= p@.len() <= s@.len(),
            p@ == prefix@,
            forall|k: int| 0 <= k < i ==> s@[k] == p@[k],
        decreases p.len() - i,
    {
        if s[i] != p[i] {
            assert(s@.take(prefix@.len() as int)[i as int] != prefix@[i as int]);
            return false;
        }
        i = i + 1;
    }
    assert(s@.take(prefix@.len() as int) =~= prefix@);
    true
}

/// The type that a text names.
pub fn parse_type(s: &str) -> (r: Option<MavType>)
    ensures
        r == type_of(s@),
{
    if text::same_text(s, "uint8_t") {
        return Some(MavType::UInt8);
    }
    if text::same_text(s, "uint16_t") {
        return Some(MavType::UInt16);
    }
    if text::same_text(s, "uint32_t") {
        return Some(MavType::UInt32);
    }
    if text::same_text(s, "uint64_t") {
        return Some(MavType::UInt64);
    }
    if text::same_text(s, "int8_t") {
        return Some(MavType::Int8);
    }
    if text::same_text(s, "int16_t") {
        return Some(MavType::Int16);
    }
    if text::same_text(s, "int32_t") {
        return Some(MavType::Int32);
    }
    if text::same_text(s, "int64_t") {
        return Some(MavType::Int64);
    }
    if text::same_text(s, "char") {
        return Some(MavType::Char);
    }
    if text::same_text(s, "float") {
        return Some(MavType::Float);
    }
    if text::same_text(s, "Double") {
        return Some(MavType::Double);
    }
    proof {
        reveal_strlit("uint8_t[");
    }
    let chars: Vec<char> = text::chars_of(s);
    let n: usize = chars.len();
    if n >= 9 && starts_with(chars.as_slice(), "uint8_t[") && chars[n - 1] == ']' {
        match decimal::parse_unsigned(chars.as_slice(), 8, n - 1, u32::MAX as u64) {
            Some(len) => Some(MavType::Buffer(len as u32)),
            None => None,
        }
    } else {
        None
    }
}

/// A field of a message.
#[derive(Debug, PartialEq, Clone)]
pub struct MavField {
    pub mavtype: MavType,
    pub name: String,
    pub description: Option<String>,
    pub enumtype: Option<String>,
}

/// What a [`MavField`] says.
pub struct FieldView {
    pub mavtype: MavType,
    pub name: Seq<char>,
    pub description: Option<Seq<char>>,
    pub enumtype: Option<Seq<char>>,
}

impl View for MavField {
    type V = FieldView;

    open spec fn view(&self) -> FieldView {
        FieldView {
            mavtype: self.mavtype,
            name: self.name@,
            description: text_view(self.description),
            enumtype: text_view(self.enumtype),
        }
    }
}

impl FieldView {
    /// A byte without a name.
    pub open spec fn blank() -> FieldView {
        FieldView { mavtype: MavType::UInt8, name: seq![], description: None, enumtype: None }
    }
}

impl Default for MavField {
    fn default() -> (r: MavField)
        ensures
            r@ == FieldView::blank(),
    {
        MavField {
            mavtype: MavType::UInt8,
            name: String::new(),
            description: None,
            enumtype: None,
        }
    }
}

/// An element of a definition file.
#[derive(Debug, PartialEq, Eq, Clone, Copy, Structural)]
pub enum MavXmlElement {
    Mavlink,
    Include,
    Enums,
    Enum,
    Entry,
    Description,
    Param,
    Messages,
    Message,
    Field,
}

impl MavXmlElement {
    /// The name of the element.
    pub open spec fn name(self) -> Seq<char> {
        match self {
            MavXmlElement::Mavlink => "mavlink"@,
            MavXmlElement::Include => "include"@,
            MavXmlElement::Enums => "enums"@,
            MavXmlElement::Enum => "enum"@,
            MavXmlElement::Entry => "entry"@,
            MavXmlElement::Description => "description"@,
            MavXmlElement::Param => "param"@,
            MavXmlElement::Messages => "messages"@,
            MavXmlElement::Message => "message"@,
            MavXmlElement::Field => "field"@,
        }
    }

    /// How deep the element can stand at most.
    pub open spec fn level(self) -> int {
        match self {
            MavXmlElement::Mavlink => 1,
            MavXmlElement::Include => 2,
            MavXmlElement::Enums => 2,
            MavXmlElement::Messages => 2,
            MavXmlElement::Enum => 3,
            MavXmlElement::Message => 3,
            MavXmlElement::Entry => 4,
            MavXmlElement::Field => 4,
            MavXmlElement::Description => 5,
            MavXmlElement::Param => 5,
        }
    }
}

/// The element of a name.
pub open spec fn element_of(s: Seq<char>) -> Option<MavXmlElement> {
    if s == MavXmlElement::Mavlink.name() {
        Some(MavXmlElement::Mavlink)
    } else if s == MavXmlElement::Include.name() {
        Some(MavXmlElement::Include)
    } else if s == MavXmlElement::Enums.name() {
        Some(MavXmlElement::Enums)
    } else if s == MavXmlElement::Enum.name() {
        Some(MavXmlElement::Enum)
    } else if s == MavXmlElement::Entry.name() {
        Some(MavXmlElement::Entry)
    } else if s == MavXmlElement::Description.name() {
        Some(MavXmlElement::Description)
    } else if s == MavXmlElement::Param.name() {
        Some(MavXmlElement::Param)
    } else if s == MavXmlElement::Messages.name() {
        Some(MavXmlElement::Messages)
    } else if s == MavXmlElement::Message.name() {
        Some(MavXmlElement::Message)
    } else if s == MavXmlElement::Field.name() {
        Some(MavXmlElement::Field)
    } else {
        None
    }
}

/// The element of a name.
pub fn identify_element(s: &str) -> (r: Option<MavXmlElement>)
    ensures
        r == element_of(s@),
{
    if text::same_text(s, "mavlink") {
        return Some(MavXmlElement::Mavlink);
    }
    if text::same_text(s, "include") {
        return Some(MavXmlElement::Include);
    }
    if text::same_text(s, "enums") {
        return Some(MavXmlElement::Enums);
    }
    if text::same_text(s, "enum") {
        return Some(MavXmlElement::Enum);
    }
    if text::same_text(s, "entry") {
        return Some(MavXmlElement::Entry);
    }
    if text::same_text(s, "description") {
        return Some(MavXmlElement::Description);
    }
    if text::same_text(s, "param") {
        return Some(MavXmlElement::Param);
    }
    if text::same_text(s, "messages") {
        return Some(MavXmlElement::Messages);
    }
    if text::same_text(s, "message") {
        return Some(MavXmlElement::Message);
    }
    if text::same_text(s, "field") {
        return Some(MavXmlElement::Field);
    }
    None
}

/// Whether an element may stand directly within another, or on its own if there is none.
pub open spec fn valid_parent(p: Option<MavXmlElement>, s: MavXmlElement) -> bool {
    match s {
        MavXmlElement::Mavlink => p is None,
        MavXmlElement::Include => p == Some(MavXmlElement::Mavlink),
        MavXmlElement::Enums => p == Some(MavXmlElement::Mavlink),
        MavXmlElement::Enum => p == Some(MavXmlElement::Enums),
        MavXmlElement::Entry => p == Some(MavXmlElement::Enum),
        MavXmlElement::Description => p == Some(MavXmlElement::Entry) || p == Some(
            MavXmlElement::Message,
        ) || p == Some(MavXmlElement::Enum),
        MavXmlElement::Param => p == Some(MavXmlElement::Entry),
        MavXmlElement::Messages => p == Some(MavXmlElement::Mavlink),
        MavXmlElement::Message => p == Some(MavXmlElement::Messages),
        MavXmlElement::Field => p == Some(MavXmlElement::Message),
    }
}

/// Whether an element may stand directly within another, or on its own if there is none.
pub fn is_valid_parent(p: Option<MavXmlElement>, s: MavXmlElement) -> (r: bool)
    ensures
        r == valid_parent(p, s),
{
    match p {
        None => s == MavXmlElement::Mavlink,
        Some(p) => match s {
            MavXmlElement::Mavlink => false,
            MavXmlElement::Include => p == MavXmlElement::Mavlink,
            MavXmlElement::Enums => p == MavXmlElement::Mavlink,
            MavXmlElement::Enum => p == MavXmlElement::Enums,
            MavXmlElement::Entry => p == MavXmlElement::Enum,
            MavXmlElement::Description => p == MavXmlElement::Entry || p == MavXmlElement::Message
                || p == MavXmlElement::Enum,
            MavXmlElement::Param => p == MavXmlElement::Entry,
            MavXmlElement::Messages => p == MavXmlElement::Mavlink,
            MavXmlElement::Message => p == MavXmlElement::Messages,
            MavXmlElement::Field => p == MavXmlElement::Message,
        },
    }
}

/// Reveals the names of all elements.
proof fn lemma_element_names()
    ensures
        "mavlink"@ == seq!['m', 'a', 'v', 'l', 'i', 'n', 'k'],
        "include"@ == seq!['i', 'n', 'c', 'l', 'u', 'd', 'e'],
        "enums"@ == seq!['e', 'n', 'u', 'm', 's'],
        "enum"@ == seq!['e', 'n', 'u', 'm'],
        "entry"@ == seq!['e', 'n', 't', 'r', 'y'],
        "description"@ == seq!['d', 'e', 's', 'c', 'r', 'i', 'p', 't', 'i', 'o', 'n'],
        "param"@ == seq!['p', 'a', 'r', 'a', 'm'],
        "messages"@ == seq!['m', 'e', 's', 's', 'a', 'g', 'e', 's'],
        "message"@ == seq!['m', 'e', 's', 's', 'a', 'g', 'e'],
        "field"@ == seq!['f', 'i', 'e', 'l', 'd'],
{
    reveal_strlit("mavlink");
    assert("mavlink"@ =~= seq!['m', 'a', 'v', 'l', 'i', 'n', 'k']);
    reveal_strlit("include");
    assert("include"@ =~= seq!['i', 'n', 'c', 'l', 'u', 'd', 'e']);
    reveal_strlit("enums");
    assert("enums"@ =~= seq!['e', 'n', 'u', 'm', 's']);
    reveal_strlit("enum");
    assert("enum"@ =~= seq!['e', 'n', 'u', 'm']);
    reveal_strlit("entry");
    assert("entry"@ =~= seq!['e', 'n', 't', 'r', 'y']);
    reveal_strlit("description");
    assert("description"@ =~= seq!['d', 'e', 's', 'c', 'r', 'i', 'p', 't', 'i', 'o', 'n']);
    reveal_strlit("param");
    assert("param"@ =~= seq!['p', 'a', 'r', 'a', 'm']);
    reveal_strlit("messages");
    assert("messages"@ =~= seq!['m', 'e', 's', 's', 'a', 'g', 'e', 's']);
    reveal_strlit("message");
    assert("message"@ =~= seq!['m', 'e', 's', 's', 'a', 'g', 'e']);
    reveal_strlit("field");
    assert("field"@ =~= seq!['f', 'i', 'e', 'l', 'd']);
}

/// Every element is found under its name, and under no other.
pub proof fn law_elements_have_one_name(e: MavXmlElement, s: Seq<char>)
    ensures
        element_of(s) == Some(e) <==> s == e.name(),
{
    lemma_element_names();
    if s == e.name() {
        let n = s.len();
        assert(s[n - 1] == e.name()[n - 1]);
        assert(s[0] == e.name()[0]);
    }
}

/// An element stands deeper than the one that it stands within, and none deeper than the fifth
/// level.
pub proof fn law_nesting_is_bounded(p: MavXmlElement, s: MavXmlElement)
    ensures
        valid_parent(Some(p), s) ==> p.level() < s.level(),
        valid_parent(None, s) <==> s.level() == 1,
        1 <= s.level() <= 5,
{
}

/// An array of bytes is read back from its length in brackets, whatever it is.
pub proof fn law_buffer_is_read_back(n: u32)
    ensures
        type_of("uint8_t["@ + decimal::digits_of(n as nat) + seq![']']) == Some(MavType::Buffer(n)),
{
    let digits = decimal::digits_of(n as nat);
    let s = "uint8_t["@ + digits + seq![']'];
    decimal::law_digits_are_read_back(n as nat);
    reveal_strlit("uint8_t[");
    reveal_strlit("uint8_t");
    reveal_strlit("uint16_t");
    reveal_strlit("uint32_t");
    reveal_strlit("uint64_t");
    reveal_strlit("int8_t");
    reveal_strlit("int16_t");
    reveal_strlit("int32_t");
    reveal_strlit("int64_t");
    reveal_strlit("char");
    reveal_strlit("float");
    reveal_strlit("Double");
    assert(s.take(8) =~= "uint8_t["@);
    assert(s.subrange(8, s.len() - 1) =~= digits);
    assert(s.len() >= 10);
}

/// No text names the type of the version field.
pub proof fn law_version_type_has_no_name(s: Seq<char>)
    ensures
        type_of(s) != Some(MavType::UInt8MavlinkVersion),
{
}

/// What names a type is one of eleven words, or an array of bytes with its length in brackets, written
/// as a number of at most 32 bits; nothing else does.
pub proof fn law_types_have_no_other_names(s: Seq<char>)
    ensures
        type_of(s) is Some <==> {
            ||| s == "uint8_t"@
            ||| s == "uint16_t"@
            ||| s == "uint32_t"@
            ||| s == "uint64_t"@
            ||| s == "int8_t"@
            ||| s == "int16_t"@
            ||| s == "int32_t"@
            ||| s == "int64_t"@
            ||| s == "char"@
            ||| s == "float"@
            ||| s == "Double"@
            ||| exists|length: Seq<char>|
                s == #[trigger] ("uint8_t["@ + length + seq![']']) && (decimal::unsigned_number(
                    length,
                ) matches Some(n) && 0 <= n <= 0xffff_ffff)
        },
{
    reveal_strlit("uint8_t[");
    if s.len() >= 9 && s.take(8) == "uint8_t["@ && s.last() == ']' {
        let length = s.subrange(8, s.len() - 1);
        assert(s =~= "uint8_t["@ + length + seq![']']);
    }
    assert forall|length: Seq<char>|
        s == #[trigger] ("uint8_t["@ + length + seq![']']) && (decimal::unsigned_number(
            length,
        ) matches Some(n) && 0 <= n <= 0xffff_ffff) implies type_of(s) is Some by {
        decimal::law_nothing_is_no_number();
        assert(length.len() > 0) by {
            if length.len() == 0 {
                assert(length =~= seq![]);
            }
        }
        assert(s.take(8) =~= "uint8_t["@);
        assert(s.subrange(8, s.len() - 1) =~= length);
    }
}

/// The length of an array of bytes is the number in its brackets, however that is written.
pub proof fn law_buffer_has_its_length(length: Seq<char>, n: int)
    requires
        decimal::unsigned_number(length) == Some(n),
        0 <= n <= 0xffff_ffff,
    ensures
        type_of("uint8_t["@ + length + seq![']']) == Some(MavType::Buffer(n as u32)),
{
    let s = "uint8_t["@ + length + seq![']'];
    decimal::law_nothing_is_no_number();
    assert(length.len() > 0) by {
        if length.len() == 0 {
            assert(length =~= seq![]);
        }
    }
    reveal_strlit("uint8_t[");
    reveal_strlit("uint8_t");
    reveal_strlit("uint16_t");
    reveal_strlit("uint32_t");
    reveal_strlit("uint64_t");
    reveal_strlit("int8_t");
    reveal_strlit("int16_t");
    reveal_strlit("int32_t");
    reveal_strlit("int64_t");
    reveal_strlit("char");
    reveal_strlit("float");
    reveal_strlit("Double");
    assert(s.take(8) =~= "uint8_t["@);
    assert(s.subrange(8, s.len() - 1) =~= length);
    assert(s.len() >= 10);
}

/// Two texts that name one type are the same, but for the way in which a length is written.
pub proof fn law_types_have_one_name(a: Seq<char>, b: Seq<char>)
    requires
        type_of(a) is Some,
        type_of(a) == type_of(b),
        !(type_of(a)->0 is Buffer),
    ensures
        a == b,
{
}

/// What is said of a definition is what it holds.
pub proof fn law_definition_views_hold_the_fields(
    e: MavEnum,
    v: MavEnumEntry,
    m: MavMessage,
    f: MavField,
    list: Seq<String>,
    i: int,
)
    ensures
        e@.name == e.name@,
        e.description matches Some(d) ==> e@.description == Some(d@),
        e.description is None ==> e@.description is None,
        e@.entries.len() == e.entries@.len(),
        0 <= i < e.entries@.len() ==> e@.entries[i] == e.entries@[i]@,
        v@.value == v.value,
        v@.name == v.name@,
        v.description matches Some(d) ==> v@.description == Some(d@),
        v.description is None ==> v@.description is None,
        v.params matches Some(params) ==> v@.params == Some(texts(params@)),
        v.params is None ==> v@.params is None,
        m@.id == m.id,
        m@.name == m.name@,
        m.description matches Some(d) ==> m@.description == Some(d@),
        m.description is None ==> m@.description is None,
        m@.fields.len() == m.fields@.len(),
        0 <= i < m.fields@.len() ==> m@.fields[i] == m.fields@[i]@,
        f@.mavtype == f.mavtype,
        f@.name == f.name@,
        f.description matches Some(d) ==> f@.description == Some(d@),
        f.description is None ==> f@.description is None,
        f.enumtype matches Some(t) ==> f@.enumtype == Some(t@),
        f.enumtype is None ==> f@.enumtype is None,
        texts(list).len() == list.len(),
        0 <= i < list.len() ==> texts(list)[i] == list[i]@,
{
}

/// The elements that an element may stand within are those of the definition files: nothing around the
/// root, and around any other element one that stands directly above it.
pub proof fn law_parents(p: Option<MavXmlElement>, s: MavXmlElement)
    ensures
        valid_parent(p, s) <==> {
            ||| p is None && s is Mavlink
            ||| p matches Some(MavXmlElement::Mavlink) && (s is Include || s is Enums
                || s is Messages)
            ||| p matches Some(MavXmlElement::Enums) && s is Enum
            ||| p matches Some(MavXmlElement::Enum) && (s is Entry || s is Description)
            ||| p matches Some(MavXmlElement::Entry) && (s is Description || s is Param)
            ||| p matches Some(MavXmlElement::Messages) && s is Message
            ||| p matches Some(MavXmlElement::Message) && (s is Field || s is Description)
        },
{
}

} // verus!
