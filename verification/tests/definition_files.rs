//! Reading definition files.
use dronekit::decimal::{parse_i32, parse_u8, parse_usize};
use dronekit::definitions::{
    identify_element, indent, is_valid_parent, parse_type, MavEnum, MavEnumEntry, MavField,
    MavMessage, MavType, MavXmlElement,
};
use dronekit::reader::{
    read_definitions, read_events, DefinitionError, DefinitionReader, Definitions, XmlAttribute,
    XmlEvent,
};

fn start(name: &str, attributes: &[(&str, &str)]) -> XmlEvent {
    XmlEvent::Start {
        name: name.to_string(),
        attributes: attributes
            .iter()
            .map(|(n, v)| XmlAttribute { name: n.to_string(), value: v.to_string() })
            .collect(),
    }
}

fn text(s: &str) -> XmlEvent {
    XmlEvent::Text(s.to_string())
}

fn read(events: Vec<XmlEvent>) -> Result<Definitions, DefinitionError> {
    read_events(events.into_iter().map(Ok).collect())
}

const FILE: &str = r#"<?xml version="1.0"?>
<mavlink>
  <include>base.xml</include>
  <enums>
    <enum name="MAV_KIND">
      <description>Kinds.</description>
      <entry value="-3" name="KIND_A"/>
      <entry value="+16" name="KIND_B">
        <description>The second.</description>
        <param index="1">first</param>
        <param index="2">second</param>
        <param index="1">zeroth</param>
      </entry>
      <entry name="KIND_C"><param index="1"/></entry>
    </enum>
  </enums>
  <messages>
    <message id="24" name="POSITION">
      <description>A position.</description>
      <field type="uint8_t[20]" name="ids">Ids.</field>
      <field type="int32_t" name="lat" enum="MAV_KIND" print="x"></field>
    </message>
    <message id="0" name="EMPTY"></message>
  </messages>
</mavlink>
"#;

#[test]
fn file_is_read() {
    let d = read_definitions(FILE.as_bytes()).unwrap();
    assert_eq!(d.error, None);
    assert_eq!(d.includes, vec!["base.xml".to_string()]);
    assert_eq!(d.enums, vec![MavEnum {
        name: "MAV_KIND".to_string(),
        description: Some("Kinds.".to_string()),
        entries: vec![
            MavEnumEntry {
                value: -3,
                name: "KIND_A".to_string(),
                description: None,
                params: None,
            },
            MavEnumEntry {
                value: 16,
                name: "KIND_B".to_string(),
                description: Some("The second.".to_string()),
                params: Some(vec![
                    "zeroth".to_string(),
                    "first".to_string(),
                    "second".to_string(),
                ]),
            },
            MavEnumEntry {
                value: 0,
                name: "KIND_C".to_string(),
                description: None,
                params: Some(vec![]),
            },
        ],
    }]);
    assert_eq!(d.messages, vec![
        MavMessage {
            id: 24,
            name: "POSITION".to_string(),
            description: Some("A position.".to_string()),
            fields: vec![
                MavField {
                    mavtype: MavType::Buffer(20),
                    name: "ids".to_string(),
                    description: Some("Ids.".to_string()),
                    enumtype: None,
                },
                MavField {
                    mavtype: MavType::Int32,
                    name: "lat".to_string(),
                    description: None,
                    enumtype: Some("MAV_KIND".to_string()),
                },
            ],
        },
        MavMessage { id: 0, name: "EMPTY".to_string(), description: None, fields: vec![] },
    ]);
}

#[test]
fn error_ends_reading_with_what_was_read() {
    let broken = FILE.replace("</messages>", "</message>");
    let d = read_definitions(broken.as_bytes()).unwrap();
    assert!(d.error.is_some());
    assert_eq!(d.enums.len(), 1);
    assert_eq!(d.messages.len(), 2);
    let d = read_definitions(b"").unwrap();
    assert!(d.error.is_some());
    assert!(d.messages.is_empty());
}

#[test]
fn nothing_is_read_behind_an_error() {
    let d = read_events(vec![
        Ok(start("mavlink", &[])),
        Err("cut off".to_string()),
        Ok(start("bogus", &[])),
    ]);
    assert_eq!(d.unwrap().error, Some("cut off".to_string()));
}

#[test]
fn unknown_element_is_refused() {
    assert_eq!(
        read_definitions(b"<mavlink><version>3</version></mavlink>"),
        Err(DefinitionError::UnexpectedElement { name: "version".to_string() })
    );
    assert_eq!(
        read_definitions(b"<x:mavlink xmlns:x='y'/>"),
        Err(DefinitionError::UnexpectedElement { name: "{y}x:mavlink".to_string() })
    );
}

#[test]
fn misplaced_element_is_refused() {
    assert_eq!(
        read_definitions(b"<mavlink><field/></mavlink>"),
        Err(DefinitionError::InvalidParent {
            parent: Some(MavXmlElement::Mavlink),
            element: MavXmlElement::Field,
        })
    );
    assert_eq!(
        read_definitions(b"<enums/>"),
        Err(DefinitionError::InvalidParent { parent: None, element: MavXmlElement::Enums })
    );
}

#[test]
fn invalid_values_are_refused() {
    let invalid = |element: MavXmlElement, attribute: &str, value: &str| {
        Err(DefinitionError::InvalidValue {
            element,
            attribute: attribute.to_string(),
            value: value.to_string(),
        })
    };
    let in_enum = |e: XmlEvent| {
        read(vec![start("mavlink", &[]), start("enums", &[]), start("enum", &[]), e])
    };
    assert_eq!(
        in_enum(start("entry", &[("value", "2147483648")])),
        invalid(MavXmlElement::Entry, "value", "2147483648")
    );
    let in_messages =
        |e: Vec<XmlEvent>| {
            let mut all = vec![start("mavlink", &[]), start("messages", &[])];
            all.extend(e);
            read(all)
        };
    assert_eq!(
        in_messages(vec![start("message", &[("name", "A"), ("id", "256")])]),
        invalid(MavXmlElement::Message, "id", "256")
    );
    assert_eq!(
        in_messages(vec![start("message", &[]), start("field", &[("type", "double")])]),
        invalid(MavXmlElement::Field, "type", "double")
    );
    assert_eq!(
        read(vec![
            start("mavlink", &[]),
            start("enums", &[]),
            start("enum", &[]),
            start("entry", &[]),
            start("param", &[("index", "-1")]),
        ]),
        invalid(MavXmlElement::Param, "index", "-1")
    );
}

#[test]
fn misplaced_text_is_refused() {
    let unexpected = Err(DefinitionError::UnexpectedText { text: "hello".to_string() });
    assert_eq!(read(vec![text("hello")]), unexpected);
    assert_eq!(read(vec![start("mavlink", &[]), text("hello")]), unexpected);
    assert_eq!(
        read(vec![start("mavlink", &[]), start("messages", &[]), text("hello")]),
        unexpected
    );
}

#[test]
fn parameter_text_needs_a_fitting_index() {
    let param = |attributes: &[(&str, &str)]| {
        read(vec![
            start("mavlink", &[]),
            start("enums", &[]),
            start("enum", &[]),
            start("entry", &[]),
            start("param", attributes),
            text("p"),
            XmlEvent::End,
            XmlEvent::End,
            XmlEvent::End,
        ])
    };
    assert_eq!(
        param(&[("label", "x")]),
        Err(DefinitionError::MissingIndex { text: "p".to_string() })
    );
    assert_eq!(
        param(&[("index", "0")]),
        Err(DefinitionError::InvalidIndex { index: 0, text: "p".to_string() })
    );
    assert_eq!(
        param(&[("index", "2")]),
        Err(DefinitionError::InvalidIndex { index: 2, text: "p".to_string() })
    );
    let d = param(&[("index", "1")]).unwrap();
    assert_eq!(d.enums[0].entries[0].params, Some(vec!["p".to_string()]));
    // Without any attribute the text is dropped.
    let d = param(&[]).unwrap();
    assert_eq!(d.enums[0].entries[0].params, None);
}

#[test]
fn other_events_change_nothing() {
    let d = read(vec![start("mavlink", &[]), XmlEvent::Other, XmlEvent::End]).unwrap();
    assert_eq!(
        d,
        Definitions { messages: vec![], enums: vec![], includes: vec![], error: None }
    );
}

#[test]
fn open_elements_are_tracked() {
    let mut r = DefinitionReader::new();
    for name in ["mavlink", "messages", "message", "field"] {
        r = r.handle(start(name, &[])).unwrap();
    }
    assert_eq!(r.stack.len(), 4);
    r = r.text("a field".to_string()).unwrap();
    assert_eq!(r.field.description, Some("a field".to_string()));
    r = r.end();
    assert_eq!(r.stack.len(), 3);
    assert_eq!(r.message.fields.len(), 1);
    r = r.end().end().end().end();
    assert!(r.stack.is_empty());
    assert_eq!(r.messages.len(), 1);
}

#[test]
fn attributes_are_taken_in_order() {
    let d = read(vec![
        start("mavlink", &[]),
        start("messages", &[]),
        start("message", &[("name", "A"), ("other", "B"), ("name", "C")]),
        XmlEvent::End,
    ])
    .unwrap();
    assert_eq!(d.messages[0].name, "C");
}

#[test]
fn types_are_read() {
    assert_eq!(parse_type("uint8_t"), Some(MavType::UInt8));
    assert_eq!(parse_type("uint16_t"), Some(MavType::UInt16));
    assert_eq!(parse_type("uint32_t"), Some(MavType::UInt32));
    assert_eq!(parse_type("uint64_t"), Some(MavType::UInt64));
    assert_eq!(parse_type("int8_t"), Some(MavType::Int8));
    assert_eq!(parse_type("int16_t"), Some(MavType::Int16));
    assert_eq!(parse_type("int32_t"), Some(MavType::Int32));
    assert_eq!(parse_type("int64_t"), Some(MavType::Int64));
    assert_eq!(parse_type("char"), Some(MavType::Char));
    assert_eq!(parse_type("float"), Some(MavType::Float));
    assert_eq!(parse_type("Double"), Some(MavType::Double));
    for unknown in ["double", "", "uint8_t_mavlink_version", "uint8_t[", "uint8_t[]", "uint8_t]",
        "uint8_t[x]", "char[16]", "uint8_t[4294967296]", "uint8_t[-1]", "uint8_t[1] ",
        "uint8_t[+]", "uint8_t[\u{e9}]"]
    {
        assert_eq!(parse_type(unknown), None, "{}", unknown);
    }
    for n in [0u32, 1, 9, 10, 99, 100, 4294967295] {
        assert_eq!(parse_type(&format!("uint8_t[{}]", n)), Some(MavType::Buffer(n)));
    }
    assert_eq!(parse_type("uint8_t[+007]"), Some(MavType::Buffer(7)));
}

#[test]
fn numbers_are_read_as_the_standard_library_does() {
    for s in ["", "+", "-", "0", "-0", "+0", "00012", "255", "256", "+255", "-1", " 1", "1 ", "1_0",
        "2147483647", "2147483648", "-2147483648", "-2147483649", "18446744073709551615",
        "18446744073709551616", "99999999999999999999999999", "++1", "+-1", "-+1", "\u{663}", "1a"]
    {
        assert_eq!(parse_u8(s), s.parse::<u8>().ok(), "{}", s);
        assert_eq!(parse_i32(s), s.parse::<i32>().ok(), "{}", s);
        assert_eq!(parse_usize(s), s.parse::<usize>().ok(), "{}", s);
    }
    for n in -300i32..300 {
        let s = format!("{}", n);
        assert_eq!(parse_i32(&s), Some(n));
        assert_eq!(parse_u8(&s), s.parse::<u8>().ok());
    }
}

#[test]
fn elements_are_identified() {
    let all = [
        ("mavlink", MavXmlElement::Mavlink),
        ("include", MavXmlElement::Include),
        ("enums", MavXmlElement::Enums),
        ("enum", MavXmlElement::Enum),
        ("entry", MavXmlElement::Entry),
        ("description", MavXmlElement::Description),
        ("param", MavXmlElement::Param),
        ("messages", MavXmlElement::Messages),
        ("message", MavXmlElement::Message),
        ("field", MavXmlElement::Field),
    ];
    for (name, element) in all {
        assert_eq!(identify_element(name), Some(element));
        assert_eq!(identify_element(&name.to_uppercase()), None);
    }
    assert_eq!(identify_element(""), None);
    assert_eq!(identify_element("extensions"), None);
}

#[test]
fn parents_are_told() {
    let all = [
        MavXmlElement::Mavlink, MavXmlElement::Include, MavXmlElement::Enums, MavXmlElement::Enum, MavXmlElement::Entry, MavXmlElement::Description, MavXmlElement::Param, MavXmlElement::Messages,
        MavXmlElement::Message, MavXmlElement::Field,
    ];
    let valid = [
        (None, MavXmlElement::Mavlink),
        (Some(MavXmlElement::Mavlink), MavXmlElement::Include),
        (Some(MavXmlElement::Mavlink), MavXmlElement::Enums),
        (Some(MavXmlElement::Enums), MavXmlElement::Enum),
        (Some(MavXmlElement::Enum), MavXmlElement::Entry),
        (Some(MavXmlElement::Entry), MavXmlElement::Description),
        (Some(MavXmlElement::Message), MavXmlElement::Description),
        (Some(MavXmlElement::Enum), MavXmlElement::Description),
        (Some(MavXmlElement::Entry), MavXmlElement::Param),
        (Some(MavXmlElement::Mavlink), MavXmlElement::Messages),
        (Some(MavXmlElement::Messages), MavXmlElement::Message),
        (Some(MavXmlElement::Message), MavXmlElement::Field),
    ];
    let mut n = 0;
    for s in all {
        for p in std::iter::once(None).chain(all.iter().map(|e| Some(*e))) {
            assert_eq!(is_valid_parent(p, s), valid.contains(&(p, s)));
            n += is_valid_parent(p, s) as usize;
        }
    }
    assert_eq!(n, valid.len());
}

#[test]
fn defaults_are_blank() {
    assert_eq!(
        MavEnum::default(),
        MavEnum { name: String::new(), description: None, entries: vec![] }
    );
    assert_eq!(
        MavEnumEntry::default(),
        MavEnumEntry { value: 0, name: String::new(), description: None, params: None }
    );
    assert_eq!(
        MavMessage::default(),
        MavMessage { id: 0, name: String::new(), description: None, fields: vec![] }
    );
    assert_eq!(
        MavField::default(),
        MavField {
            mavtype: MavType::UInt8,
            name: String::new(),
            description: None,
            enumtype: None,
        }
    );
}

#[test]
fn indentation_is_four_spaces_a_level() {
    assert_eq!(indent(0), "");
    assert_eq!(indent(1), "    ");
    assert_eq!(indent(3), "            ");
}
