use xml_record::event::{Attribute, Event, EventCursor, Namespace};
use xml_record::kind::{ItemKind, Role, ScalarKind, ValueKind};
use xml_record::machine::ParseError;
use xml_record::reader::{deserialize, parse};
use xml_record::schema::{check_schema, FieldDefault, FieldDescriptor, TypeDescriptor};
use xml_record::text::convert;
use xml_record::value::{Document, Item, Scalar, Value};
use xml_record::writer::{scalar_to_text, write_record};

fn s(x: &str) -> String {
    x.to_string()
}

fn start(name: &str) -> Event {
    Event::StartElement { name: s(name), attributes: vec![], namespaces: vec![] }
}

fn start_with(name: &str, attrs: &[(&str, &str)], ns: &[(&str, &str)]) -> Event {
    Event::StartElement {
        name: s(name),
        attributes: attrs.iter().map(|(n, v)| Attribute { name: s(n), value: s(v) }).collect(),
        namespaces: ns.iter().map(|(p, u)| Namespace { prefix: s(p), uri: s(u) }).collect(),
    }
}

fn end(name: &str) -> Event {
    Event::EndElement { name: s(name) }
}

fn chars(t: &str) -> Event {
    Event::Characters(s(t))
}

fn field(name: &str, role: Role, kind: ValueKind) -> FieldDescriptor {
    FieldDescriptor {
        name: s(name),
        xml_name: s(name),
        role,
        kind,
        default: FieldDefault::Implicit,
    }
}

fn scalar(k: ScalarKind) -> ValueKind {
    ValueKind::One(ItemKind::Scalar(k))
}

fn one_type(root: &str, fields: Vec<FieldDescriptor>) -> Vec<TypeDescriptor> {
    vec![TypeDescriptor { root: s(root), fields, namespaces: vec![] }]
}

fn one(v: Scalar) -> Value {
    Value::One(Item::Scalar(v))
}

fn run(events: Vec<Event>, types: &Vec<TypeDescriptor>, ty: usize) -> Result<Document, ParseError> {
    assert!(check_schema(types));
    parse(events, types, ty)
}

#[test]
fn text_and_element_fields() {
    let types = one_type(
        "book",
        vec![
            field("note", Role::Text, scalar(ScalarKind::Text)),
            field("year", Role::Element, scalar(ScalarKind::UInt32)),
        ],
    );
    let events = vec![
        start("book"),
        chars("Hello"),
        start("year"),
        chars("1999"),
        end("year"),
        end("book"),
    ];
    let doc = run(events, &types, 0).unwrap();
    assert_eq!(doc.records.len(), 1);
    assert_eq!(doc.root().type_id, 0);
    assert_eq!(doc.root().fields, vec![one(Scalar::Text(s("Hello"))), one(Scalar::U32(1999))]);
}

#[test]
fn out_of_range_u8_fails() {
    let types = one_type("r", vec![field("n", Role::Element, scalar(ScalarKind::UInt8))]);
    let events = vec![start("r"), start("n"), chars("256"), end("n"), end("r")];
    assert_eq!(run(events, &types, 0), Err(ParseError::Conversion));
    let events = vec![start("r"), start("n"), chars("255"), end("n"), end("r")];
    assert_eq!(run(events, &types, 0).unwrap().root().fields, vec![one(Scalar::U8(255))]);
}

#[test]
fn missing_namespace_fails() {
    let mut types = one_type("r", vec![field("n", Role::Element, scalar(ScalarKind::UInt8))]);
    types[0].namespaces = vec![s("urn:x")];
    let events = vec![start_with("r", &[], &[]), start("n"), chars("1"), end("n"), end("r")];
    assert_eq!(run(events, &types, 0), Err(ParseError::Namespace));
    let events = vec![start_with("r", &[], &[("x", "urn:x")]), end("r")];
    assert!(run(events, &types, 0).is_ok());
}

#[test]
fn unknown_element_is_skipped() {
    let types = one_type("book", vec![field("year", Role::Element, scalar(ScalarKind::UInt32))]);
    let events = vec![
        start("book"),
        start("publisher"),
        chars("X"),
        end("publisher"),
        start("year"),
        chars("2001"),
        end("year"),
        end("book"),
    ];
    assert_eq!(run(events, &types, 0).unwrap().root().fields, vec![one(Scalar::U32(2001))]);
}

#[test]
fn repeated_elements_fill_a_list_in_order() {
    let types = one_type(
        "r",
        vec![field("v", Role::Element, ValueKind::List(ItemKind::Scalar(ScalarKind::Int16)))],
    );
    let mut events = vec![start("r")];
    for t in ["3", "-1", "7"] {
        events.extend([start("v"), chars(t), end("v")]);
    }
    events.push(end("r"));
    let doc = run(events, &types, 0).unwrap();
    let items = vec![
        Item::Scalar(Scalar::I16(3)),
        Item::Scalar(Scalar::I16(-1)),
        Item::Scalar(Scalar::I16(7)),
    ];
    assert_eq!(doc.root().fields, vec![Value::List(items)]);
    let empty = run(vec![start("r"), end("r")], &types, 0).unwrap();
    assert_eq!(empty.root().fields, vec![Value::List(vec![])]);
}

#[test]
fn optional_absent_and_present() {
    let types = one_type(
        "r",
        vec![field("o", Role::Element, ValueKind::Optional(ItemKind::Scalar(ScalarKind::Bool)))],
    );
    let absent = run(vec![start("r"), end("r")], &types, 0).unwrap();
    assert_eq!(absent.root().fields, vec![Value::Optional(None)]);
    let present = run(vec![start("r"), start("o"), chars("true"), end("o"), end("r")], &types, 0)
        .unwrap();
    assert_eq!(present.root().fields, vec![Value::Optional(Some(Item::Scalar(Scalar::Bool(true))))]);
}

#[test]
fn same_events_give_equal_records() {
    let types = one_type(
        "r",
        vec![
            field("a", Role::Attribute, scalar(ScalarKind::Int64)),
            field("b", Role::Element, scalar(ScalarKind::Text)),
        ],
    );
    let make = || vec![start_with("r", &[("a", "-42")], &[]), start("b"), chars("x"), end("b"), end("r")];
    let first = run(make(), &types, 0).unwrap();
    let second = run(make(), &types, 0).unwrap();
    assert_eq!(first, second);
    assert_eq!(first.root().fields, vec![one(Scalar::I64(-42)), one(Scalar::Text(s("x")))]);
}

#[test]
fn every_scalar_kind_reads_back() {
    let kinds = [
        (ScalarKind::Text, "plain words", Scalar::Text(s("plain words"))),
        (ScalarKind::Bool, "false", Scalar::Bool(false)),
        (ScalarKind::Int8, "-128", Scalar::I8(-128)),
        (ScalarKind::Int16, "32767", Scalar::I16(32767)),
        (ScalarKind::Int32, "-2147483648", Scalar::I32(-2147483648)),
        (ScalarKind::Int64, "9223372036854775807", Scalar::I64(9223372036854775807)),
        (ScalarKind::UInt8, "0", Scalar::U8(0)),
        (ScalarKind::UInt16, "65535", Scalar::U16(65535)),
        (ScalarKind::UInt32, "+4294967295", Scalar::U32(4294967295)),
        (ScalarKind::UInt64, "18446744073709551615", Scalar::U64(18446744073709551615)),
    ];
    let fields = kinds
        .iter()
        .enumerate()
        .map(|(i, (k, _, _))| field(&format!("f{}", i), Role::Element, scalar(*k)))
        .collect();
    let types = one_type("all", fields);
    let mut events = vec![start("all")];
    for (i, (_, t, _)) in kinds.iter().enumerate() {
        let name = format!("f{}", i);
        events.extend([start(&name), chars(t), end(&name)]);
    }
    events.push(end("all"));
    let doc = run(events, &types, 0).unwrap();
    let expected: Vec<Value> = kinds.into_iter().map(|(_, _, v)| one(v)).collect();
    assert_eq!(doc.root().fields, expected);
}

#[test]
fn conversion_rules() {
    assert_eq!(convert(ScalarKind::UInt8, "256"), None);
    assert_eq!(convert(ScalarKind::UInt8, "-0"), None);
    assert_eq!(convert(ScalarKind::Int8, "-0"), Some(Scalar::I8(0)));
    assert_eq!(convert(ScalarKind::Int8, "-129"), None);
    assert_eq!(convert(ScalarKind::Int32, ""), None);
    assert_eq!(convert(ScalarKind::Int32, "+"), None);
    assert_eq!(convert(ScalarKind::Int32, "1 "), None);
    assert_eq!(convert(ScalarKind::UInt64, "18446744073709551616"), None);
    assert_eq!(convert(ScalarKind::UInt64, "00000000000000000000042"), Some(Scalar::U64(42)));
    assert_eq!(convert(ScalarKind::Bool, "True"), None);
    assert_eq!(convert(ScalarKind::Bool, "true"), Some(Scalar::Bool(true)));
    assert_eq!(convert(ScalarKind::Text, ""), Some(Scalar::Text(s(""))));
}

fn nested_types() -> Vec<TypeDescriptor> {
    vec![
        TypeDescriptor {
            root: s("author"),
            fields: vec![
                field("id", Role::Attribute, scalar(ScalarKind::UInt16)),
                field("name", Role::Element, scalar(ScalarKind::Text)),
            ],
            namespaces: vec![],
        },
        TypeDescriptor {
            root: s("book"),
            fields: vec![
                field("author", Role::Element, ValueKind::One(ItemKind::Record(0))),
                field("editor", Role::Element, ValueKind::List(ItemKind::Record(0))),
            ],
            namespaces: vec![],
        },
    ]
}

#[test]
fn nested_records() {
    let types = nested_types();
    let events = vec![
        start("book"),
        start_with("author", &[("id", "7")], &[]),
        start("name"),
        chars("Ann"),
        end("name"),
        end("author"),
        start_with("editor", &[("id", "8")], &[]),
        end("editor"),
        end("book"),
    ];
    let doc = run(events, &types, 1).unwrap();
    // the default author, then the author read, the editor, and the book
    assert_eq!(doc.records.len(), 4);
    assert_eq!(doc.records[0].fields, vec![one(Scalar::U16(0)), one(Scalar::Text(s("")))]);
    assert_eq!(doc.records[1].fields, vec![one(Scalar::U16(7)), one(Scalar::Text(s("Ann")))]);
    assert_eq!(doc.records[2].fields, vec![one(Scalar::U16(8)), one(Scalar::Text(s("")))]);
    assert_eq!(
        doc.root().fields,
        vec![Value::One(Item::Record(1)), Value::List(vec![Item::Record(2)])]
    );
}

#[test]
fn nested_failure_names_the_field() {
    let types = nested_types();
    let events = vec![
        start("book"),
        start_with("editor", &[("id", "x")], &[]),
        end("editor"),
        end("book"),
    ];
    assert_eq!(
        run(events, &types, 1),
        Err(ParseError::Nested { field: s("editor"), inner: Box::new(ParseError::Conversion) })
    );
    let events = vec![start("book"), start("author"), start("name"), chars("A")];
    assert_eq!(
        run(events, &types, 1),
        Err(ParseError::Nested { field: s("author"), inner: Box::new(ParseError::UnexpectedEof) })
    );
}

#[test]
fn stream_errors() {
    let types = one_type("r", vec![field("n", Role::Element, scalar(ScalarKind::Int32))]);
    assert_eq!(run(vec![start("r")], &types, 0), Err(ParseError::UnexpectedEof));
    assert_eq!(run(vec![start("r"), Event::Other], &types, 0), Err(ParseError::UnexpectedEvent));
    let events = vec![start("r"), start("n"), chars("1"), end("m"), end("r")];
    assert_eq!(run(events, &types, 0), Err(ParseError::UnexpectedEvent));
    let events = vec![start("r"), start("n"), start("m"), end("m"), end("n"), end("r")];
    assert_eq!(run(events, &types, 0), Err(ParseError::Conversion));
}

#[test]
fn defaults_and_empty_elements() {
    let mut types = one_type(
        "r",
        vec![
            field("a", Role::Element, scalar(ScalarKind::Int32)),
            field("b", Role::Element, scalar(ScalarKind::Text)),
            field("c", Role::Element, ValueKind::Optional(ItemKind::Scalar(ScalarKind::UInt8))),
        ],
    );
    types[0].fields[0].default = FieldDefault::Literal(Scalar::I32(5));
    let doc = run(vec![start("r"), start("b"), end("b"), end("r")], &types, 0).unwrap();
    assert_eq!(
        doc.root().fields,
        vec![one(Scalar::I32(5)), one(Scalar::Text(s(""))), Value::Optional(None)]
    );
    let events = vec![start("r"), start("a"), end("a"), end("r")];
    assert_eq!(run(events, &types, 0), Err(ParseError::Conversion));
}

#[test]
fn cursor_rests_on_closing_tag() {
    let types = one_type("r", vec![field("n", Role::Element, scalar(ScalarKind::Int32))]);
    let events = vec![start("r"), start("n"), chars("4"), end("n"), end("r"), start("tail")];
    let mut cursor = EventCursor::new(events);
    let doc = deserialize(&mut cursor, &types, 0).unwrap();
    assert_eq!(doc.root().fields, vec![one(Scalar::I32(4))]);
    assert!(matches!(cursor.peek(), Some(Event::EndElement { .. })));
}

#[test]
fn inside_an_opened_element() {
    let types = one_type("r", vec![field("n", Role::Element, scalar(ScalarKind::Int32))]);
    let events = vec![chars(" "), start("n"), chars("9"), end("n"), end("r")];
    let doc = run(events, &types, 0).unwrap();
    assert_eq!(doc.root().fields, vec![one(Scalar::I32(9))]);
}

#[test]
fn schema_checks() {
    let mut types = one_type(
        "r",
        vec![
            field("a", Role::Text, scalar(ScalarKind::Text)),
            field("b", Role::Text, scalar(ScalarKind::Text)),
        ],
    );
    assert!(!check_schema(&types));
    types[0].fields[1].role = Role::Element;
    assert!(check_schema(&types));
    types[0].fields[1].name = s("a");
    assert!(!check_schema(&types));
    let self_ref = one_type("r", vec![field("a", Role::Element, ValueKind::One(ItemKind::Record(0)))]);
    assert!(!check_schema(&self_ref));
    let list_ref = one_type("r", vec![field("a", Role::Element, ValueKind::List(ItemKind::Record(0)))]);
    assert!(check_schema(&list_ref));
}

#[test]
fn written_record_reads_back() {
    let kinds = [
        (ScalarKind::Text, Scalar::Text(s("a b"))),
        (ScalarKind::Bool, Scalar::Bool(true)),
        (ScalarKind::Int8, Scalar::I8(-128)),
        (ScalarKind::Int16, Scalar::I16(-300)),
        (ScalarKind::Int32, Scalar::I32(0)),
        (ScalarKind::Int64, Scalar::I64(i64::MIN)),
        (ScalarKind::UInt8, Scalar::U8(200)),
        (ScalarKind::UInt16, Scalar::U16(10)),
        (ScalarKind::UInt32, Scalar::U32(4000000000)),
        (ScalarKind::UInt64, Scalar::U64(u64::MAX)),
    ];
    let fields = kinds
        .iter()
        .enumerate()
        .map(|(i, (k, _))| field(&format!("f{}", i), Role::Element, scalar(*k)))
        .collect();
    let types = one_type("all", fields);
    let values: Vec<Value> = kinds.into_iter().map(|(_, v)| one(v)).collect();
    let events = write_record(&types[0], &values);
    assert_eq!(events.len(), 32);
    let doc = run(events, &types, 0).unwrap();
    assert_eq!(doc.root().fields, values);
    assert_eq!(scalar_to_text(&Scalar::I64(i64::MIN)), "-9223372036854775808");
    assert_eq!(scalar_to_text(&Scalar::U16(0)), "0");
    assert_eq!(scalar_to_text(&Scalar::I32(1070)), "1070");
    assert_eq!(scalar_to_text(&Scalar::Bool(false)), "false");
}

#[test]
fn attributes_of_the_opening_element() {
    let types = one_type(
        "r",
        vec![
            field("id", Role::Attribute, scalar(ScalarKind::UInt32)),
            field("tag", Role::Attribute, ValueKind::Optional(ItemKind::Scalar(ScalarKind::Text))),
            field("c", Role::Element, scalar(ScalarKind::Int8)),
        ],
    );
    let events = vec![
        start_with("r", &[("id", "1"), ("id", "2")], &[]),
        start_with("c", &[("id", "9")], &[]),
        chars("3"),
        end("c"),
        end("r"),
    ];
    let doc = run(events, &types, 0).unwrap();
    assert_eq!(
        doc.root().fields,
        vec![one(Scalar::U32(2)), Value::Optional(None), one(Scalar::I8(3))]
    );
    let events = vec![start_with("r", &[("tag", "t")], &[]), end("r")];
    assert_eq!(
        run(events, &types, 0).unwrap().root().fields,
        vec![
            one(Scalar::U32(0)),
            Value::Optional(Some(Item::Scalar(Scalar::Text(s("t"))))),
            one(Scalar::I8(0))
        ]
    );
    let events = vec![start_with("r", &[("id", "-1")], &[]), end("r")];
    assert_eq!(run(events, &types, 0), Err(ParseError::Conversion));
    let events = vec![start_with("r", &[("id", "x"), ("id", "7")], &[]), end("r")];
    assert_eq!(run(events, &types, 0), Err(ParseError::Conversion));
}

#[test]
fn later_occurrences_overwrite() {
    let types = one_type(
        "r",
        vec![
            field("t", Role::Text, scalar(ScalarKind::Text)),
            field("n", Role::Element, scalar(ScalarKind::UInt64)),
        ],
    );
    let events = vec![
        start("r"),
        chars("first"),
        start("n"),
        chars("1"),
        end("n"),
        chars("second"),
        start("n"),
        chars("2"),
        end("n"),
        end("r"),
    ];
    let doc = run(events, &types, 0).unwrap();
    assert_eq!(doc.root().fields, vec![one(Scalar::Text(s("second"))), one(Scalar::U64(2))]);
}

#[test]
fn record_read_from_an_attribute() {
    let types = vec![
        TypeDescriptor {
            root: s("money"),
            fields: vec![
                field("amount", Role::Text, scalar(ScalarKind::UInt32)),
                field("unit", Role::Element, scalar(ScalarKind::Text)),
            ],
            namespaces: vec![],
        },
        TypeDescriptor {
            root: s("book"),
            fields: vec![field("price", Role::Attribute, ValueKind::One(ItemKind::Record(0)))],
            namespaces: vec![],
        },
    ];
    let doc = run(vec![start_with("book", &[("price", "12")], &[]), end("book")], &types, 1).unwrap();
    assert_eq!(doc.records.len(), 3);
    assert_eq!(doc.records[0].fields, vec![one(Scalar::U32(0)), one(Scalar::Text(s("")))]);
    assert_eq!(doc.records[1].fields, vec![one(Scalar::U32(12)), one(Scalar::Text(s("")))]);
    assert_eq!(doc.root().fields, vec![Value::One(Item::Record(1))]);
    let events = vec![start_with("book", &[("price", "x")], &[]), end("book")];
    assert_eq!(
        run(events, &types, 1),
        Err(ParseError::Nested { field: s("price"), inner: Box::new(ParseError::Conversion) })
    );
    let mut with_ns = types;
    with_ns[0].namespaces = vec![s("urn:m")];
    let events = vec![start_with("book", &[("price", "1")], &[]), end("book")];
    assert_eq!(
        run(events, &with_ns, 1),
        Err(ParseError::Nested { field: s("price"), inner: Box::new(ParseError::Namespace) })
    );
}

#[test]
fn nested_markup_is_an_inline_value() {
    let types = one_type(
        "r",
        vec![
            field("f", Role::Element, scalar(ScalarKind::Text)),
            field("n", Role::Element, scalar(ScalarKind::Int32)),
        ],
    );
    let events = vec![
        start("r"),
        start("f"),
        start("g"),
        chars("x"),
        end("g"),
        chars("y"),
        start("f"),
        chars("z"),
        end("f"),
        end("f"),
        start("n"),
        start("b"),
        chars("-1"),
        end("b"),
        chars("2"),
        end("n"),
        end("r"),
    ];
    let doc = run(events, &types, 0).unwrap();
    assert_eq!(doc.root().fields, vec![one(Scalar::Text(s("xyz"))), one(Scalar::I32(-12))]);
}

#[test]
fn declared_and_provided_defaults() {
    let mut types = one_type(
        "r",
        vec![
            field("l", Role::Element, ValueKind::List(ItemKind::Scalar(ScalarKind::UInt8))),
            field("p", Role::Attribute, scalar(ScalarKind::Text)),
        ],
    );
    types[0].fields[0].default = FieldDefault::Items(vec![Scalar::U8(1), Scalar::U8(2)]);
    types[0].fields[1].default = FieldDefault::provided(|| Scalar::Text(s("from provider")));
    assert!(check_schema(&types));
    let events = vec![start("r"), start("l"), chars("3"), end("l"), end("r")];
    let doc = run(events, &types, 0).unwrap();
    let items = vec![
        Item::Scalar(Scalar::U8(1)),
        Item::Scalar(Scalar::U8(2)),
        Item::Scalar(Scalar::U8(3)),
    ];
    assert_eq!(
        doc.root().fields,
        vec![Value::List(items), one(Scalar::Text(s("from provider")))]
    );
    types[0].fields[0].default = FieldDefault::Items(vec![Scalar::I8(1)]);
    assert!(!check_schema(&types));
}

#[test]
fn declared_record_defaults() {
    let mut types = vec![
        TypeDescriptor {
            root: s("point"),
            fields: vec![
                field("x", Role::Element, scalar(ScalarKind::Int32)),
                field("y", Role::Element, scalar(ScalarKind::Int32)),
            ],
            namespaces: vec![],
        },
        TypeDescriptor {
            root: s("shape"),
            fields: vec![
                field("origin", Role::Element, ValueKind::One(ItemKind::Record(0))),
                field("anchor", Role::Element, ValueKind::Optional(ItemKind::Record(0))),
            ],
            namespaces: vec![],
        },
    ];
    types[1].fields[0].default = FieldDefault::Fields(vec![Scalar::I32(1), Scalar::I32(2)]);
    types[1].fields[1].default = FieldDefault::Fields(vec![Scalar::I32(3), Scalar::I32(4)]);
    let doc = run(vec![start("shape"), end("shape")], &types, 1).unwrap();
    assert_eq!(doc.records.len(), 3);
    assert_eq!(doc.records[0].fields, vec![one(Scalar::I32(1)), one(Scalar::I32(2))]);
    assert_eq!(doc.records[1].fields, vec![one(Scalar::I32(3)), one(Scalar::I32(4))]);
    assert_eq!(
        doc.root().fields,
        vec![Value::One(Item::Record(0)), Value::Optional(Some(Item::Record(1)))]
    );
    types[1].fields[1].default = FieldDefault::Fields(vec![Scalar::I32(3)]);
    assert!(!check_schema(&types));
    types[1].fields[1].default = FieldDefault::Fields(vec![Scalar::I32(3), Scalar::U8(4)]);
    assert!(!check_schema(&types));
}
