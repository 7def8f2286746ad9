use rustxes::event_log_struct::{
    Attribute, AttributeAddable, AttributeValue, Attributes, Event, EventLog, Trace,
};
use rustxes::rows::list_rows;
use rustxes::sorting::chronological_order;
use rustxes::table::{CellValue, Column, DataType, Table};
use rustxes::time::{
    choose_instant, instant_from_parts, parse_timestamp, text_or_seconds, timestamp_text, Timestamp,
};
use rustxes::xes_import::{
    add_attribute_from_tag, attribute_from_parts, classify_tag, classifier_from_tag,
    extension_from_tag, scope_from_tag, GlobalScope, ImportNote, Mode, TagType, XESImportOptions,
    XesParser,
};
use rustxes::xml::{reading_goes_on, tag_from_items, XmlAttribute, XmlTag, XmlToken};

fn int_of(value: &AttributeValue) -> i64 {
    match value {
        AttributeValue::Int(n) => *n,
        other => panic!("not a number: {:?}", other),
    }
}

#[test]
fn attributes_are_a_mapping_in_order_of_first_keys() {
    let mut attributes = Attributes::new();
    assert_eq!(attributes.len(), 0);
    attributes.add_to_attributes("a".to_string(), AttributeValue::Int(1));
    attributes.add_to_attributes("b".to_string(), AttributeValue::Int(2));
    attributes.add_to_attributes("a".to_string(), AttributeValue::Int(3));
    assert_eq!(attributes.len(), 2);
    assert_eq!(attributes.at(0).key, "a");
    assert_eq!(int_of(&attributes.at(0).value), 3);
    assert_eq!(attributes.at(1).key, "b");
    assert_eq!(int_of(&attributes.get(&"b".to_string()).unwrap().value), 2);
    assert!(attributes.get(&"c".to_string()).is_none());
    let mut own = Attributes::new();
    own.add_to_attributes("x".to_string(), AttributeValue::Null);
    attributes.insert(Attribute {
        key: "b".to_string(),
        value: AttributeValue::Boolean(true),
        own_attributes: Some(own),
    });
    assert_eq!(attributes.len(), 2);
    let b = attributes.get(&"b".to_string()).unwrap();
    assert!(matches!(b.value, AttributeValue::Boolean(true)));
    assert_eq!(b.own_attributes.as_ref().unwrap().len(), 1);
}

#[test]
fn new_attribute_has_nothing_attached() {
    let a = Attribute::new("k".to_string(), AttributeValue::Int(5));
    assert_eq!(a.key, "k");
    assert_eq!(int_of(&a.value), 5);
    assert!(a.own_attributes.is_none());
    let (key, a) = Attribute::new_with_key("k2".to_string(), AttributeValue::Int(6));
    assert_eq!(key, "k2");
    assert_eq!(a.key, "k2");
    assert_eq!(int_of(&a.value), 6);
    assert!(a.own_attributes.is_none());
}

#[test]
fn copies_hold_the_same() {
    let mut inner = Attributes::new();
    inner.add_to_attributes("n".to_string(), AttributeValue::Int(5));
    let mut event = Event::new();
    event.attributes.insert(Attribute {
        key: "l".to_string(),
        value: AttributeValue::List(vec![Attribute::new(
            "c".to_string(),
            AttributeValue::Container(inner.clone()),
        )]),
        own_attributes: Some(inner),
    });
    let mut trace = Trace::new();
    trace.events.push(event);
    let mut log = EventLog::new();
    log.traces.push(trace);
    log.global_event_attrs.add_to_attributes("g".to_string(), AttributeValue::Boolean(true));
    let copy = log.clone();
    assert_eq!(format!("{:?}", copy), format!("{:?}", log));
    assert_eq!(copy.traces[0].events[0].attributes.at(0).key, "l");
}

#[test]
fn new_log_is_empty() {
    let log = EventLog::new();
    assert_eq!(log.traces.len(), 0);
    assert_eq!(log.attributes.len(), 0);
    assert_eq!(log.extensions.unwrap().len(), 0);
    assert_eq!(log.classifiers.unwrap().len(), 0);
    assert_eq!(log.global_trace_attrs.len(), 0);
    assert_eq!(log.global_event_attrs.len(), 0);
    assert_eq!(Trace::new().events.len(), 0);
    assert_eq!(Event::new().attributes.len(), 0);
}

#[test]
fn rows_come_outer_item_by_outer_item() {
    assert_eq!(list_rows(&vec![2, 0, 3]), vec![(0, 0), (0, 1), (2, 0), (2, 1), (2, 2)]);
    assert_eq!(list_rows(&vec![]), vec![]);
    assert_eq!(list_rows(&vec![0, 0]), vec![]);
    assert_eq!(list_rows(&vec![1, 1]), vec![(0, 0), (1, 0)]);
}

fn at(secs: i64, nanos: u32) -> Timestamp {
    Timestamp { secs, nanos }
}

#[test]
fn chronological_order_is_stable() {
    let times = vec![at(5, 0), at(1, 500), at(5, 0), at(1, 499), at(-3, 0), at(5, 0), at(1, 500)];
    assert_eq!(chronological_order(&times), vec![4, 3, 1, 6, 0, 2, 5]);
    assert_eq!(chronological_order(&vec![]), Vec::<usize>::new());
    assert_eq!(chronological_order(&vec![at(0, 0)]), vec![0]);
}

#[test]
fn epoch_is_told_apart() {
    assert!(Timestamp::epoch().at_epoch());
    assert!(!at(0, 1).at_epoch());
    assert!(!at(1, 0).at_epoch());
    assert_eq!(Timestamp::epoch(), at(0, 0));
}

#[test]
fn date_texts_are_read() {
    assert_eq!(parse_timestamp("1970-01-01T00:00:00Z", &None), Some(at(0, 0)));
    assert_eq!(
        parse_timestamp("2023-10-06T09:30:21.890421+02:00", &None),
        Some(at(1696577421, 890_421_000))
    );
    assert_eq!(parse_timestamp("1969-12-31T23:59:59.5Z", &None), Some(at(-1, 500_000_000)));
    assert_eq!(parse_timestamp("2023-10-06 09:30:21", &None), None);
    assert_eq!(parse_timestamp("", &None), None);
    let format = Some("%d.%m.%Y %H:%M".to_string());
    assert_eq!(parse_timestamp("06.10.2023 09:30", &format), Some(at(1696584600, 0)));
    assert_eq!(parse_timestamp("2023-10-06T09:30:21Z", &format), None);
    let with_offset = Some("%d.%m.%Y %H:%M %z".to_string());
    assert_eq!(parse_timestamp("06.10.2023 09:30 +0100", &with_offset), Some(at(1696581000, 0)));
    assert_eq!(parse_timestamp("06.10.2023 09:30", &Some("%Q".to_string())), None);
}

#[test]
fn reading_with_an_offset_wins() {
    assert_eq!(choose_instant(Some((1, 2)), Some((3, 4))), Some(at(1, 2)));
    assert_eq!(choose_instant(None, Some((3, 4))), Some(at(3, 4)));
    assert_eq!(choose_instant(Some((1, 2)), None), Some(at(1, 2)));
    assert_eq!(choose_instant(None, None), None);
    assert_eq!(instant_from_parts(Some((-5, 7))), Some(at(-5, 7)));
    assert_eq!(instant_from_parts(None), None);
}

#[test]
fn instants_are_written() {
    assert_eq!(timestamp_text(&at(0, 0)), "1970-01-01T00:00:00+00:00");
    assert_eq!(timestamp_text(&at(1696577421, 890_000_000)), "2023-10-06T07:30:21.890+00:00");
    assert_eq!(timestamp_text(&at(i64::MAX, 0)), "9223372036854775807");
    assert_eq!(text_or_seconds(Some("x".to_string()), 5), "x");
    assert_eq!(text_or_seconds(None, -5), "-5");
}

#[test]
fn table_columns_are_found_by_name() {
    let table = Table {
        columns: vec![
            Column { name: "a".to_string(), values: vec![CellValue::Int(1)] },
            Column { name: "b".to_string(), values: vec![CellValue::Null] },
            Column { name: "a".to_string(), values: vec![CellValue::Int(2)] },
        ],
        height: 1,
    };
    assert_eq!(table.shape(), (1, 3));
    assert!(matches!(table.column("a").unwrap().values[0], CellValue::Int(1)));
    assert!(matches!(table.column("b").unwrap().values[0], CellValue::Null));
    assert!(table.column("c").is_none());
    assert_eq!(CellValue::Null.data_type(), None);
    assert_eq!(CellValue::String(String::new()).data_type(), Some(DataType::String));
    assert_eq!(CellValue::Boolean(true).data_type(), Some(DataType::Boolean));
    assert!(matches!(CellValue::Int(4).clone(), CellValue::Int(4)));
}

fn tag(name: &str, attributes: &[(&str, &str)]) -> XmlTag {
    XmlTag {
        name: name.to_string(),
        attributes: attributes
            .iter()
            .map(|(k, v)| XmlAttribute { key: k.to_string(), value: v.to_string() })
            .collect(),
    }
}

#[test]
fn tag_fields_are_the_first_of_their_name() {
    let t = tag("string", &[("key", "k"), ("value", "v"), ("key", "other")]);
    assert_eq!(t.field("key"), "k");
    assert_eq!(t.field("value"), "v");
    assert_eq!(t.field("missing"), "");
}

#[test]
fn tags_are_classified_by_name() {
    let cases = [
        ("string", TagType::String),
        ("date", TagType::Date),
        ("int", TagType::Int),
        ("float", TagType::Float),
        ("boolean", TagType::Boolean),
        ("id", TagType::ID),
        ("container", TagType::Container),
        ("list", TagType::List),
        ("String", TagType::Unknown),
        ("", TagType::Unknown),
        ("trace", TagType::Unknown),
    ];
    for (name, expected) in cases {
        assert_eq!(classify_tag(name), expected);
    }
}

#[test]
fn attribute_is_made_of_what_its_text_denotes() {
    let made = |expected, text: &str, instant, id, strict| {
        attribute_from_parts(expected, "k".to_string(), text.to_string(), instant, id, strict)
    };
    let date = made(TagType::Date, "whatever", Some(at(9, 1)), None, true).unwrap();
    assert_eq!(date.0, "k");
    assert!(matches!(date.1, AttributeValue::Date(t) if t == at(9, 1)));
    let error = made(TagType::Date, "whatever", None, Some(3), true).unwrap_err();
    assert_eq!(error.expected, TagType::Date);
    assert_eq!(error.key, "k");
    assert_eq!(error.value, "whatever");
    let lenient = made(TagType::Date, "whatever", None, None, false).unwrap();
    assert!(matches!(lenient.1, AttributeValue::Null));
    let id = made(TagType::ID, "whatever", Some(at(9, 1)), Some(77), true).unwrap();
    assert!(matches!(id.1, AttributeValue::ID(77)));
    assert!(made(TagType::ID, "whatever", Some(at(9, 1)), None, true).is_err());
    let text = made(TagType::String, "12", Some(at(9, 1)), Some(77), true).unwrap();
    assert!(matches!(text.1, AttributeValue::String(s) if s == "12"));
    let int = made(TagType::Int, "12", None, None, true).unwrap();
    assert!(matches!(int.1, AttributeValue::Int(12)));
    assert!(made(TagType::Int, "12.0", None, None, true).is_err());
    assert!(matches!(
        made(TagType::Boolean, "false", None, None, true).unwrap().1,
        AttributeValue::Boolean(false)
    ));
    assert!(made(TagType::Boolean, "False", None, None, true).is_err());
    assert!(matches!(
        made(TagType::List, "ignored", None, None, true).unwrap().1,
        AttributeValue::List(l) if l.is_empty()
    ));
    assert!(matches!(
        made(TagType::Container, "ignored", None, None, true).unwrap().1,
        AttributeValue::Container(c) if c.len() == 0
    ));
    assert!(matches!(
        made(TagType::Unknown, "ignored", None, None, true).unwrap().1,
        AttributeValue::Null
    ));
}

#[test]
fn extension_and_classifier_of_a_tag() {
    let e = extension_from_tag(&tag("extension", &[("prefix", "p"), ("name", "n")]));
    assert_eq!((e.name.as_str(), e.prefix.as_str(), e.uri.as_str()), ("n", "p", ""));
    let c = classifier_from_tag(&tag("classifier", &[("name", "n"), ("keys", "a b  c")]));
    assert_eq!(c.name, "n");
    assert_eq!(c.keys, vec!["a", "b", "", "c"]);
    let c = classifier_from_tag(&tag("classifier", &[]));
    assert_eq!(c.keys, vec![""]);
}

#[test]
fn scope_of_a_declaration_of_global_attributes() {
    assert_eq!(scope_from_tag(&tag("global", &[("scope", "trace")])), GlobalScope::Trace);
    assert_eq!(scope_from_tag(&tag("global", &[("scope", "event")])), GlobalScope::Event);
    assert_eq!(scope_from_tag(&tag("global", &[("scope", "log")])), GlobalScope::Unknown);
    assert_eq!(scope_from_tag(&tag("global", &[])), GlobalScope::Unknown);
}

#[test]
fn attribute_is_put_where_the_mode_says() {
    let options = XESImportOptions::default();
    let attribute = tag("int", &[("key", "n"), ("value", "4")]);
    let mut log = EventLog::new();
    let mut nested: Vec<Attribute> = Vec::new();
    add_attribute_from_tag(&attribute, Mode::Trace, &mut log, &mut nested, &options).unwrap();
    add_attribute_from_tag(&attribute, Mode::Event, &mut log, &mut nested, &options).unwrap();
    add_attribute_from_tag(&attribute, Mode::Attribute, &mut log, &mut nested, &options).unwrap();
    add_attribute_from_tag(&attribute, Mode::Global, &mut log, &mut nested, &options).unwrap();
    assert_eq!(log.attributes.len(), 0);
    assert_eq!(log.global_event_attrs.len() + log.global_trace_attrs.len(), 0);
    add_attribute_from_tag(&attribute, Mode::Log, &mut log, &mut nested, &options).unwrap();
    assert_eq!(log.attributes.len(), 1);
    let mut trace = Trace::new();
    trace.events.push(Event::new());
    trace.events.push(Event::new());
    log.traces.push(Trace::new());
    log.traces.push(trace);
    add_attribute_from_tag(&attribute, Mode::Trace, &mut log, &mut nested, &options).unwrap();
    add_attribute_from_tag(&attribute, Mode::Event, &mut log, &mut nested, &options).unwrap();
    assert_eq!(log.traces[0].attributes.len(), 0);
    assert_eq!(log.traces[1].attributes.len(), 1);
    assert_eq!(log.traces[1].events[0].attributes.len(), 0);
    assert_eq!(log.traces[1].events[1].attributes.len(), 1);
    nested.push(Attribute::new("outer".to_string(), AttributeValue::Int(0)));
    nested.push(Attribute::new("inner".to_string(), AttributeValue::List(Vec::new())));
    add_attribute_from_tag(&attribute, Mode::Attribute, &mut log, &mut nested, &options).unwrap();
    assert!(nested[0].own_attributes.is_none());
    assert!(matches!(&nested[1].value, AttributeValue::List(l) if l.len() == 1));
    let bad = tag("int", &[("key", "n"), ("value", "four")]);
    assert!(add_attribute_from_tag(&bad, Mode::Log, &mut log, &mut nested, &options).is_err());
    assert_eq!(log.attributes.len(), 1);
}

#[test]
fn modes_follow_the_tags() {
    let mut parser = XesParser::new(XESImportOptions::default());
    assert_eq!(parser.mode, Mode::Log);
    parser.step(&XmlToken::Start(tag("trace", &[]))).unwrap();
    assert_eq!(parser.mode, Mode::Trace);
    parser.step(&XmlToken::Start(tag("event", &[]))).unwrap();
    assert_eq!(parser.mode, Mode::Event);
    parser.step(&XmlToken::Start(tag("list", &[("key", "l")]))).unwrap();
    assert_eq!((parser.mode, parser.remembered), (Mode::Attribute, Mode::Event));
    parser.step(&XmlToken::Start(tag("container", &[("key", "c")]))).unwrap();
    assert_eq!((parser.mode, parser.remembered), (Mode::Attribute, Mode::Event));
    assert_eq!(parser.nested.len(), 2);
    parser.step(&XmlToken::End("container".to_string())).unwrap();
    assert_eq!((parser.mode, parser.nested.len()), (Mode::Attribute, 1));
    parser.step(&XmlToken::End("list".to_string())).unwrap();
    assert_eq!((parser.mode, parser.nested.len()), (Mode::Event, 0));
    parser.step(&XmlToken::Start(tag("global", &[("scope", "event")]))).unwrap();
    assert_eq!((parser.mode, parser.remembered), (Mode::Global, Mode::Event));
    assert_eq!(parser.scope, GlobalScope::Event);
    parser.step(&XmlToken::Empty(tag("string", &[("key", "k"), ("value", "v")]))).unwrap();
    assert_eq!(parser.log.global_event_attrs.len(), 1);
    assert_eq!(parser.log.global_trace_attrs.len(), 0);
    parser.step(&XmlToken::End("global".to_string())).unwrap();
    assert_eq!(parser.mode, Mode::Event);
    parser.step(&XmlToken::End("event".to_string())).unwrap();
    assert_eq!(parser.mode, Mode::Trace);
    parser.step(&XmlToken::Start(tag("unknown", &[]))).unwrap();
    assert_eq!((parser.mode, parser.nested.len()), (Mode::Trace, 0));
    parser.step(&XmlToken::End("unknown".to_string())).unwrap();
    assert_eq!(parser.mode, Mode::Log);
    parser.step(&XmlToken::Malformed).unwrap();
    parser.step(&XmlToken::Other).unwrap();
    parser.step(&XmlToken::Eof).unwrap();
    assert_eq!(parser.mode, Mode::Log);
    let log = parser.finish();
    assert_eq!(log.traces.len(), 1);
    assert_eq!(log.traces[0].events.len(), 1);
    let event = &log.traces[0].events[0];
    assert_eq!(event.attributes.len(), 1);
    let list = event.attributes.get(&"l".to_string()).unwrap();
    assert_eq!(list.own_attributes.as_ref().unwrap().at(0).key, "c");
}

#[test]
fn strict_step_leaves_the_state_on_error() {
    let mut parser = XesParser::new(XESImportOptions::default());
    parser.step(&XmlToken::Start(tag("trace", &[]))).unwrap();
    let error = parser
        .step(&XmlToken::Empty(tag("int", &[("key", "n"), ("value", "many")])))
        .unwrap_err();
    assert_eq!((error.expected, error.key.as_str(), error.value.as_str()), (TagType::Int, "n", "many"));
    assert_eq!(parser.mode, Mode::Trace);
    assert_eq!(parser.log.traces[0].attributes.len(), 0);
    assert!(parser.step(&XmlToken::Start(tag("int", &[("key", "n"), ("value", "many")]))).is_err());
    assert_eq!(parser.nested.len(), 0);
}

#[test]
fn notes_tell_what_is_passed_over() {
    let mut parser = XesParser::new(XESImportOptions::default());
    assert!(parser.note(&XmlToken::Empty(tag("foo", &[]))).is_none());
    parser.step(&XmlToken::Start(tag("trace", &[]))).unwrap();
    match parser.note(&XmlToken::Empty(tag("foo", &[]))) {
        Some(ImportNote::UnknownType(name, mode)) => {
            assert_eq!(name, "foo");
            assert_eq!(mode, Mode::Trace);
        }
        other => panic!("no note of an unknown type: {:?}", other),
    }
    assert!(matches!(
        parser.note(&XmlToken::Start(tag("foo", &[]))),
        Some(ImportNote::UnknownType(_, Mode::Trace))
    ));
    assert!(parser.note(&XmlToken::Start(tag("event", &[]))).is_none());
    assert!(parser.note(&XmlToken::Empty(tag("extension", &[]))).is_none());
    assert!(parser.note(&XmlToken::Empty(tag("string", &[]))).is_none());
    assert!(parser.note(&XmlToken::End("foo".to_string())).is_none());
    parser.mode = Mode::Attribute;
    assert!(matches!(
        parser.note(&XmlToken::End("foo".to_string())),
        Some(ImportNote::NoOpenAttribute)
    ));
    assert!(parser.note(&XmlToken::End("trace".to_string())).is_none());
    assert!(parser.note(&XmlToken::Eof).is_none());
}

#[test]
fn tag_is_made_of_its_attributes_where_all_are_well_formed() {
    let attribute = |k: &str, v: &str| Some(XmlAttribute { key: k.to_string(), value: v.to_string() });
    let made = tag_from_items(
        "string".to_string(),
        vec![attribute("key", "k"), attribute("value", "v"), attribute("key", "again")],
    )
    .unwrap();
    assert_eq!(made.name, "string");
    let pairs: Vec<(&str, &str)> =
        made.attributes.iter().map(|a| (a.key.as_str(), a.value.as_str())).collect();
    assert_eq!(pairs, vec![("key", "k"), ("value", "v"), ("key", "again")]);
    let bare = tag_from_items("trace".to_string(), vec![]).unwrap();
    assert_eq!(bare.name, "trace");
    assert!(bare.attributes.is_empty());
    assert!(tag_from_items("int".to_string(), vec![attribute("key", "k"), None]).is_none());
    assert!(tag_from_items("int".to_string(), vec![None, attribute("key", "k")]).is_none());
    assert!(tag_from_items("int".to_string(), vec![None]).is_none());
}

#[test]
fn reading_goes_on_while_the_reader_gets_ahead() {
    let tag = XmlToken::Start(XmlTag { name: "trace".to_string(), attributes: vec![] });
    assert!(reading_goes_on(&tag, 8, 7));
    assert!(!reading_goes_on(&tag, 7, 7));
    assert!(!reading_goes_on(&tag, 6, 7));
    assert!(reading_goes_on(&XmlToken::Malformed, 1, 0));
    assert!(!reading_goes_on(&XmlToken::Malformed, 0, 0));
    assert!(reading_goes_on(&XmlToken::Other, u64::MAX, 0));
    assert!(!reading_goes_on(&XmlToken::Eof, 8, 7));
    assert!(!reading_goes_on(&XmlToken::Eof, 7, 7));
}

#[test]
fn added_attribute_is_handed_back() {
    let mut attributes = Attributes::new();
    let first = attributes.add_to_attributes("a".to_string(), AttributeValue::Int(1)).unwrap();
    assert_eq!(first.key, "a");
    assert_eq!(int_of(&first.value), 1);
    assert!(first.own_attributes.is_none());
    attributes.add_to_attributes("b".to_string(), AttributeValue::Int(2));
    let again = attributes.add_to_attributes("a".to_string(), AttributeValue::Int(3)).unwrap();
    assert_eq!((again.key.as_str(), int_of(&again.value)), ("a", 3));
    assert_eq!(attributes.len(), 2);
}
