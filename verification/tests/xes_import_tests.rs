use rustxes::event_log_struct::{Attribute, AttributeValue, EventLog};
use rustxes::time::Timestamp;
use rustxes::xes_import::{
    import_xes, import_xes_str, Mode, TagType, XESImportOptions, XesParser,
};
use rustxes::xml::{XmlAttribute, XmlTag, XmlToken};

fn key(log_attr: &Attribute) -> &str {
    log_attr.key.as_str()
}

fn import(text: &str) -> EventLog {
    import_xes_str(text, XESImportOptions::default()).unwrap()
}

fn string_of(value: &AttributeValue) -> &str {
    match value {
        AttributeValue::String(s) => s.as_str(),
        other => panic!("not a string: {:?}", other),
    }
}

#[test]
fn traces_and_events_in_document_order() {
    let log = import(
        r#"<?xml version="1.0"?>
<log>
  <trace>
    <string key="concept:name" value="case1"/>
    <event><string key="concept:name" value="A"/></event>
    <event><string key="concept:name" value="B"/></event>
  </trace>
  <trace>
    <event><string key="concept:name" value="C"/></event>
  </trace>
</log>"#,
    );
    assert_eq!(log.traces.len(), 2);
    assert_eq!(log.traces[0].events.len(), 2);
    assert_eq!(log.traces[1].events.len(), 1);
    let name = "concept:name".to_string();
    assert_eq!(string_of(&log.traces[0].attributes.get(&name).unwrap().value), "case1");
    assert_eq!(string_of(&log.traces[0].events[0].attributes.get(&name).unwrap().value), "A");
    assert_eq!(string_of(&log.traces[0].events[1].attributes.get(&name).unwrap().value), "B");
    assert_eq!(string_of(&log.traces[1].events[0].attributes.get(&name).unwrap().value), "C");
    assert_eq!(log.attributes.len(), 0);
}

#[test]
fn list_keeps_document_order() {
    let log = import(
        r#"<log><trace><event>
<list key="items"><string key="a" value="x"/><string key="b" value="y"/></list>
</event></trace></log>"#,
    );
    let event = &log.traces[0].events[0];
    let items = event.attributes.get(&"items".to_string()).unwrap();
    match &items.value {
        AttributeValue::List(l) => {
            assert_eq!(l.len(), 2);
            assert_eq!(key(&l[0]), "a");
            assert_eq!(string_of(&l[0].value), "x");
            assert_eq!(key(&l[1]), "b");
            assert_eq!(string_of(&l[1].value), "y");
        }
        other => panic!("not a list: {:?}", other),
    }
}

#[test]
fn list_without_key_is_kept() {
    let log = import(
        r#"<log><list><string key="a" value="x"/><string key="b" value="y"/></list></log>"#,
    );
    let list = log.attributes.get(&String::new()).unwrap();
    match &list.value {
        AttributeValue::List(l) => {
            assert_eq!(l.len(), 2);
            assert_eq!(key(&l[0]), "a");
            assert_eq!(key(&l[1]), "b");
        }
        other => panic!("not a list: {:?}", other),
    }
}

#[test]
fn container_holds_children_by_key() {
    let log = import(
        r#"<log><trace><container key="c"><int key="n" value="1"/><int key="n" value="2"/><int key="m" value="3"/></container></trace></log>"#,
    );
    let c = log.traces[0].attributes.get(&"c".to_string()).unwrap();
    match &c.value {
        AttributeValue::Container(inner) => {
            assert_eq!(inner.len(), 2);
            match inner.get(&"n".to_string()).unwrap().value {
                AttributeValue::Int(n) => assert_eq!(n, 2),
                _ => panic!("not an int"),
            }
            assert_eq!(inner.at(0).key, "n");
            assert_eq!(inner.at(1).key, "m");
        }
        other => panic!("not a container: {:?}", other),
    }
}

#[test]
fn scalar_parent_takes_children_as_own_attributes() {
    let log = import(
        r#"<log><trace><event><string key="s" value="v"><int key="n" value="7"/></string></event></trace></log>"#,
    );
    let s = log.traces[0].events[0].attributes.get(&"s".to_string()).unwrap();
    assert_eq!(string_of(&s.value), "v");
    let own = s.own_attributes.as_ref().unwrap();
    assert_eq!(own.len(), 1);
    match own.get(&"n".to_string()).unwrap().value {
        AttributeValue::Int(n) => assert_eq!(n, 7),
        _ => panic!("not an int"),
    }
}

#[test]
fn nested_attribute_goes_into_parents_own_attributes() {
    let log = import(
        r#"<log><trace><list key="outer"><list key="inner"><int key="n" value="1"/></list></list></trace></log>"#,
    );
    let outer = log.traces[0].attributes.get(&"outer".to_string()).unwrap();
    match &outer.value {
        AttributeValue::List(l) => assert_eq!(l.len(), 0),
        _ => panic!("not a list"),
    }
    let own = outer.own_attributes.as_ref().unwrap();
    let inner = own.get(&"inner".to_string()).unwrap();
    match &inner.value {
        AttributeValue::List(l) => {
            assert_eq!(l.len(), 1);
            assert_eq!(l[0].key, "n");
        }
        _ => panic!("not a list"),
    }
}

#[test]
fn typed_values_are_read() {
    let log = import(
        r#"<log>
<date key="d" value="2023-10-06T09:30:21.890+02:00"/>
<int key="i" value="-42"/>
<float key="f" value="1.5e3"/>
<boolean key="b" value="true"/>
<id key="u" value="a1a2a3a4-b1b2-c1c2-d1d2-d3d4d5d6d7d8"/>
<foo key="x" value="y"/>
</log>"#,
    );
    match log.attributes.get(&"d".to_string()).unwrap().value {
        AttributeValue::Date(t) => {
            assert_eq!(t, Timestamp { secs: 1696577421, nanos: 890_000_000 })
        }
        _ => panic!("not a date"),
    }
    match log.attributes.get(&"i".to_string()).unwrap().value {
        AttributeValue::Int(n) => assert_eq!(n, -42),
        _ => panic!("not an int"),
    }
    match &log.attributes.get(&"f".to_string()).unwrap().value {
        AttributeValue::Float(f) => assert_eq!(f.as_str(), "1.5e3"),
        _ => panic!("not a float"),
    }
    match log.attributes.get(&"b".to_string()).unwrap().value {
        AttributeValue::Boolean(b) => assert!(b),
        _ => panic!("not a boolean"),
    }
    match log.attributes.get(&"u".to_string()).unwrap().value {
        AttributeValue::ID(u) => assert_eq!(u, 0xa1a2a3a4b1b2c1c2d1d2d3d4d5d6d7d8u128),
        _ => panic!("not an id"),
    }
    assert!(matches!(log.attributes.get(&"x".to_string()).unwrap().value, AttributeValue::Null));
}

#[test]
fn strict_import_rejects_values_that_do_not_fit() {
    let cases = [
        ("date", "yesterday", TagType::Date),
        ("int", "12a", TagType::Int),
        ("float", "1.2.3", TagType::Float),
        ("boolean", "TRUE", TagType::Boolean),
        ("id", "not-an-id", TagType::ID),
    ];
    for (tag, value, expected) in cases {
        let text = format!(r#"<log><{} key="k" value="{}"/></log>"#, tag, value);
        let error = import_xes_str(&text, XESImportOptions::default()).unwrap_err();
        assert_eq!(error.expected, expected);
        assert_eq!(error.key, "k");
        assert_eq!(error.value, value);
        assert_eq!(
            error.message(),
            format!("attribute 'k': '{}' is no value of type {}", value, tag)
        );
        let lenient = import_xes_str(&text, XESImportOptions { date_format: None, strict: false })
            .unwrap();
        assert!(matches!(
            lenient.attributes.get(&"k".to_string()).unwrap().value,
            AttributeValue::Null
        ));
    }
}

#[test]
fn date_format_overrides_rfc3339() {
    let text = r#"<log><date key="d" value="2023-10-06 09:30:21"/></log>"#;
    assert!(import_xes_str(text, XESImportOptions::default()).is_err());
    let options =
        XESImportOptions { date_format: Some("%Y-%m-%d %H:%M:%S".to_string()), strict: true };
    let log = import_xes_str(text, options).unwrap();
    match log.attributes.get(&"d".to_string()).unwrap().value {
        AttributeValue::Date(t) => assert_eq!(t, Timestamp { secs: 1696584621, nanos: 0 }),
        _ => panic!("not a date"),
    }
    let with_offset =
        XESImportOptions { date_format: Some("%Y-%m-%d %H:%M:%S %z".to_string()), strict: true };
    let log = import_xes_str(
        r#"<log><date key="d" value="2023-10-06 09:30:21 +0200"/></log>"#,
        with_offset,
    )
    .unwrap();
    match log.attributes.get(&"d".to_string()).unwrap().value {
        AttributeValue::Date(t) => assert_eq!(t, Timestamp { secs: 1696577421, nanos: 0 }),
        _ => panic!("not a date"),
    }
}

#[test]
fn extensions_and_classifiers_are_kept() {
    let log = import(
        r#"<log>
<extension name="Concept" prefix="concept" uri="http://www.xes-standard.org/concept.xesext"/>
<classifier name="Activity" keys="concept:name lifecycle:transition"/>
</log>"#,
    );
    let extensions = log.extensions.unwrap();
    assert_eq!(extensions.len(), 1);
    assert_eq!(extensions[0].name, "Concept");
    assert_eq!(extensions[0].prefix, "concept");
    assert_eq!(extensions[0].uri, "http://www.xes-standard.org/concept.xesext");
    let classifiers = log.classifiers.unwrap();
    assert_eq!(classifiers.len(), 1);
    assert_eq!(classifiers[0].name, "Activity");
    assert_eq!(classifiers[0].keys, vec!["concept:name", "lifecycle:transition"]);
}

#[test]
fn global_attributes_are_kept_by_scope() {
    let log = import(
        r#"<log>
<global scope="event"><string key="concept:name" value="unknown"/><int key="cost" value="0"/></global>
<global scope="trace"><string key="concept:name" value="no name"/></global>
<global scope="other"><string key="x" value="y"/></global>
<global><string key="x" value="y"/></global>
<string key="after" value="globals"/>
<trace><string key="k" value="v"/></trace></log>"#,
    );
    assert_eq!(log.attributes.len(), 1);
    assert_eq!(log.attributes.at(0).key, "after");
    assert_eq!(log.global_event_attrs.len(), 2);
    assert_eq!(
        string_of(&log.global_event_attrs.get(&"concept:name".to_string()).unwrap().value),
        "unknown"
    );
    assert!(matches!(
        log.global_event_attrs.get(&"cost".to_string()).unwrap().value,
        AttributeValue::Int(0)
    ));
    assert_eq!(log.global_trace_attrs.len(), 1);
    assert_eq!(
        string_of(&log.global_trace_attrs.get(&"concept:name".to_string()).unwrap().value),
        "no name"
    );
    assert_eq!(log.traces[0].attributes.len(), 1);
}

#[test]
fn nested_global_attribute_is_kept_by_scope() {
    let log = import(
        r#"<log><global scope="trace"><list key="l"><int key="n" value="1"/></list></global></log>"#,
    );
    assert_eq!(log.attributes.len(), 0);
    assert_eq!(log.global_trace_attrs.len(), 1);
    match &log.global_trace_attrs.get(&"l".to_string()).unwrap().value {
        AttributeValue::List(l) => assert_eq!(l.len(), 1),
        other => panic!("not a list: {:?}", other),
    }
}

fn tag(name: &str, attributes: &[(&str, &str)]) -> XmlTag {
    XmlTag {
        name: name.to_string(),
        attributes: attributes
            .iter()
            .map(|(k, v)| XmlAttribute { key: k.to_string(), value: v.to_string() })
            .collect(),
    }
}

#[test]
fn stray_attribute_end_does_not_stop_the_import() {
    let mut parser = XesParser::new(XESImportOptions::default());
    parser.step(&XmlToken::Start(tag("log", &[]))).unwrap();
    parser.step(&XmlToken::Start(tag("trace", &[]))).unwrap();
    parser.step(&XmlToken::Empty(tag("string", &[("key", "k"), ("value", "v")]))).unwrap();
    parser.mode = Mode::Attribute;
    parser.remembered = Mode::Trace;
    parser.step(&XmlToken::End("list".to_string())).unwrap();
    assert_eq!(parser.mode, Mode::Trace);
    parser.step(&XmlToken::Empty(tag("string", &[("key", "k2"), ("value", "v2")]))).unwrap();
    parser.step(&XmlToken::End("trace".to_string())).unwrap();
    parser.step(&XmlToken::End("log".to_string())).unwrap();
    let log = parser.finish();
    assert_eq!(log.traces.len(), 1);
    assert_eq!(log.traces[0].attributes.len(), 2);
}

#[test]
fn event_outside_a_trace_is_dropped() {
    let tokens = vec![
        XmlToken::Start(tag("event", &[])),
        XmlToken::Empty(tag("string", &[("key", "k"), ("value", "v")])),
        XmlToken::End("event".to_string()),
        XmlToken::Eof,
    ];
    let log = import_xes(&tokens, XESImportOptions::default()).unwrap();
    assert_eq!(log.traces.len(), 0);
    assert_eq!(log.attributes.len(), 0);
}

#[test]
fn malformed_document_gives_what_was_read() {
    let log = import(r#"<log><trace><event><string key="a" value="x"/></event></oops></trace></log>"#);
    assert_eq!(log.traces.len(), 1);
    assert_eq!(log.traces[0].events.len(), 1);
    let log = import(r#"<log><trace><string key="a" value="x"/><event"#);
    assert_eq!(log.traces.len(), 1);
    assert_eq!(log.traces[0].attributes.len(), 1);
}

#[test]
fn import_goes_on_after_a_piece_that_is_not_well_formed() {
    let log = import(
        r#"<log><trace><string key="a" value="x"/></oops><event><int key="n" value="1"/></event></trace><trace><event></event></trace></log>"#,
    );
    assert_eq!(log.traces.len(), 2);
    assert_eq!(log.traces[0].attributes.len(), 1);
    assert_eq!(log.traces[0].events.len(), 1);
    assert_eq!(log.traces[0].events[0].attributes.len(), 1);
    assert_eq!(log.traces[1].events.len(), 1);
    let log = import(
        r#"<log><trace><string key="a" key="b" value="x"/><string key="c" value="y"/></trace></log>"#,
    );
    assert_eq!(log.traces.len(), 1);
    assert_eq!(log.traces[0].attributes.len(), 1);
    assert_eq!(log.traces[0].attributes.at(0).key, "c");
}

#[test]
fn attribute_values_are_taken_as_written() {
    let log = import(r#"<log><string key="k" value="v &amp; w"/><string value="no key"/></log>"#);
    assert_eq!(string_of(&log.attributes.get(&"k".to_string()).unwrap().value), "v &amp; w");
    assert_eq!(string_of(&log.attributes.get(&String::new()).unwrap().value), "no key");
}

#[test]
fn tag_with_a_piece_that_is_no_attribute_is_passed_over() {
    let log = import(
        r#"<log><trace><string key="a" value="1"/><string key="b" value=2 other="x"/><string key="c" oops value="3"/><string key="d" value="4"/></trace></log>"#,
    );
    assert_eq!(log.traces.len(), 1);
    let keys: Vec<&str> =
        (0..log.traces[0].attributes.len()).map(|i| log.traces[0].attributes.at(i).key.as_str()).collect();
    assert_eq!(keys, vec!["a", "d"]);
}

#[test]
fn two_imports_of_one_text_give_the_same_log() {
    let text = r#"<log><extension name="n" prefix="p" uri="u"/><trace><string key="a" value="1"/>
<event><list key="l"><int key="x" value="1"/><int key="y" value="2"/></list></event></oops>
<event><date key="d" value="2020-01-01T00:00:00Z"/></event></trace></log> trailing"#;
    let first = import(text);
    let second = import(text);
    assert_eq!(format!("{:?}", first), format!("{:?}", second));
    assert_eq!(first.traces.len(), 1);
    assert_eq!(first.traces[0].events.len(), 2);
    let empty = import("");
    assert_eq!(empty.traces.len(), 0);
    assert_eq!(empty.attributes.len(), 0);
}
