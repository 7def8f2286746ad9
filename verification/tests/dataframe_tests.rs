use rustxes::dataframe::{
    assemble_table, cell_as_text, collect_column_keys, column_types, convert_log_to_dataframe, count_types,
    flatten_column, held_types, mixed_columns, reconcile, render_value, widen_cell,
};
use rustxes::event_log_struct::{
    Attribute, AttributeAddable, AttributeValue, Attributes, Event, EventLog, Trace,
};
use rustxes::float_literal::FloatLiteral;
use rustxes::table::{CellValue, Column, DataType, Table};
use rustxes::time::Timestamp;
use rustxes::xes_import::{import_xes_str, XESImportOptions};

fn strings(column: &Column) -> Vec<Option<String>> {
    column
        .values
        .iter()
        .map(|c| match c {
            CellValue::String(s) => Some(s.clone()),
            CellValue::Null => None,
            other => panic!("not a text: {:?}", other),
        })
        .collect()
}

fn texts(values: &[&str]) -> Vec<Option<String>> {
    values.iter().map(|v| Some(v.to_string())).collect()
}

fn names(table: &Table) -> Vec<&str> {
    table.columns.iter().map(|c| c.name.as_str()).collect()
}

fn event(attributes: Vec<(&str, AttributeValue)>) -> Event {
    let mut e = Event::new();
    for (k, v) in attributes {
        e.attributes.add_to_attributes(k.to_string(), v);
    }
    e
}

fn trace(attributes: Vec<(&str, AttributeValue)>, events: Vec<Event>) -> Trace {
    let mut t = Trace::new();
    for (k, v) in attributes {
        t.attributes.add_to_attributes(k.to_string(), v);
    }
    t.events = events;
    t
}

fn text(s: &str) -> AttributeValue {
    AttributeValue::String(s.to_string())
}

fn float(s: &str) -> AttributeValue {
    AttributeValue::Float(FloatLiteral::parse(s).unwrap())
}

#[test]
fn one_trace_two_events() {
    let log = import_xes_str(
        r#"<log><trace>
<string key="concept:name" value="case1"/>
<event><string key="concept:name" value="A"/></event>
<event><string key="concept:name" value="B"/></event>
</trace></log>"#,
        XESImportOptions::default(),
    )
    .unwrap();
    let table = convert_log_to_dataframe(&log);
    assert_eq!(table.shape(), (2, 2));
    assert_eq!(strings(table.column("case:concept:name").unwrap()), texts(&["case1", "case1"]));
    assert_eq!(strings(table.column("concept:name").unwrap()), texts(&["A", "B"]));
}

#[test]
fn row_count_is_the_number_of_events() {
    let mut log = EventLog::new();
    log.traces.push(trace(vec![], vec![event(vec![("a", text("1"))]), event(vec![])]));
    log.traces.push(trace(vec![("t", text("x"))], vec![]));
    log.traces.push(trace(
        vec![],
        vec![event(vec![]), event(vec![("b", text("2"))]), event(vec![("a", text("3"))])],
    ));
    let table = convert_log_to_dataframe(&log);
    assert_eq!(table.height, 5);
    assert_eq!(names(&table), vec!["a", "case:t", "b"]);
    for column in &table.columns {
        assert_eq!(column.values.len(), 5);
    }
    assert_eq!(
        strings(table.column("a").unwrap()),
        vec![Some("1".to_string()), None, None, None, Some("3".to_string())]
    );
    assert_eq!(strings(table.column("case:t").unwrap()), vec![None, None, None, None, None]);
}

#[test]
fn empty_log_gives_empty_table() {
    let table = convert_log_to_dataframe(&EventLog::new());
    assert_eq!(table.shape(), (0, 0));
    assert!(table.column("concept:name").is_none());
}

#[test]
fn events_without_attributes_still_have_rows() {
    let mut log = EventLog::new();
    log.traces.push(trace(vec![], vec![event(vec![]), event(vec![])]));
    let table = convert_log_to_dataframe(&log);
    assert_eq!(table.shape(), (2, 0));
}

#[test]
fn trace_values_are_the_same_in_all_rows_of_a_trace() {
    let mut log = EventLog::new();
    log.traces.push(trace(
        vec![("n", AttributeValue::Int(1))],
        vec![event(vec![]), event(vec![]), event(vec![])],
    ));
    log.traces.push(trace(vec![("n", AttributeValue::Int(2))], vec![event(vec![])]));
    let table = convert_log_to_dataframe(&log);
    let column = table.column("case:n").unwrap();
    let values: Vec<i64> = column
        .values
        .iter()
        .map(|c| match c {
            CellValue::Int(n) => *n,
            other => panic!("not a number: {:?}", other),
        })
        .collect();
    assert_eq!(values, vec![1, 1, 1, 2]);
}

#[test]
fn event_key_with_the_prefix_reads_the_trace() {
    let mut log = EventLog::new();
    log.traces.push(trace(
        vec![("x", text("of trace"))],
        vec![event(vec![("case:x", text("of event")), ("x", text("plain"))])],
    ));
    let table = convert_log_to_dataframe(&log);
    assert_eq!(names(&table), vec!["case:x", "x"]);
    assert_eq!(strings(table.column("case:x").unwrap()), texts(&["of trace"]));
    assert_eq!(strings(table.column("x").unwrap()), texts(&["plain"]));
}

#[test]
fn global_attribute_stands_in_for_a_missing_one() {
    let mut log = EventLog::new();
    log.global_event_attrs.add_to_attributes("k".to_string(), text("default"));
    log.global_trace_attrs.add_to_attributes("t".to_string(), text("trace default"));
    log.traces.push(trace(
        vec![("t", text("own"))],
        vec![event(vec![("k", text("given"))]), event(vec![("other", text("o"))])],
    ));
    log.traces.push(trace(vec![], vec![event(vec![])]));
    let table = convert_log_to_dataframe(&log);
    assert_eq!(strings(table.column("k").unwrap()), texts(&["given", "default", "default"]));
    assert_eq!(
        strings(table.column("case:t").unwrap()),
        texts(&["own", "own", "trace default"])
    );
    assert_eq!(
        strings(table.column("other").unwrap()),
        vec![None, Some("o".to_string()), None]
    );
}

#[test]
fn declared_global_attribute_stands_in_after_import() {
    let log = import_xes_str(
        r#"<log>
<global scope="trace"><string key="concept:name" value="no case"/></global>
<global scope="event"><string key="concept:name" value="unknown"/></global>
<trace><event><string key="concept:name" value="A"/></event><event><int key="n" value="1"/></event></trace>
</log>"#,
        XESImportOptions::default(),
    )
    .unwrap();
    let table = convert_log_to_dataframe(&log);
    assert_eq!(strings(table.column("concept:name").unwrap()), texts(&["A", "unknown"]));
    assert_eq!(names(&table), vec!["concept:name", "n"]);
}

#[test]
fn whole_numbers_are_widened_among_floating_point_numbers() {
    let mut log = EventLog::new();
    log.traces.push(trace(
        vec![],
        vec![
            event(vec![("v", AttributeValue::Int(3))]),
            event(vec![("v", float("2.5"))]),
            event(vec![]),
            event(vec![("v", AttributeValue::Int(-7))]),
        ],
    ));
    let table = convert_log_to_dataframe(&log);
    let column = table.column("v").unwrap();
    let shown: Vec<Option<f64>> = column
        .values
        .iter()
        .map(|c| match c {
            CellValue::Float(f) => Some(f.as_str().parse::<f64>().unwrap()),
            CellValue::Null => None,
            other => panic!("not a floating-point number: {:?}", other),
        })
        .collect();
    assert_eq!(shown, vec![Some(3.0), Some(2.5), None, Some(-7.0)]);
}

#[test]
fn other_mixes_become_text() {
    let mut log = EventLog::new();
    log.traces.push(trace(
        vec![],
        vec![
            event(vec![("v", AttributeValue::Int(3))]),
            event(vec![("v", text("three"))]),
            event(vec![("v", AttributeValue::Boolean(true))]),
            event(vec![]),
            event(vec![("v", float("1e3"))]),
            event(vec![("v", AttributeValue::Date(Timestamp { secs: 0, nanos: 0 }))]),
        ],
    ));
    let table = convert_log_to_dataframe(&log);
    assert_eq!(
        strings(table.column("v").unwrap()),
        vec![
            Some("3".to_string()),
            Some("three".to_string()),
            Some("true".to_string()),
            None,
            Some("1e3".to_string()),
            Some("1970-01-01T00:00:00+00:00".to_string()),
        ]
    );
}

#[test]
fn columns_of_one_type_stay_as_they_are() {
    let cells =
        vec![CellValue::Int(1), CellValue::Null, CellValue::Int(2)];
    assert_eq!(count_types(&cells), 1);
    let cells = reconcile(cells);
    assert!(matches!(cells[0], CellValue::Int(1)));
    assert!(matches!(cells[1], CellValue::Null));
    assert!(matches!(cells[2], CellValue::Int(2)));
    assert_eq!(count_types(&vec![CellValue::Null]), 0);
    assert_eq!(
        count_types(&vec![
            CellValue::Int(1),
            CellValue::Boolean(true),
            CellValue::String(String::new())
        ]),
        3
    );
}

#[test]
fn cells_are_widened_and_turned_into_text_one_by_one() {
    match widen_cell(CellValue::Int(i64::MIN)) {
        CellValue::Float(f) => assert_eq!(f.as_str(), "-9223372036854775808"),
        other => panic!("not widened: {:?}", other),
    }
    assert!(matches!(widen_cell(CellValue::Boolean(true)), CellValue::Boolean(true)));
    match cell_as_text(CellValue::Boolean(false)) {
        CellValue::String(s) => assert_eq!(s, "false"),
        other => panic!("not a text: {:?}", other),
    }
    match cell_as_text(CellValue::Datetime(Timestamp { secs: 1696577421, nanos: 890_000_000 })) {
        CellValue::String(s) => assert_eq!(s, "2023-10-06T07:30:21.890+00:00"),
        other => panic!("not a text: {:?}", other),
    }
    assert!(matches!(cell_as_text(CellValue::Null), CellValue::Null));
    assert_eq!(CellValue::Int(1).data_type(), Some(DataType::Int));
}

#[test]
fn identifiers_lists_and_containers_are_shown_as_text() {
    let mut inner = Attributes::new();
    inner.add_to_attributes("n".to_string(), AttributeValue::Int(5));
    inner.add_to_attributes("b".to_string(), AttributeValue::Boolean(true));
    let list = AttributeValue::List(vec![
        Attribute::new("a".to_string(), text("x")),
        Attribute::new("c".to_string(), AttributeValue::Container(inner)),
        Attribute::new("z".to_string(), AttributeValue::Null),
    ]);
    assert_eq!(render_value(&list), "[a=x, c={n=5, b=true}, z=null]");
    assert_eq!(render_value(&AttributeValue::List(vec![])), "[]");
    let mut log = EventLog::new();
    log.traces.push(trace(
        vec![],
        vec![event(vec![
            ("l", list),
            ("u", AttributeValue::ID(0xa1a2a3a4b1b2c1c2d1d2d3d4d5d6d7d8u128)),
        ])],
    ));
    let table = convert_log_to_dataframe(&log);
    assert_eq!(
        strings(table.column("l").unwrap()),
        texts(&["[a=x, c={n=5, b=true}, z=null]"])
    );
    assert_eq!(
        strings(table.column("u").unwrap()),
        texts(&["a1a2a3a4-b1b2-c1c2-d1d2-d3d4d5d6d7d8"])
    );
}

#[test]
fn basic_xes() {
    let mut text = String::from("<?xml version=\"1.0\" encoding=\"UTF-8\"?>\n<log xes.version=\"1.0\">\n");
    text.push_str("<extension name=\"Concept\" prefix=\"concept\" uri=\"http://www.xes-standard.org/concept.xesext\"/>\n");
    text.push_str("<global scope=\"event\"><string key=\"concept:name\" value=\"__INVALID__\"/></global>\n");
    text.push_str("<classifier name=\"Activity\" keys=\"concept:name\"/>\n");
    for t in 0..1500 {
        text.push_str(&format!("<trace>\n<string key=\"concept:name\" value=\"Application_{}\"/>\n", t));
        text.push_str(&format!("<float key=\"RequestedAmount\" value=\"{}.0\"/>\n", 1000 + t));
        for e in 0..(t % 17) {
            text.push_str("<event>\n");
            text.push_str(&format!("<string key=\"concept:name\" value=\"A_{}\"/>\n", e % 5));
            text.push_str(&format!(
                "<date key=\"time:timestamp\" value=\"2016-01-{:02}T{:02}:51:15.304+00:00\"/>\n",
                1 + t % 28,
                e
            ));
            if e % 3 == 0 {
                text.push_str(&format!("<int key=\"cost\" value=\"{}\"/>\n", e));
            }
            text.push_str("</event>\n");
        }
        text.push_str("</trace>\n");
    }
    text.push_str("</log>\n");
    let log = import_xes_str(&text, XESImportOptions::default()).unwrap();
    let num_events = log.traces.iter().map(|t| t.events.len()).sum::<usize>();
    let converted_log = convert_log_to_dataframe(&log);
    assert_eq!(converted_log.shape().0, num_events);
    assert_eq!(log.traces.len(), 1500);
    assert_eq!(num_events, (0..1500).map(|t| t % 17).sum::<usize>());
    assert_eq!(
        names(&converted_log),
        vec!["case:concept:name", "case:RequestedAmount", "concept:name", "time:timestamp", "cost"]
    );
}

#[test]
fn columns_can_be_built_one_by_one() {
    let mut log = EventLog::new();
    log.traces.push(trace(
        vec![("t", text("x"))],
        vec![
            event(vec![("v", AttributeValue::Int(3)), ("w", text("a"))]),
            event(vec![("v", float("2.5"))]),
            event(vec![("w", AttributeValue::Boolean(true))]),
        ],
    ));
    let table = convert_log_to_dataframe(&log);
    let keys = collect_column_keys(&log);
    assert_eq!(keys, vec!["case:t", "v", "w"]);
    assert_eq!(keys.len(), table.columns.len());
    for (key, column) in keys.iter().zip(table.columns.iter()) {
        let alone = flatten_column(&log, key);
        assert_eq!(format!("{:?}", alone), format!("{:?}", column));
    }
    assert_eq!(flatten_column(&log, &"missing".to_string()).values.len(), 3);
}

#[test]
fn columns_of_mixed_types_are_told() {
    let mut log = EventLog::new();
    log.traces.push(trace(
        vec![("t", text("x"))],
        vec![
            event(vec![("v", AttributeValue::Int(3)), ("w", text("a"))]),
            event(vec![("v", float("2.5"))]),
            event(vec![("w", AttributeValue::Boolean(true)), ("u", AttributeValue::Int(1))]),
        ],
    ));
    assert_eq!(mixed_columns(&log), vec!["v", "w"]);
    assert_eq!(column_types(&log, &"v".to_string()), vec![DataType::Int, DataType::Float]);
    assert_eq!(column_types(&log, &"w".to_string()), vec![DataType::String, DataType::Boolean]);
    assert_eq!(column_types(&log, &"u".to_string()), vec![DataType::Int]);
    assert_eq!(column_types(&log, &"none".to_string()), Vec::<DataType>::new());
    assert_eq!(
        held_types(&vec![
            CellValue::Boolean(true),
            CellValue::Null,
            CellValue::Datetime(Timestamp { secs: 0, nanos: 0 }),
            CellValue::String(String::new()),
        ]),
        vec![DataType::String, DataType::Datetime, DataType::Boolean]
    );
}

#[test]
fn columns_are_put_together_to_the_table() {
    let mut log = EventLog::new();
    log.traces.push(trace(
        vec![("t", text("x"))],
        vec![event(vec![("v", AttributeValue::Int(3))]), event(vec![("w", text("a"))])],
    ));
    log.traces.push(trace(vec![], vec![event(vec![])]));
    let columns: Vec<Column> =
        collect_column_keys(&log).iter().map(|key| flatten_column(&log, key)).collect();
    let table = assemble_table(&log, columns);
    assert_eq!(table.shape(), (3, 3));
    assert_eq!(format!("{:?}", table), format!("{:?}", convert_log_to_dataframe(&log)));
    assert_eq!(assemble_table(&log, Vec::new()).shape(), (3, 0));
}
