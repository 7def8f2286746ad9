use rustxes::float_literal::FloatLiteral;
use rustxes::object_index::hash_text;
use rustxes::ocel::{
    has_undeclared_object_attributes, has_unknown_object_references,
    list_unknown_object_references, ocel2_to_df, ocel_dfs_to_py,
    OCELAttributeValue, OCELEvent, OCELEventAttribute, OCELObject, OCELObjectAttribute,
    OCELRelationship, OCELType, OCELTypeAttribute, OCEL,
};
use rustxes::table::{CellValue, Column, Table};
use rustxes::time::Timestamp;

fn at(secs: i64) -> Timestamp {
    Timestamp { secs, nanos: 0 }
}

fn rel(object_id: &str, qualifier: &str) -> OCELRelationship {
    OCELRelationship { object_id: object_id.to_string(), qualifier: qualifier.to_string() }
}

fn declared(name: &str, attributes: &[&str]) -> OCELType {
    OCELType {
        name: name.to_string(),
        attributes: attributes
            .iter()
            .map(|a| OCELTypeAttribute { name: a.to_string(), value_type: "string".to_string() })
            .collect(),
    }
}

fn entry(name: &str, value: OCELAttributeValue, time: Timestamp) -> OCELObjectAttribute {
    OCELObjectAttribute { name: name.to_string(), value, time }
}

fn fixture() -> OCEL {
    OCEL {
        event_types: vec![declared("place", &["channel"]), declared("ship", &["channel", "weight"])],
        object_types: vec![declared("order", &["price"]), declared("item", &["price", "size"])],
        events: vec![
            OCELEvent {
                id: "e1".to_string(),
                event_type: "ship".to_string(),
                time: at(300),
                attributes: vec![
                    OCELEventAttribute {
                        name: "weight".to_string(),
                        value: OCELAttributeValue::Integer(12),
                    },
                    OCELEventAttribute {
                        name: "weight".to_string(),
                        value: OCELAttributeValue::Integer(13),
                    },
                ],
                relationships: Some(vec![rel("o1", "ships"), rel("gone", "ships")]),
            },
            OCELEvent {
                id: "e2".to_string(),
                event_type: "place".to_string(),
                time: at(100),
                attributes: vec![OCELEventAttribute {
                    name: "channel".to_string(),
                    value: OCELAttributeValue::String("web".to_string()),
                }],
                relationships: Some(vec![rel("o1", "places"), rel("i1", "holds"), rel("i2", "holds")]),
            },
            OCELEvent {
                id: "e3".to_string(),
                event_type: "place".to_string(),
                time: at(100),
                attributes: vec![],
                relationships: None,
            },
        ],
        objects: vec![
            OCELObject {
                id: "o1".to_string(),
                object_type: "order".to_string(),
                attributes: vec![
                    entry("price", OCELAttributeValue::Integer(10), at(0)),
                    entry("price", OCELAttributeValue::Integer(20), at(500)),
                ],
                relationships: Some(vec![rel("i1", "has"), rel("i2", "has")]),
            },
            OCELObject {
                id: "i1".to_string(),
                object_type: "item".to_string(),
                attributes: vec![entry(
                    "size",
                    OCELAttributeValue::Float(FloatLiteral::parse("1.5").unwrap()),
                    at(200),
                )],
                relationships: None,
            },
            OCELObject {
                id: "i2".to_string(),
                object_type: "item".to_string(),
                attributes: vec![entry("price", OCELAttributeValue::Integer(3), at(50))],
                relationships: Some(vec![]),
            },
        ],
    }
}

fn names(table: &Table) -> Vec<&str> {
    table.columns.iter().map(|c| c.name.as_str()).collect()
}

fn show(column: &Column) -> Vec<String> {
    column
        .values
        .iter()
        .map(|c| match c {
            CellValue::Null => "-".to_string(),
            CellValue::String(s) => s.clone(),
            CellValue::Datetime(t) => format!("@{}", t.secs),
            CellValue::Int(n) => format!("{}", n),
            CellValue::Float(f) => f.as_str().to_string(),
            CellValue::Boolean(b) => format!("{}", b),
        })
        .collect()
}

fn generated(objects: usize, events: usize, changes: usize, o2o: usize, e2o: usize) -> OCEL {
    let share = |total: usize, parts: usize, part: usize| -> usize {
        total / parts + if part < total % parts { 1 } else { 0 }
    };
    let names = ["price", "weight", "role"];
    let objects: Vec<OCELObject> = (0..objects)
        .map(|o| OCELObject {
            id: format!("o{}", o),
            object_type: ["orders", "items", "employees"][o % 3].to_string(),
            attributes: (0..share(changes, objects, o))
                .map(|a| {
                    entry(
                        names[(o + a) % 3],
                        OCELAttributeValue::Integer((o + a) as i64),
                        at(1 + ((o * 31 + a * 17) % 1000) as i64),
                    )
                })
                .collect(),
            relationships: Some(
                (0..share(o2o, objects, o))
                    .map(|r| rel(&format!("o{}", (o + r + 1) % objects), "related"))
                    .collect(),
            ),
        })
        .collect();
    let count = objects.len();
    OCEL {
        event_types: vec![declared("place order", &[]), declared("pick item", &[])],
        object_types: vec![
            declared("orders", &["price"]),
            declared("items", &["price", "weight"]),
            declared("employees", &["role"]),
        ],
        events: (0..events)
            .map(|e| OCELEvent {
                id: format!("e{}", e),
                event_type: ["place order", "pick item"][e % 2].to_string(),
                time: at(((e * 7919) % 100_000) as i64),
                attributes: vec![],
                relationships: Some(
                    (0..share(e2o, events, e))
                        .map(|r| rel(&format!("o{}", (e * 13 + r * 101) % count), "involves"))
                        .collect(),
                ),
            })
            .collect(),
        objects,
    }
}

fn instants(column: &Column) -> Vec<Timestamp> {
    column
        .values
        .iter()
        .map(|c| match c {
            CellValue::Datetime(t) => *t,
            other => panic!("not an instant: {:?}", other),
        })
        .collect()
}

fn ascends(times: &[Timestamp]) -> bool {
    times.windows(2).all(|w| (w[0].secs, w[0].nanos) <= (w[1].secs, w[1].nanos))
}

#[test]
fn test_ocel2_df() {
    let ocel = generated(10840, 21008, 18604, 28391, 147463);
    let ocel_dfs = ocel2_to_df(&ocel);

    assert_eq!(ocel.objects.len(), 10840);
    assert_eq!(ocel.objects.len(), ocel_dfs.objects.shape().0);

    assert_eq!(ocel.events.len(), 21008);
    assert_eq!(ocel.events.len(), ocel_dfs.events.shape().0);

    assert_eq!(
        ocel.events.iter().flat_map(|ev| ev.relationships.clone().unwrap_or_default()).count(),
        ocel_dfs.e2o.shape().0
    );
    assert_eq!(ocel.events.len(), ocel_dfs.events.shape().0);

    assert_eq!(ocel_dfs.objects.shape(), (10840, 2));
    assert_eq!(ocel_dfs.events.shape(), (21008, 3));
    assert_eq!(ocel_dfs.e2o.shape(), (147463, 6));
    assert_eq!(ocel_dfs.o2o.shape(), (28391, 3));
    assert_eq!(ocel_dfs.object_changes.shape(), (18604, 7));

    assert!(ascends(&instants(ocel_dfs.events.column("ocel:timestamp").unwrap())));
    assert!(ascends(&instants(ocel_dfs.e2o.column("ocel:timestamp").unwrap())));
    assert!(ascends(&instants(ocel_dfs.object_changes.column("ocel:timestamp").unwrap())));
    let types = show(ocel_dfs.e2o.column("ocel:type").unwrap());
    let ids = show(ocel_dfs.e2o.column("ocel:oid").unwrap());
    for (id, ty) in ids.iter().zip(types.iter()) {
        let place: usize = id[1..].parse().unwrap();
        assert_eq!(ty, ["orders", "items", "employees"][place % 3]);
    }
}

#[test]
fn test_ocel2_container_df() {
    let ocel = generated(13910, 35413, 20000, 10000, 50000);
    let ocel_dfs = ocel2_to_df(&ocel);
    assert_eq!(ocel.objects.len(), 13910);
    assert_eq!(ocel.events.len(), 35413);
    assert_eq!(ocel_dfs.objects.shape().0, 13910);
    assert_eq!(ocel_dfs.events.shape().0, 35413);
    assert_eq!(ocel_dfs.object_changes.shape().0, 20000);
    assert_eq!(ocel_dfs.o2o.shape().0, 10000);
    assert_eq!(ocel_dfs.e2o.shape().0, 50000);
}

#[test]
fn small_log_gives_tables_of_its_shape() {
    let ocel = fixture();
    let ocel_dfs = ocel2_to_df(&ocel);
    assert_eq!(ocel_dfs.objects.shape(), (3, 3));
    assert_eq!(ocel_dfs.events.shape(), (3, 5));
    assert_eq!(ocel_dfs.e2o.shape(), (5, 6));
    assert_eq!(ocel_dfs.o2o.shape(), (2, 3));
    assert_eq!(ocel_dfs.object_changes.shape(), (4, 6));
}

#[test]
fn objects_table_shows_initial_values_only() {
    let tables = ocel2_to_df(&fixture());
    assert_eq!(names(&tables.objects), vec!["price", "ocel:oid", "ocel:type"]);
    assert_eq!(show(tables.objects.column("price").unwrap()), vec!["10", "-", "-"]);
    assert_eq!(show(tables.objects.column("ocel:oid").unwrap()), vec!["o1", "i1", "i2"]);
    assert_eq!(show(tables.objects.column("ocel:type").unwrap()), vec!["order", "item", "item"]);
}

#[test]
fn events_table_is_sorted_by_time_and_keeps_ties_in_order() {
    let tables = ocel2_to_df(&fixture());
    assert_eq!(
        names(&tables.events),
        vec!["channel", "weight", "ocel:eid", "ocel:activity", "ocel:timestamp"]
    );
    assert_eq!(show(tables.events.column("ocel:eid").unwrap()), vec!["e2", "e3", "e1"]);
    assert_eq!(
        show(tables.events.column("ocel:timestamp").unwrap()),
        vec!["@100", "@100", "@300"]
    );
    assert_eq!(show(tables.events.column("channel").unwrap()), vec!["web", "-", "-"]);
    assert_eq!(show(tables.events.column("weight").unwrap()), vec!["-", "-", "12"]);
    assert_eq!(
        show(tables.events.column("ocel:activity").unwrap()),
        vec!["place", "place", "ship"]
    );
}

#[test]
fn e2o_table_resolves_object_types() {
    let tables = ocel2_to_df(&fixture());
    assert_eq!(
        names(&tables.e2o),
        vec![
            "ocel:eid",
            "ocel:activity",
            "ocel:timestamp",
            "ocel:oid",
            "ocel:type",
            "ocel:qualifier"
        ]
    );
    assert_eq!(show(tables.e2o.column("ocel:eid").unwrap()), vec!["e2", "e2", "e2", "e1", "e1"]);
    assert_eq!(
        show(tables.e2o.column("ocel:oid").unwrap()),
        vec!["o1", "i1", "i2", "o1", "gone"]
    );
    assert_eq!(
        show(tables.e2o.column("ocel:type").unwrap()),
        vec!["order", "item", "item", "order", "-"]
    );
    assert_eq!(
        show(tables.e2o.column("ocel:qualifier").unwrap()),
        vec!["places", "holds", "holds", "ships", "ships"]
    );
    assert_eq!(
        show(tables.e2o.column("ocel:timestamp").unwrap()),
        vec!["@100", "@100", "@100", "@300", "@300"]
    );
}

#[test]
fn o2o_table_lists_references_in_order() {
    let tables = ocel2_to_df(&fixture());
    assert_eq!(names(&tables.o2o), vec!["ocel:oid", "ocel:oid_2", "ocel:qualifier"]);
    assert_eq!(show(tables.o2o.column("ocel:oid").unwrap()), vec!["o1", "o1"]);
    assert_eq!(show(tables.o2o.column("ocel:oid_2").unwrap()), vec!["i1", "i2"]);
    assert_eq!(show(tables.o2o.column("ocel:qualifier").unwrap()), vec!["has", "has"]);
}

#[test]
fn object_changes_table_holds_the_whole_history() {
    let tables = ocel2_to_df(&fixture());
    assert_eq!(
        names(&tables.object_changes),
        vec!["price", "size", "ocel:oid", "ocel:type", "ocel:field", "ocel:timestamp"]
    );
    assert_eq!(
        show(tables.object_changes.column("ocel:timestamp").unwrap()),
        vec!["@0", "@50", "@200", "@500"]
    );
    assert_eq!(
        show(tables.object_changes.column("ocel:oid").unwrap()),
        vec!["o1", "i2", "i1", "o1"]
    );
    assert_eq!(
        show(tables.object_changes.column("ocel:field").unwrap()),
        vec!["price", "price", "size", "price"]
    );
    assert_eq!(
        show(tables.object_changes.column("price").unwrap()),
        vec!["10", "3", "-", "20"]
    );
    assert_eq!(
        show(tables.object_changes.column("size").unwrap()),
        vec!["-", "-", "1.5", "-"]
    );
}

#[test]
fn last_object_of_an_id_gives_the_type() {
    let mut ocel = fixture();
    ocel.objects.push(OCELObject {
        id: "o1".to_string(),
        object_type: "parcel".to_string(),
        attributes: vec![],
        relationships: None,
    });
    let tables = ocel2_to_df(&ocel);
    assert_eq!(
        show(tables.e2o.column("ocel:type").unwrap()),
        vec!["parcel", "item", "item", "parcel", "-"]
    );
}

#[test]
fn tables_are_handed_out_by_name() {
    let named = ocel_dfs_to_py(ocel2_to_df(&fixture()));
    let order: Vec<&str> = named.iter().map(|(n, _)| n.as_str()).collect();
    assert_eq!(order, vec!["events", "objects", "o2o", "relations", "object_changes"]);
    assert_eq!(named[0].1.shape(), (3, 5));
    assert_eq!(named[1].1.shape(), (3, 3));
    assert_eq!(named[2].1.shape(), (2, 3));
    assert_eq!(named[3].1.shape(), (5, 6));
    assert_eq!(named[4].1.shape(), (4, 6));
}

#[test]
fn empty_log_gives_empty_tables() {
    let ocel = OCEL { event_types: vec![], object_types: vec![], events: vec![], objects: vec![] };
    let tables = ocel2_to_df(&ocel);
    assert_eq!(tables.objects.shape(), (0, 2));
    assert_eq!(tables.events.shape(), (0, 3));
    assert_eq!(tables.e2o.shape(), (0, 6));
    assert_eq!(tables.o2o.shape(), (0, 3));
    assert_eq!(tables.object_changes.shape(), (0, 4));
}

#[test]
fn log_that_does_not_conform_is_told() {
    let ocel = fixture();
    assert!(!has_undeclared_object_attributes(&ocel));
    assert!(has_unknown_object_references(&ocel));
    let mut ocel = fixture();
    ocel.objects[1].attributes.push(entry("colour", OCELAttributeValue::Null, at(0)));
    ocel.events[0].relationships = Some(vec![rel("o1", "ships")]);
    assert!(has_undeclared_object_attributes(&ocel));
    assert!(!has_unknown_object_references(&ocel));
    let tables = ocel2_to_df(&ocel);
    assert_eq!(names(&tables.objects), vec!["price", "ocel:oid", "ocel:type"]);
}

#[test]
fn texts_are_numbered() {
    assert_eq!(hash_text(""), 0);
    assert_eq!(hash_text("a"), 97);
    assert_eq!(hash_text("ab"), 97 * 31 + 98);
    assert_eq!(hash_text("ab"), hash_text(&String::from("ab")));
    assert!(hash_text(&"z".repeat(1000)) < 0x1fff_ffff_ffff_ffff);
}

#[test]
fn copy_of_a_log_gives_the_same_tables() {
    let ocel = fixture();
    let copy = ocel.clone();
    assert_eq!(format!("{:?}", copy), format!("{:?}", ocel));
    let tables = ocel2_to_df(&ocel);
    assert_eq!(format!("{:?}", ocel2_to_df(&copy)), format!("{:?}", tables));
    assert_eq!(format!("{:?}", tables.clone()), format!("{:?}", tables));
}

#[test]
fn unknown_references_are_listed_one_by_one() {
    let mut ocel = fixture();
    assert_eq!(
        list_unknown_object_references(&ocel),
        vec![("e1".to_string(), "gone".to_string())]
    );
    ocel.events[1].relationships =
        Some(vec![rel("nowhere", "places"), rel("i1", "holds"), rel("gone", "holds")]);
    assert_eq!(
        list_unknown_object_references(&ocel),
        vec![
            ("e1".to_string(), "gone".to_string()),
            ("e2".to_string(), "nowhere".to_string()),
            ("e2".to_string(), "gone".to_string()),
        ]
    );
    ocel.events.clear();
    assert!(list_unknown_object_references(&ocel).is_empty());
}
